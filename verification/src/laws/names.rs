//! How things are named on the host and in the progress display.

use vstd::prelude::*;

use crate::dockerfile::{self, ArgDecl, Command, Instruction};
use crate::executor;
use crate::expand;
use crate::laws::keys;
use crate::materialize;
use crate::stage;
use crate::text;
use crate::winpath::{self, Host};

verus! {

/// A character that no file name can have on Windows.
pub open spec fn refused_on_windows(c: char) -> bool {
    c == '<' || c == '>' || c == ':' || c == '"' || c == '/' || c == '\\' || c == '|' || c == '?'
        || c == '*' || (c as u32) < 0x20
}

/// Whatever a file is called on Linux, the name under which it is stored on Windows has
/// none of the characters that Windows refuses, no blank or dot at its end, and does not
/// mean a device in front of its first dot.
pub proof fn stored_names_are_accepted_on_windows(name: Seq<char>, i: int, d: char)
    requires
        name.len() > 0,
        name != seq!['.'],
        name != seq!['.', '.'],
        '1' <= d <= '9',
    ensures
        ({
            let stored = winpath::encoded(Host::Windows, name);
            let stem = text::uppered(text::split_at_char(stored, '.')[0]);
            &&& stored.len() > 0
            &&& 0 <= i < stored.len() ==> !refused_on_windows(stored[i])
            &&& stored.last() != ' '
            &&& stored.last() != '.'
            &&& stem != "CON"@ && stem != "PRN"@ && stem != "AUX"@ && stem != "NUL"@
            &&& stem != seq!['C', 'O', 'M', d]
            &&& stem != seq!['L', 'P', 'T', d]
        }),
{
    let stored = winpath::encoded(Host::Windows, name);
    winpath::stored_component_is_legal(name);
    reveal_strlit("#bk#");
    reveal_strlit(".");
    reveal_strlit("..");
    assert("."@ =~= seq!['.']);
    assert(".."@ =~= seq!['.', '.']);
    assert(stored.len() > 0 && stored != "."@ && stored != ".."@) by {
        if stored != name {
            assert(stored[0] == '#');
        }
    }
    assert(stored != Seq::<char>::empty());
    assert(stored.last() != ' ');
    assert(stored.last() != '.');
    if 0 <= i < stored.len() {
        assert(!winpath::rejected_char(stored[i]));
        assert(!refused_on_windows(stored[i]));
    }
    let stem = text::uppered(text::split_at_char(stored, '.')[0]);
    lemma_device(stem, d);
}

proof fn lemma_device(stem: Seq<char>, d: char)
    requires
        '1' <= d <= '9',
        !winpath::reserved_device(stem),
    ensures
        stem != seq!['C', 'O', 'M', d],
        stem != seq!['L', 'P', 'T', d],
{
    reveal_strlit("COM1");
    reveal_strlit("COM2");
    reveal_strlit("COM3");
    reveal_strlit("COM4");
    reveal_strlit("COM5");
    reveal_strlit("COM6");
    reveal_strlit("COM7");
    reveal_strlit("COM8");
    reveal_strlit("COM9");
    reveal_strlit("LPT1");
    reveal_strlit("LPT2");
    reveal_strlit("LPT3");
    reveal_strlit("LPT4");
    reveal_strlit("LPT5");
    reveal_strlit("LPT6");
    reveal_strlit("LPT7");
    reveal_strlit("LPT8");
    reveal_strlit("LPT9");
    if stem == seq!['C', 'O', 'M', d] {
        if d == '1' {
            assert(stem =~= "COM1"@);
        } else if d == '2' {
            assert(stem =~= "COM2"@);
        } else if d == '3' {
            assert(stem =~= "COM3"@);
        } else if d == '4' {
            assert(stem =~= "COM4"@);
        } else if d == '5' {
            assert(stem =~= "COM5"@);
        } else if d == '6' {
            assert(stem =~= "COM6"@);
        } else if d == '7' {
            assert(stem =~= "COM7"@);
        } else if d == '8' {
            assert(stem =~= "COM8"@);
        } else {
            assert(stem =~= "COM9"@);
        }
    }
    if stem == seq!['L', 'P', 'T', d] {
        if d == '1' {
            assert(stem =~= "LPT1"@);
        } else if d == '2' {
            assert(stem =~= "LPT2"@);
        } else if d == '3' {
            assert(stem =~= "LPT3"@);
        } else if d == '4' {
            assert(stem =~= "LPT4"@);
        } else if d == '5' {
            assert(stem =~= "LPT5"@);
        } else if d == '6' {
            assert(stem =~= "LPT6"@);
        } else if d == '7' {
            assert(stem =~= "LPT7"@);
        } else if d == '8' {
            assert(stem =~= "LPT8"@);
        } else {
            assert(stem =~= "LPT9"@);
        }
    }
}

/// A name of letters, digits, hyphens and underscores that is too long for a device is
/// stored as it is on every host.
pub proof fn plain_names_are_stored_as_they_are(host: Host, name: Seq<char>)
    requires
        name.len() > 4,
        forall|i: int|
            0 <= i < name.len() ==> 'a' <= #[trigger] name[i] <= 'z' || 'A' <= name[i] <= 'Z' || '0'
                <= name[i] <= '9' || name[i] == '-' || name[i] == '_',
    ensures
        winpath::encoded(host, name) == name,
        winpath::decoded(host, name) == name,
{
    let n = name.len() - 1;
    assert('a' <= name[n] <= 'z' || 'A' <= name[n] <= 'Z' || '0' <= name[n] <= '9' || name[n] == '-'
        || name[n] == '_');
    assert(!name.contains('.')) by {
        if name.contains('.') {
            let k = choose|k: int| 0 <= k < name.len() && name[k] == '.';
            assert('a' <= name[k] <= 'z' || 'A' <= name[k] <= 'Z' || '0' <= name[k] <= '9'
                || name[k] == '-' || name[k] == '_');
        }
    }
    let empty = Seq::<char>::empty();
    text::lemma_pieces_extend(empty, name, '.');
    assert(text::split_at_char(empty, '.') =~= seq![empty]);
    assert(empty + name =~= name);
    assert(text::split_at_char(name, '.') =~= seq![name]);
    let stem = text::uppered(name);
    assert(stem.len() > 4);
    lemma_long(stem);
    assert forall|i: int| 0 <= i < name.len() implies !winpath::rejected_char(
        #[trigger] name[i],
    ) by {}
    assert(winpath::legal_on_windows(name));
    reveal_strlit("#bk#");
    if text::has_prefix(name, "#bk#"@) {
        assert(name.take(4)[0] == '#');
        assert(name[0] == '#');
        assert('a' <= name[0] <= 'z' || 'A' <= name[0] <= 'Z' || '0' <= name[0] <= '9' || name[0]
            == '-' || name[0] == '_');
    }
}

proof fn lemma_long(stem: Seq<char>)
    requires
        stem.len() > 4,
    ensures
        !winpath::reserved_device(stem),
{
    reveal_strlit("CON");
    reveal_strlit("PRN");
    reveal_strlit("AUX");
    reveal_strlit("NUL");
    reveal_strlit("COM1");
    reveal_strlit("COM2");
    reveal_strlit("COM3");
    reveal_strlit("COM4");
    reveal_strlit("COM5");
    reveal_strlit("COM6");
    reveal_strlit("COM7");
    reveal_strlit("COM8");
    reveal_strlit("COM9");
    reveal_strlit("LPT1");
    reveal_strlit("LPT2");
    reveal_strlit("LPT3");
    reveal_strlit("LPT4");
    reveal_strlit("LPT5");
    reveal_strlit("LPT6");
    reveal_strlit("LPT7");
    reveal_strlit("LPT8");
    reveal_strlit("LPT9");
}

/// An instruction is shown by its keyword and, where it is one text, that text with its
/// variables replaced.
pub proof fn instructions_are_shown_with_their_texts(
    inst: Instruction,
    vars: Map<Seq<char>, Seq<char>>,
)
    ensures
        keys::single_text(inst) matches Some(t) ==> stage::summary(inst, vars)
            == dockerfile::keyword_text(inst).push(' ') + expand::expanded(t, vars),
        inst matches Instruction::Run { command: Command::Shell(line), .. } ==> stage::summary(
            inst,
            vars,
        ) == dockerfile::keyword_text(inst).push(' ') + expand::expanded(line@, vars),
        keys::sort_of(inst) > 0 && !(inst is Shell) ==> dockerfile::keyword_text(inst).push(
            ' ',
        ).is_prefix_of(stage::summary(inst, vars)),
{
    reveal_strlit("RUN ");
    reveal_strlit("RUN");
    reveal_strlit("COPY --from=");
    reveal_strlit("COPY ");
    reveal_strlit("COPY");
    reveal_strlit("ADD ");
    reveal_strlit("ADD");
    reveal_strlit("WORKDIR ");
    reveal_strlit("WORKDIR");
    reveal_strlit("ENV ");
    reveal_strlit("ENV");
    reveal_strlit("ARG ");
    reveal_strlit("ARG");
    reveal_strlit("LABEL ");
    reveal_strlit("LABEL");
    reveal_strlit("ENTRYPOINT ");
    reveal_strlit("ENTRYPOINT");
    reveal_strlit("CMD ");
    reveal_strlit("CMD");
    reveal_strlit("USER ");
    reveal_strlit("USER");
    reveal_strlit("EXPOSE ");
    reveal_strlit("EXPOSE");
    reveal_strlit("VOLUME ");
    reveal_strlit("VOLUME");
    let word = dockerfile::keyword_text(inst).push(' ');
    let all = stage::summary(inst, vars);
    if keys::sort_of(inst) > 0 && !(inst is Shell) {
        assert(all.len() >= word.len());
        assert(word =~= all.subrange(0, word.len() as int));
    }
    match inst {
        Instruction::Workdir { .. } => {
            assert("WORKDIR "@ =~= word);
        },
        Instruction::User { .. } => {
            assert("USER "@ =~= word);
        },
        Instruction::Cmd { .. } => {
            assert("CMD "@ =~= word);
        },
        Instruction::Entrypoint { .. } => {
            assert("ENTRYPOINT "@ =~= word);
        },
        Instruction::Run { .. } => {
            assert("RUN "@ =~= word);
        },
        _ => {},
    }
}

/// A step is shown with its stage, its number, the number of steps and what it is.
pub proof fn steps_are_shown_with_their_number(
    label: Seq<char>,
    step: nat,
    total: nat,
    what: Seq<char>,
)
    ensures
        executor::step_name(label, step, total, what) == seq!['['] + label + seq![' ']
            + text::decimal(step) + seq!['/'] + text::decimal(total) + seq![']', ' '] + what,
        materialize::extracting(step, total) == "Extracting ("@ + text::decimal(step + 1)
            + seq!['/'] + text::decimal(total) + seq![')'],
{
    reveal_strlit("[");
    reveal_strlit(" ");
    reveal_strlit("/");
    reveal_strlit("] ");
    reveal_strlit(")");
    assert("["@ =~= seq!['[']);
    assert(" "@ =~= seq![' ']);
    assert("/"@ =~= seq!['/']);
    assert("] "@ =~= seq![']', ' ']);
    assert(")"@ =~= seq![')']);
}

/// A declared argument is shown with its default, variables replaced, or by its name.
pub proof fn arguments_are_shown_with_their_default(
    decls: Seq<ArgDecl>,
    vars: Map<Seq<char>, Seq<char>>,
    i: int,
)
    requires
        0 <= i < decls.len(),
    ensures
        stage::arg_texts(decls, vars).len() == decls.len(),
        decls[i].default matches Some(d) ==> stage::arg_texts(decls, vars)[i]
            == decls[i].name@.push('=') + expand::expanded(d@, vars),
        decls[i].default is None ==> stage::arg_texts(decls, vars)[i] == decls[i].name@,
{
    reveal_strlit("=");
    assert("="@ =~= seq!['=']);
    assert(decls[i].name@ + seq!['='] =~= decls[i].name@.push('='));
}

} // verus!
