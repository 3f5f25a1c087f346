//! When two steps of a build are the same to the layer cache.

use vstd::prelude::*;
use vstd::utf8::*;

use crate::backend::NetworkMode;
use crate::cache;
use crate::digest;
use crate::dockerfile::{self, Command, Instruction, Pair};
use crate::expand;
use crate::hash;
use crate::laws::instructions;
use crate::meta::{self, MetaView};
use crate::order;
use crate::platform::PlatformView;
use crate::shown;
use crate::stage::{self, StateView};
use crate::text;
use crate::tree::{self, Entry, Node};
use crate::vars;
use crate::winpath::Host;

verus! {

/// What stands between the same two sequences is the same where the whole is.
proof fn lemma_between<A>(pre: Seq<A>, x: Seq<A>, y: Seq<A>, post: Seq<A>)
    requires
        pre + x + post == pre + y + post,
    ensures
        x == y,
{
    let a = pre + x + post;
    let b = pre + y + post;
    assert(a.len() == b.len());
    assert(x.len() == y.len());
    assert forall|i: int| 0 <= i < x.len() implies x[i] == y[i] by {
        assert(a[pre.len() + i] == x[i]);
        assert(b[pre.len() + i] == y[i]);
    }
    assert(x =~= y);
}

/// A part of a joined text stands between the same two texts, whatever it is.
proof fn lemma_joined_at(parts: Seq<Seq<char>>, k: int, sep: Seq<char>) -> (r: (
    Seq<char>,
    Seq<char>,
))
    requires
        0 <= k < parts.len(),
    ensures
        forall|x: Seq<char>|
            #[trigger] text::joined(parts.update(k, x), sep) == r.0 + x + r.1,
    decreases parts.len(),
{
    let none = Seq::<char>::empty();
    let n = parts.len() - 1;
    if n == 0 {
        assert forall|x: Seq<char>|
            #[trigger] text::joined(parts.update(k, x), sep) == none + x + none by {
            assert(none + x + none =~= x);
        }
        (none, none)
    } else if k == n {
        let pre = text::joined(parts.drop_last(), sep) + sep;
        assert forall|x: Seq<char>|
            #[trigger] text::joined(parts.update(k, x), sep) == pre + x + none by {
            assert(parts.update(k, x).drop_last() =~= parts.drop_last());
            assert(pre + x + none =~= pre + x);
        }
        (pre, none)
    } else {
        let (pre, post) = lemma_joined_at(parts.drop_last(), k, sep);
        let more = post + sep + parts.last();
        assert forall|x: Seq<char>|
            #[trigger] text::joined(parts.update(k, x), sep) == pre + x + more by {
            let all = parts.update(k, x);
            assert(all.drop_last() =~= parts.drop_last().update(k, x));
            assert(all.last() == parts.last());
            assert(text::joined(all, sep) == text::joined(all.drop_last(), sep) + sep + all.last());
            assert(text::joined(parts.drop_last().update(k, x), sep) == pre + x + post);
            assert(pre + x + post + sep + parts.last() =~= pre + x + more);
        }
        (pre, more)
    }
}

/// Two joined texts with as many parts that differ in one part at most differ in that
/// one.
proof fn lemma_joined_differs(a: Seq<Seq<char>>, b: Seq<Seq<char>>, k: int, sep: Seq<char>)
    requires
        a.len() == b.len(),
        0 <= k < a.len(),
        forall|i: int| 0 <= i < a.len() && i != k ==> a[i] == b[i],
        text::joined(a, sep) == text::joined(b, sep),
    ensures
        a[k] == b[k],
{
    let (pre, post) = lemma_joined_at(a, k, sep);
    assert(a.update(k, a[k]) =~= a);
    assert(a.update(k, b[k]) =~= b);
    assert(text::joined(a.update(k, a[k]), sep) == pre + a[k] + post);
    assert(text::joined(a.update(k, b[k]), sep) == pre + b[k] + post);
    lemma_between(pre, a[k], b[k], post);
}

/// Parts without the separator are told by the joined text.
proof fn lemma_joined_same(a: Seq<Seq<char>>, b: Seq<Seq<char>>, c: char, sep: Seq<char>)
    requires
        sep == seq![c],
        a.len() > 0,
        b.len() > 0,
        forall|i: int| 0 <= i < a.len() ==> !(#[trigger] a[i]).contains(c),
        forall|i: int| 0 <= i < b.len() ==> !(#[trigger] b[i]).contains(c),
        text::joined(a, sep) == text::joined(b, sep),
    ensures
        a == b,
{
    text::lemma_split_joined(a, c);
    text::lemma_split_joined(b, c);
}

// ---------------------------------------------------------------------------
// Keys of instructions
// ---------------------------------------------------------------------------

/// The instructions that do something, told apart by their keywords.
pub open spec fn sort_of(inst: Instruction) -> u8 {
    match inst {
        Instruction::Run { .. } => 1,
        Instruction::Copy { .. } => 2,
        Instruction::Add { .. } => 3,
        Instruction::Env { .. } => 4,
        Instruction::Label { .. } => 5,
        Instruction::Arg { .. } => 6,
        Instruction::Workdir { .. } => 7,
        Instruction::User { .. } => 8,
        Instruction::Entrypoint { .. } => 9,
        Instruction::Cmd { .. } => 10,
        Instruction::Expose { .. } => 11,
        Instruction::Volume { .. } => 12,
        Instruction::Shell { .. } => 13,
        _ => 0,
    }
}

/// A key begins with the keyword of its instruction.
proof fn lemma_first_letters(
    inst: Instruction,
    meta: MetaView,
    args: Map<Seq<char>, Seq<char>>,
    found: Seq<Node>,
    network: Seq<char>,
)
    requires
        sort_of(inst) > 0,
    ensures
        ({
            let key = cache::instruction_key(inst, meta, args, found, network);
            let word = match sort_of(inst) {
                1 => seq!['R', 'U', 'N'],
                2 => seq!['C', 'O', 'P'],
                3 => seq!['A', 'D', 'D'],
                4 => seq!['E', 'N', 'V'],
                5 => seq!['L', 'A', 'B'],
                6 => seq!['A', 'R', 'G'],
                7 => seq!['W', 'O', 'R'],
                8 => seq!['U', 'S', 'E'],
                9 => seq!['E', 'N', 'T'],
                10 => seq!['C', 'M', 'D'],
                11 => seq!['E', 'X', 'P'],
                12 => seq!['V', 'O', 'L'],
                _ => seq!['S', 'H', 'E'],
            };
            &&& key.len() >= 3
            &&& key[0] == word[0] && key[1] == word[1] && key[2] == word[2]
        }),
{
    reveal_strlit("RUN|");
    reveal_strlit("COPY|--from=");
    reveal_strlit("ADD|");
    reveal_strlit("ENV|");
    reveal_strlit("LABEL|");
    reveal_strlit("ARG|");
    reveal_strlit("WORKDIR|");
    reveal_strlit("USER|");
    reveal_strlit("ENTRYPOINT|");
    reveal_strlit("CMD|");
    reveal_strlit("EXPOSE|");
    reveal_strlit("VOLUME|");
    reveal_strlit("SHELL|");
}

/// Instructions of different sorts have different keys.
pub proof fn keys_tell_instructions_apart(
    a: Instruction,
    b: Instruction,
    meta: MetaView,
    args: Map<Seq<char>, Seq<char>>,
    found: Seq<Node>,
    other: Seq<Node>,
    network: Seq<char>,
)
    requires
        sort_of(a) > 0,
        sort_of(b) > 0,
        cache::instruction_key(a, meta, args, found, network) == cache::instruction_key(
            b,
            meta,
            args,
            other,
            network,
        ),
    ensures
        sort_of(a) == sort_of(b),
{
    lemma_first_letters(a, meta, args, found, network);
    lemma_first_letters(b, meta, args, other, network);
}

/// The text that an instruction of one text has.
pub open spec fn single_text(inst: Instruction) -> Option<Seq<char>> {
    match inst {
        Instruction::Workdir { path } => Some(path@),
        Instruction::User { spec } => Some(spec@),
        Instruction::Cmd { command: Command::Shell(line) } => Some(line@),
        Instruction::Entrypoint { command: Command::Shell(line) } => Some(line@),
        _ => None,
    }
}

/// `WORKDIR`, `USER`, and `CMD` and `ENTRYPOINT` in shell form: two of one sort have the
/// same key exactly where their texts are the same once variables are replaced. So a
/// layer is reused only for an instruction that does the same.
pub proof fn single_texts_are_told_by_the_key(
    host: Host,
    state: StateView,
    a: Instruction,
    b: Instruction,
    globals: Map<Seq<char>, Seq<char>>,
    found: Seq<Node>,
    network: Seq<char>,
    mode: NetworkMode,
)
    requires
        single_text(a) is Some,
        single_text(b) is Some,
        sort_of(a) == sort_of(b),
    ensures
        ({
            let args = vars::map_of(state.args);
            let same = cache::instruction_key(a, state.meta, args, found, network)
                == cache::instruction_key(b, state.meta, args, found, network);
            &&& same <==> expand::expanded(single_text(a)->0, state.vars()) == expand::expanded(
                single_text(b)->0,
                state.vars(),
            )
            &&& same ==> stage::applied(state, a, globals) == stage::applied(state, b, globals)
            &&& same ==> stage::work_of(host, stage::applied(state, a, globals), a, mode)
                == stage::work_of(host, stage::applied(state, b, globals), b, mode)
        }),
{
    let x = expand::expanded(single_text(a)->0, state.vars());
    let y = expand::expanded(single_text(b)->0, state.vars());
    let none = Seq::<char>::empty();
    let args = vars::map_of(state.args);
    let ka = cache::instruction_key(a, state.meta, args, found, network);
    let kb = cache::instruction_key(b, state.meta, args, found, network);
    let pre = match sort_of(a) {
        7 => "WORKDIR|"@,
        8 => "USER|"@,
        9 => "ENTRYPOINT|"@,
        _ => "CMD|"@,
    };
    assert(ka =~= pre + x + none);
    assert(kb =~= pre + y + none);
    if ka == kb {
        lemma_between(pre, x, y, none);
    }
}

/// The elements of an instruction that is a list of texts, in the order in which its
/// key has them: each with its variables replaced.
pub open spec fn listed_texts(
    inst: Instruction,
    vars: Map<Seq<char>, Seq<char>>,
) -> Option<Seq<Seq<char>>> {
    match inst {
        Instruction::Expose { ports } => Some(
            Seq::new(ports@.len(), |i: int| expand::expanded(ports@[i]@, vars)),
        ),
        Instruction::Volume { paths } => Some(
            Seq::new(paths@.len(), |i: int| expand::expanded(paths@[i]@, vars)),
        ),
        Instruction::Env { pairs } => Some(
            Seq::new(
                pairs@.len(),
                |i: int| pairs@[i].key@.push('=') + expand::expanded(pairs@[i].value@, vars),
            ),
        ),
        Instruction::Label { pairs } => Some(
            Seq::new(
                pairs@.len(),
                |i: int| pairs@[i].key@.push('=') + expand::expanded(pairs@[i].value@, vars),
            ),
        ),
        _ => None,
    }
}

proof fn lemma_listed_key(
    inst: Instruction,
    meta: MetaView,
    args: Map<Seq<char>, Seq<char>>,
    found: Seq<Node>,
    network: Seq<char>,
)
    requires
        listed_texts(inst, meta::with_env(args, meta.env)) is Some,
    ensures
        ({
            let texts = listed_texts(inst, meta::with_env(args, meta.env))->0;
            let pre = match sort_of(inst) {
                4 => "ENV|"@,
                5 => "LABEL|"@,
                11 => "EXPOSE|"@,
                _ => "VOLUME|"@,
            };
            cache::instruction_key(inst, meta, args, found, network) == pre + text::joined(
                texts,
                seq![' '],
            ) + Seq::<char>::empty()
        }),
{
    reveal_strlit(" ");
    reveal_strlit("=");
    assert(" "@ =~= seq![' ']);
    let vars = meta::with_env(args, meta.env);
    let texts = listed_texts(inst, vars)->0;
    match inst {
        Instruction::Expose { ports } => {
            assert(expand::expanded_all(ports.deep_view(), vars) =~= texts);
        },
        Instruction::Volume { paths } => {
            assert(expand::expanded_all(paths.deep_view(), vars) =~= texts);
        },
        Instruction::Env { pairs } => {
            assert(cache::pair_texts(pairs@, vars) =~= texts) by {
                assert forall|i: int| 0 <= i < pairs@.len() implies cache::pair_texts(
                    pairs@,
                    vars,
                )[i] == texts[i] by {
                    assert(pairs@[i].key@ + "="@ =~= pairs@[i].key@.push('='));
                }
            }
        },
        Instruction::Label { pairs } => {
            assert(cache::pair_texts(pairs@, vars) =~= texts) by {
                assert forall|i: int| 0 <= i < pairs@.len() implies cache::pair_texts(
                    pairs@,
                    vars,
                )[i] == texts[i] by {
                    assert(pairs@[i].key@ + "="@ =~= pairs@[i].key@.push('='));
                }
            }
        },
        _ => {},
    }
    let pre = match sort_of(inst) {
        4 => "ENV|"@,
        5 => "LABEL|"@,
        11 => "EXPOSE|"@,
        _ => "VOLUME|"@,
    };
    assert(pre + text::joined(texts, seq![' ']) + Seq::<char>::empty() =~= pre + text::joined(
        texts,
        seq![' '],
    ));
}

/// `ENV`, `LABEL`, `EXPOSE` and `VOLUME`: two of one sort whose elements are without
/// blanks have the same key only where they have the same elements once variables are
/// replaced; and two with as many elements, of which all but one agree, only where that
/// one agrees too.
pub proof fn lists_are_told_by_the_key(
    a: Instruction,
    b: Instruction,
    meta: MetaView,
    args: Map<Seq<char>, Seq<char>>,
    found: Seq<Node>,
    network: Seq<char>,
    k: int,
)
    requires
        sort_of(a) == sort_of(b),
        listed_texts(a, meta::with_env(args, meta.env)) matches Some(x) && x.len() > 0,
        listed_texts(b, meta::with_env(args, meta.env)) matches Some(y) && y.len() > 0,
        cache::instruction_key(a, meta, args, found, network) == cache::instruction_key(
            b,
            meta,
            args,
            found,
            network,
        ),
    ensures
        ({
            let x = listed_texts(a, meta::with_env(args, meta.env))->0;
            let y = listed_texts(b, meta::with_env(args, meta.env))->0;
            &&& (forall|i: int| 0 <= i < x.len() ==> !(#[trigger] x[i]).contains(' ')) && (forall|
                i: int,
            |
                0 <= i < y.len() ==> !(#[trigger] y[i]).contains(' ')) ==> x == y
            &&& x.len() == y.len() && 0 <= k < x.len() && (forall|i: int|
                0 <= i < x.len() && i != k ==> x[i] == y[i]) ==> x == y
        }),
{
    let x = listed_texts(a, meta::with_env(args, meta.env))->0;
    let y = listed_texts(b, meta::with_env(args, meta.env))->0;
    lemma_listed_key(a, meta, args, found, network);
    lemma_listed_key(b, meta, args, found, network);
    let pre = match sort_of(a) {
        4 => "ENV|"@,
        5 => "LABEL|"@,
        11 => "EXPOSE|"@,
        _ => "VOLUME|"@,
    };
    lemma_between(
        pre,
        text::joined(x, seq![' ']),
        text::joined(y, seq![' ']),
        Seq::<char>::empty(),
    );
    if (forall|i: int| 0 <= i < x.len() ==> !(#[trigger] x[i]).contains(' ')) && (forall|i: int|
        0 <= i < y.len() ==> !(#[trigger] y[i]).contains(' ')) {
        lemma_joined_same(x, y, ' ', seq![' ']);
    }
    if x.len() == y.len() && 0 <= k < x.len() && (forall|i: int|
        0 <= i < x.len() && i != k ==> x[i] == y[i]) {
        lemma_joined_differs(x, y, k, seq![' ']);
        assert(x =~= y);
    }
}

/// The pairs of an `ENV` or `LABEL`.
pub open spec fn pairs_of(inst: Instruction) -> Option<Seq<Pair>> {
    match inst {
        Instruction::Env { pairs } => Some(pairs@),
        Instruction::Label { pairs } => Some(pairs@),
        _ => None,
    }
}

/// A pair's text tells the name and the value, where the name is without `=`.
proof fn lemma_pair_text(a: Seq<char>, x: Seq<char>, b: Seq<char>, y: Seq<char>)
    requires
        !a.contains('='),
        !b.contains('='),
        a.push('=') + x == b.push('=') + y,
    ensures
        a == b,
        x == y,
{
    let s = a.push('=') + x;
    let t = b.push('=') + y;
    assert(s =~= a + seq!['='] + x);
    assert(t =~= b + seq!['='] + y);
    text::lemma_split_at_first(a, '=', x);
    text::lemma_split_at_first(b, '=', y);
    assert(text::split_at_char(s, '=')[0] == a);
    assert(text::split_at_char(t, '=')[0] == b);
    assert(x =~= s.skip(a.len() as int + 1));
    assert(y =~= t.skip(b.len() as int + 1));
}

/// Labels depend on the names and on the values with their variables replaced.
proof fn lemma_labels_alike(
    labels: Seq<(Seq<char>, Seq<char>)>,
    a: Seq<Pair>,
    b: Seq<Pair>,
    vars: Map<Seq<char>, Seq<char>>,
)
    requires
        a.len() == b.len(),
        forall|i: int|
            0 <= i < a.len() ==> (#[trigger] a[i]).key@ == b[i].key@ && expand::expanded(
                a[i].value@,
                vars,
            ) == expand::expanded(b[i].value@, vars),
    ensures
        stage::with_labels(labels, a, vars) == stage::with_labels(labels, b, vars),
    decreases a.len(),
{
    if a.len() > 0 {
        let p = a.drop_last();
        let q = b.drop_last();
        assert forall|i: int| 0 <= i < p.len() implies (#[trigger] p[i]).key@ == q[i].key@
            && expand::expanded(p[i].value@, vars) == expand::expanded(q[i].value@, vars) by {
            assert(p[i] == a[i]);
        }
        lemma_labels_alike(labels, p, q, vars);
        assert(a[a.len() - 1].key@ == b[b.len() - 1].key@);
    }
}

/// An environment depends on the names and on the values, where those are without
/// variables.
proof fn lemma_env_alike(state: StateView, a: Seq<Pair>, b: Seq<Pair>)
    requires
        a.len() == b.len(),
        forall|i: int|
            0 <= i < a.len() ==> (#[trigger] a[i]).key@ == b[i].key@ && a[i].value@ == b[i].value@,
    ensures
        stage::with_env_pairs(state, a) == stage::with_env_pairs(state, b),
    decreases a.len(),
{
    if a.len() > 0 {
        let p = a.drop_last();
        let q = b.drop_last();
        assert forall|i: int| 0 <= i < p.len() implies (#[trigger] p[i]).key@ == q[i].key@
            && p[i].value@ == q[i].value@ by {
            assert(p[i] == a[i]);
        }
        lemma_env_alike(state, p, q);
        assert(a[a.len() - 1].key@ == b[b.len() - 1].key@);
    }
}

/// Two of `ENV`, `LABEL`, `EXPOSE` and `VOLUME` of one sort that have the same key do
/// the same to the same state. Names are without `=`, elements without blanks, and the
/// values of an `ENV` without variables, which each sees those of the pairs before it.
pub proof fn equal_keys_have_equal_effects(
    state: StateView,
    a: Instruction,
    b: Instruction,
    globals: Map<Seq<char>, Seq<char>>,
    found: Seq<Node>,
    network: Seq<char>,
)
    requires
        sort_of(a) == sort_of(b),
        ({
            let vars = state.vars();
            &&& listed_texts(a, vars) is Some
            &&& listed_texts(a, vars)->0.len() > 0
            &&& listed_texts(b, vars)->0.len() > 0
            &&& forall|i: int|
                0 <= i < listed_texts(a, vars)->0.len() ==> !(#[trigger] listed_texts(
                    a,
                    vars,
                )->0[i]).contains(' ')
            &&& forall|i: int|
                0 <= i < listed_texts(b, vars)->0.len() ==> !(#[trigger] listed_texts(
                    b,
                    vars,
                )->0[i]).contains(' ')
        }),
        pairs_of(a) matches Some(pairs) ==> forall|i: int|
            0 <= i < pairs.len() ==> !(#[trigger] pairs[i]).key@.contains('=') && (a is Env
                ==> instructions::verbatim(pairs[i].value@)),
        pairs_of(b) matches Some(pairs) ==> forall|i: int|
            0 <= i < pairs.len() ==> !(#[trigger] pairs[i]).key@.contains('=') && (b is Env
                ==> instructions::verbatim(pairs[i].value@)),
        cache::instruction_key(a, state.meta, vars::map_of(state.args), found, network)
            == cache::instruction_key(
            b,
            state.meta,
            vars::map_of(state.args),
            found,
            network,
        ),
    ensures
        stage::applied(state, a, globals) == stage::applied(state, b, globals),
{
    let vars = state.vars();
    let x = listed_texts(a, vars)->0;
    let y = listed_texts(b, vars)->0;
    lists_are_told_by_the_key(
        a,
        b,
        state.meta,
        vars::map_of(state.args),
        found,
        network,
        0,
    );
    assert(x == y);
    match (a, b) {
        (Instruction::Expose { ports: p }, Instruction::Expose { ports: q }) => {
            assert(expand::expanded_all(p.deep_view(), vars) =~= x);
            assert(expand::expanded_all(q.deep_view(), vars) =~= y);
        },
        (Instruction::Volume { paths: p }, Instruction::Volume { paths: q }) => {
            assert(expand::expanded_all(p.deep_view(), vars) =~= x);
            assert(expand::expanded_all(q.deep_view(), vars) =~= y);
        },
        (Instruction::Label { pairs: p }, Instruction::Label { pairs: q }) => {
            assert forall|i: int| 0 <= i < p@.len() implies (#[trigger] p@[i]).key@ == q@[i].key@
                && expand::expanded(p@[i].value@, vars) == expand::expanded(
                q@[i].value@,
                vars,
            ) by {
                assert(x[i] == y[i]);
                assert(pairs_of(a)->0[i] == p@[i]);
                assert(pairs_of(b)->0[i] == q@[i]);
                assert(!p@[i].key@.contains('='));
                assert(!q@[i].key@.contains('='));
                lemma_pair_text(
                    p@[i].key@,
                    expand::expanded(p@[i].value@, vars),
                    q@[i].key@,
                    expand::expanded(q@[i].value@, vars),
                );
            }
            lemma_labels_alike(state.meta.labels, p@, q@, vars);
        },
        (Instruction::Env { pairs: p }, Instruction::Env { pairs: q }) => {
            assert forall|i: int| 0 <= i < p@.len() implies (#[trigger] p@[i]).key@ == q@[i].key@
                && p@[i].value@ == q@[i].value@ by {
                assert(x[i] == y[i]);
                assert(pairs_of(a)->0[i] == p@[i]);
                assert(pairs_of(b)->0[i] == q@[i]);
                assert(!p@[i].key@.contains('='));
                assert(!q@[i].key@.contains('='));
                expand::plain_text_is_kept(p@[i].value@, vars);
                expand::plain_text_is_kept(q@[i].value@, vars);
                lemma_pair_text(
                    p@[i].key@,
                    expand::expanded(p@[i].value@, vars),
                    q@[i].key@,
                    expand::expanded(q@[i].value@, vars),
                );
            }
            lemma_env_alike(state, p@, q@);
        },
        _ => {},
    }
}

/// An `ARG` of one name is told by its key: the name and the default with its variables
/// replaced, where the names are without a bar.
pub proof fn arguments_are_told_by_the_key(
    a: Instruction,
    b: Instruction,
    meta: MetaView,
    args: Map<Seq<char>, Seq<char>>,
    found: Seq<Node>,
    network: Seq<char>,
)
    requires
        a matches Instruction::Arg { decls } && decls@.len() == 1 && !decls@[0].name@.contains('|'),
        b matches Instruction::Arg { decls } && decls@.len() == 1 && !decls@[0].name@.contains('|'),
        cache::instruction_key(a, meta, args, found, network) == cache::instruction_key(
            b,
            meta,
            args,
            found,
            network,
        ),
    ensures
        ({
            let x = a->Arg_decls@[0];
            let y = b->Arg_decls@[0];
            let vars = meta::with_env(args, meta.env);
            &&& x.name@ == y.name@
            &&& (x.default matches Some(d) ==> y.default matches Some(e) ==> expand::expanded(
                d@,
                vars,
            ) == expand::expanded(e@, vars))
            &&& (x.default is None ==> (y.default matches Some(e) ==> expand::expanded(
                e@,
                vars,
            ).len() == 0))
        }),
{
    reveal_strlit("|");
    assert("|"@ =~= seq!['|']);
    let vars = meta::with_env(args, meta.env);
    let p = cache::arg_key_texts(a->Arg_decls@, vars);
    let q = cache::arg_key_texts(b->Arg_decls@, vars);
    let none = Seq::<char>::empty();
    assert("ARG|"@ + p[0] =~= "ARG|"@ + p[0] + none);
    assert("ARG|"@ + q[0] =~= "ARG|"@ + q[0] + none);
    lemma_between("ARG|"@, p[0], q[0], none);
    let x = a->Arg_decls@[0];
    let y = b->Arg_decls@[0];
    let dx = match x.default {
        Some(d) => expand::expanded(d@, vars),
        None => none,
    };
    let dy = match y.default {
        Some(d) => expand::expanded(d@, vars),
        None => none,
    };
    assert(p[0] == x.name@ + seq!['|'] + dx);
    assert(q[0] == y.name@ + seq!['|'] + dy);
    text::lemma_split_at_first(x.name@, '|', dx);
    text::lemma_split_at_first(y.name@, '|', dy);
    let sx = text::split_at_char(p[0], '|');
    let sy = text::split_at_char(q[0], '|');
    assert(sx[0] == x.name@);
    assert(sy[0] == y.name@);
    assert(dx =~= p[0].skip(x.name@.len() as int + 1));
    assert(dy =~= q[0].skip(y.name@.len() as int + 1));
}

/// The words of a command in exec form or of a `SHELL`, as its key has them.
pub open spec fn worded(
    inst: Instruction,
    vars: Map<Seq<char>, Seq<char>>,
) -> Option<Seq<Seq<char>>> {
    match inst {
        Instruction::Cmd { command: Command::Exec(words) } => Some(
            Seq::new(words@.len(), |i: int| expand::expanded(words@[i]@, vars)),
        ),
        Instruction::Entrypoint { command: Command::Exec(words) } => Some(
            Seq::new(words@.len(), |i: int| expand::expanded(words@[i]@, vars)),
        ),
        Instruction::Run { command: Command::Exec(words), .. } => Some(
            Seq::new(words@.len(), |i: int| expand::expanded(words@[i]@, vars)),
        ),
        Instruction::Shell { args } => Some(Seq::new(args@.len(), |i: int| args@[i]@)),
        _ => None,
    }
}

/// Two commands in exec form, or two `SHELL`s, with as many words of which all but one
/// agree have the same key only where that word is quoted in the same way.
pub proof fn words_are_told_by_the_key(
    a: Instruction,
    b: Instruction,
    meta: MetaView,
    args: Map<Seq<char>, Seq<char>>,
    found: Seq<Node>,
    network: Seq<char>,
    k: int,
)
    requires
        sort_of(a) == sort_of(b),
        ({
            let vars = meta::with_env(args, meta.env);
            &&& worded(a, vars) is Some
            &&& worded(b, vars) is Some
            &&& worded(a, vars)->0.len() == worded(b, vars)->0.len()
            &&& 0 <= k < worded(a, vars)->0.len()
            &&& forall|i: int|
                0 <= i < worded(a, vars)->0.len() && i != k ==> worded(a, vars)->0[i] == worded(
                    b,
                    vars,
                )->0[i]
        }),
        cache::instruction_key(a, meta, args, found, network) == cache::instruction_key(
            b,
            meta,
            args,
            found,
            network,
        ),
    ensures
        shown::quoted(worded(a, meta::with_env(args, meta.env))->0[k]) == shown::quoted(
            worded(b, meta::with_env(args, meta.env))->0[k],
        ),
{
    let vars = meta::with_env(args, meta.env);
    let x = worded(a, vars)->0;
    let y = worded(b, vars)->0;
    let qx = x.map_values(|s: Seq<char>| shown::quoted(s));
    let qy = y.map_values(|s: Seq<char>| shown::quoted(s));
    let pre = word_front(a);
    let post = word_back(a, meta, network);
    lemma_worded_key(a, meta, args, found, network);
    lemma_worded_key(b, meta, args, found, network);
    assert(word_front(b) == pre && word_back(b, meta, network) == post);
    lemma_between(pre, text::joined(qx, ", "@), text::joined(qy, ", "@), post);
    assert forall|i: int| 0 <= i < qx.len() && i != k implies qx[i] == qy[i] by {
        assert(x[i] == y[i]);
    }
    lemma_joined_differs(qx, qy, k, ", "@);
}

spec fn word_front(inst: Instruction) -> Seq<char> {
    match inst {
        Instruction::Run { .. } => "RUN|"@ + "["@,
        Instruction::Cmd { .. } => "CMD|"@ + "["@,
        Instruction::Entrypoint { .. } => "ENTRYPOINT|"@ + "["@,
        _ => "SHELL|"@ + "["@,
    }
}

spec fn word_back(inst: Instruction, meta: MetaView, network: Seq<char>) -> Seq<char> {
    match inst {
        Instruction::Run { .. } => "]"@ + ("|cwd="@ + meta.working_dir + "|user="@
            + cache::or_empty(meta.user) + "|env="@ + text::joined(order::sorted(meta.env), "\n"@)
            + "|net="@ + network),
        _ => "]"@,
    }
}

/// The quoted words stand between the keyword and the rest of the key.
proof fn lemma_worded_key(
    inst: Instruction,
    meta: MetaView,
    args: Map<Seq<char>, Seq<char>>,
    found: Seq<Node>,
    network: Seq<char>,
)
    requires
        worded(inst, meta::with_env(args, meta.env)) is Some,
    ensures
        cache::instruction_key(inst, meta, args, found, network) == word_front(inst)
            + text::joined(
            worded(inst, meta::with_env(args, meta.env))->0.map_values(
                |s: Seq<char>| shown::quoted(s),
            ),
            ", "@,
        ) + word_back(inst, meta, network),
{
    let vars = meta::with_env(args, meta.env);
    let x = worded(inst, vars)->0;
    let q = text::joined(x.map_values(|s: Seq<char>| shown::quoted(s)), ", "@);
    let key = cache::instruction_key(inst, meta, args, found, network);
    match inst {
        Instruction::Cmd { command: Command::Exec(words) } => {
            assert(expand::expanded_all(words.deep_view(), vars) =~= x);
            assert(key =~= "CMD|"@ + "["@ + q + "]"@);
        },
        Instruction::Entrypoint { command: Command::Exec(words) } => {
            assert(expand::expanded_all(words.deep_view(), vars) =~= x);
            assert(key =~= "ENTRYPOINT|"@ + "["@ + q + "]"@);
        },
        Instruction::Run { command: Command::Exec(words), .. } => {
            assert(expand::expanded_all(words.deep_view(), vars) =~= x);
            let rest = "|cwd="@ + meta.working_dir + "|user="@ + cache::or_empty(meta.user)
                + "|env="@ + text::joined(order::sorted(meta.env), "\n"@) + "|net="@ + network;
            assert(key =~= "RUN|"@ + ("["@ + q + "]"@) + rest);
            assert("RUN|"@ + ("["@ + q + "]"@) + rest =~= "RUN|"@ + "["@ + q + ("]"@ + rest));
        },
        Instruction::Shell { args: words } => {
            assert(words.deep_view() =~= x);
            assert(key =~= "SHELL|"@ + "["@ + q + "]"@);
        },
        _ => {},
    }
}

/// The key of a `RUN` tells its command, the working directory, the user, the
/// environment and the network: two keys that agree in all but one of these agree in
/// that one too, and a command in shell form is told by its text with variables
/// replaced. An environment whose entries are without line feeds is told up to
/// the order of its entries.
pub proof fn runs_are_told_by_the_key(
    a: Instruction,
    b: Instruction,
    m: MetaView,
    n: MetaView,
    args: Map<Seq<char>, Seq<char>>,
    found: Seq<Node>,
    net: Seq<char>,
    other: Seq<char>,
)
    requires
        a is Run,
        b is Run,
        cache::instruction_key(a, m, args, found, net) == cache::instruction_key(
            b,
            n,
            args,
            found,
            other,
        ),
    ensures
        ({
            let x = cache::command_text(a->Run_command, meta::with_env(args, m.env));
            let y = cache::command_text(b->Run_command, meta::with_env(args, n.env));
            &&& m == n && net == other ==> x == y
            &&& a->Run_command is Shell ==> x == expand::expanded(
                a->Run_command->Shell_0@,
                meta::with_env(args, m.env),
            )
            &&& b->Run_command is Shell ==> y == expand::expanded(
                b->Run_command->Shell_0@,
                meta::with_env(args, n.env),
            )
            &&& x == y && m == (MetaView { working_dir: m.working_dir, ..n }) && net == other
                ==> m.working_dir == n.working_dir
            &&& x == y && m == (MetaView { user: m.user, ..n }) && net == other && (
            m.user matches Some(u) && n.user matches Some(v)) ==> m.user == n.user
            &&& x == y && m == (MetaView { user: m.user, ..n }) && net == other && (
            m.user is None && n.user is Some && n.user->0.len() > 0) ==> false
            &&& x == y && m == n ==> net == other
            &&& x == y && m == (MetaView { env: m.env, ..n }) && net == other && m.env.len() > 0
                && n.env.len() > 0 && (forall|i: int|
                0 <= i < m.env.len() ==> !(#[trigger] m.env[i]).contains('\n')) && (forall|i: int|
                0 <= i < n.env.len() ==> !(#[trigger] n.env[i]).contains('\n'))
                ==> m.env.to_multiset() == n.env.to_multiset()
        }),
{
    let x = cache::command_text(a->Run_command, meta::with_env(args, m.env));
    let y = cache::command_text(b->Run_command, meta::with_env(args, n.env));
    let em = text::joined(order::sorted(m.env), "\n"@);
    let en = text::joined(order::sorted(n.env), "\n"@);
    let um = cache::or_empty(m.user);
    let un = cache::or_empty(n.user);
    assert(cache::instruction_key(a, m, args, found, net) == run_text(
        x,
        m.working_dir,
        um,
        em,
        net,
    ));
    assert(cache::instruction_key(b, n, args, found, other) == run_text(
        y,
        n.working_dir,
        un,
        en,
        other,
    ));
    if m == n && net == other {
        lemma_run_command(x, y, m.working_dir, um, em, net);
    }
    if x == y && m == (MetaView { working_dir: m.working_dir, ..n }) && net == other {
        lemma_run_directory(x, m.working_dir, n.working_dir, um, em, net);
    }
    if x == y && m == (MetaView { user: m.user, ..n }) && net == other {
        lemma_run_user(x, m.working_dir, um, un, em, net);
    }
    if x == y && m == n {
        lemma_run_network(x, m.working_dir, um, em, net, other);
    }
    if x == y && m == (MetaView { env: m.env, ..n }) && net == other && m.env.len() > 0
        && n.env.len() > 0 && (forall|i: int|
        0 <= i < m.env.len() ==> !(#[trigger] m.env[i]).contains('\n')) && (forall|i: int|
        0 <= i < n.env.len() ==> !(#[trigger] n.env[i]).contains('\n')) {
        lemma_run_env(x, m.working_dir, um, em, en, net);
        lemma_sorted_free(m.env, '\n');
        lemma_sorted_free(n.env, '\n');
        reveal_strlit("\n");
        assert("\n"@ =~= seq!['\n']);
        lemma_joined_same(order::sorted(m.env), order::sorted(n.env), '\n', "\n"@);
    }
}

/// The key of a `RUN` with these parts.
spec fn run_text(
    command: Seq<char>,
    dir: Seq<char>,
    user: Seq<char>,
    env: Seq<char>,
    net: Seq<char>,
) -> Seq<char> {
    "RUN|"@ + command + "|cwd="@ + dir + "|user="@ + user + "|env="@ + env + "|net="@ + net
}

proof fn lemma_run_command(
    x: Seq<char>,
    y: Seq<char>,
    dir: Seq<char>,
    user: Seq<char>,
    env: Seq<char>,
    net: Seq<char>,
)
    requires
        run_text(x, dir, user, env, net) == run_text(y, dir, user, env, net),
    ensures
        x == y,
{
    let post = "|cwd="@ + dir + "|user="@ + user + "|env="@ + env + "|net="@ + net;
    assert(run_text(x, dir, user, env, net) =~= "RUN|"@ + x + post);
    assert(run_text(y, dir, user, env, net) =~= "RUN|"@ + y + post);
    lemma_between("RUN|"@, x, y, post);
}

proof fn lemma_run_directory(
    command: Seq<char>,
    x: Seq<char>,
    y: Seq<char>,
    user: Seq<char>,
    env: Seq<char>,
    net: Seq<char>,
)
    requires
        run_text(command, x, user, env, net) == run_text(command, y, user, env, net),
    ensures
        x == y,
{
    let pre = "RUN|"@ + command + "|cwd="@;
    let post = "|user="@ + user + "|env="@ + env + "|net="@ + net;
    assert(run_text(command, x, user, env, net) =~= pre + x + post);
    assert(run_text(command, y, user, env, net) =~= pre + y + post);
    lemma_between(pre, x, y, post);
}

proof fn lemma_run_user(
    command: Seq<char>,
    dir: Seq<char>,
    x: Seq<char>,
    y: Seq<char>,
    env: Seq<char>,
    net: Seq<char>,
)
    requires
        run_text(command, dir, x, env, net) == run_text(command, dir, y, env, net),
    ensures
        x == y,
{
    let pre = "RUN|"@ + command + "|cwd="@ + dir + "|user="@;
    let post = "|env="@ + env + "|net="@ + net;
    assert(run_text(command, dir, x, env, net) =~= pre + x + post);
    assert(run_text(command, dir, y, env, net) =~= pre + y + post);
    lemma_between(pre, x, y, post);
}

proof fn lemma_run_env(
    command: Seq<char>,
    dir: Seq<char>,
    user: Seq<char>,
    x: Seq<char>,
    y: Seq<char>,
    net: Seq<char>,
)
    requires
        run_text(command, dir, user, x, net) == run_text(command, dir, user, y, net),
    ensures
        x == y,
{
    let pre = "RUN|"@ + command + "|cwd="@ + dir + "|user="@ + user + "|env="@;
    let post = "|net="@ + net;
    assert(run_text(command, dir, user, x, net) =~= pre + x + post);
    assert(run_text(command, dir, user, y, net) =~= pre + y + post);
    lemma_between(pre, x, y, post);
}

proof fn lemma_run_network(
    command: Seq<char>,
    dir: Seq<char>,
    user: Seq<char>,
    env: Seq<char>,
    x: Seq<char>,
    y: Seq<char>,
)
    requires
        run_text(command, dir, user, env, x) == run_text(command, dir, user, env, y),
    ensures
        x == y,
{
    let pre = "RUN|"@ + command + "|cwd="@ + dir + "|user="@ + user + "|env="@ + env + "|net="@;
    let none = Seq::<char>::empty();
    assert(run_text(command, dir, user, env, x) =~= pre + x + none);
    assert(run_text(command, dir, user, env, y) =~= pre + y + none);
    lemma_between(pre, x, y, none);
}

/// Sorting keeps the texts.
pub proof fn lemma_sorted_free(list: Seq<Seq<char>>, c: char)
    requires
        forall|i: int| 0 <= i < list.len() ==> !(#[trigger] list[i]).contains(c),
    ensures
        order::sorted(list).to_multiset() == list.to_multiset(),
        order::sorted(list).len() == list.len(),
        forall|i: int|
            0 <= i < order::sorted(list).len() ==> !(#[trigger] order::sorted(list)[i]).contains(c),
{
    let le = |a: Seq<char>, b: Seq<char>| order::at_most(a, b);
    order::lemma_at_most_total();
    list.lemma_sort_by_ensures(le);
    let s = order::sorted(list);
    s.to_multiset_ensures();
    list.to_multiset_ensures();
    assert(s.len() == list.len());
    assert forall|i: int| 0 <= i < s.len() implies !(#[trigger] s[i]).contains(c) by {
        assert(s.contains(s[i]));
        if !list.contains(s[i]) {
            assert(!s.contains(s[i]));
        }
        let j = choose|j: int| 0 <= j < list.len() && list[j] == s[i];
        assert(!list[j].contains(c));
    }
}

/// The key of a `COPY` or `ADD` tells its destination and what stands at its sources:
/// where all else is the same, keys that agree have the same destination once variables
/// are replaced; and where one source has other contents, with another hash, the key is
/// another one.
pub proof fn copies_are_told_by_the_key(
    a: Instruction,
    b: Instruction,
    meta: MetaView,
    args: Map<Seq<char>, Seq<char>>,
    found: Seq<Node>,
    other: Seq<Node>,
    network: Seq<char>,
    k: int,
)
    requires
        match (a, b) {
            (
                Instruction::Copy { sources: s, flags: f, .. },
                Instruction::Copy { sources: t, flags: g, .. },
            ) => s@ == t@ && f@ == g@ && found.len() == s@.len() && other.len() == s@.len(),
            (Instruction::Add { sources: s, .. }, Instruction::Add { sources: t, .. }) => s@ == t@
                && found.len() == s@.len() && other.len() == s@.len(),
            _ => false,
        },
        cache::instruction_key(a, meta, args, found, network) == cache::instruction_key(
            b,
            meta,
            args,
            other,
            network,
        ),
    ensures
        ({
            let vars = meta::with_env(args, meta.env);
            let da = match a {
                Instruction::Copy { destination, .. } => destination@,
                Instruction::Add { destination, .. } => destination@,
                _ => Seq::empty(),
            };
            let db = match b {
                Instruction::Copy { destination, .. } => destination@,
                Instruction::Add { destination, .. } => destination@,
                _ => Seq::empty(),
            };
            &&& found == other ==> expand::expanded(da, vars) == expand::expanded(db, vars)
            &&& da == db && a is Copy && 0 <= k < found.len() && (forall|i: int|
                0 <= i < found.len() && i != k ==> found[i] == other[i]) ==> hash::content_hash(
                found[k],
            ) == hash::content_hash(other[k])
            &&& da == db && (a matches Instruction::Add { sources, .. } && 0 <= k < sources@.len()
                && !cache::remote_url(expand::expanded(sources@[k]@, vars))) && (forall|i: int|
                0 <= i < found.len() && i != k ==> found[i] == other[i]) ==> hash::content_hash(
                found[k],
            ) == hash::content_hash(other[k])
        }),
{
    let vars = meta::with_env(args, meta.env);
    let da = match a {
        Instruction::Copy { destination, .. } => destination@,
        Instruction::Add { destination, .. } => destination@,
        _ => Seq::empty(),
    };
    let db = match b {
        Instruction::Copy { destination, .. } => destination@,
        Instruction::Add { destination, .. } => destination@,
        _ => Seq::empty(),
    };
    let srcs = match a {
        Instruction::Copy { sources, .. } => expand::expanded_all(sources.deep_view(), vars),
        Instruction::Add { sources, .. } => expand::expanded_all(sources.deep_view(), vars),
        _ => Seq::empty(),
    };
    let tsrcs = match b {
        Instruction::Copy { sources, .. } => expand::expanded_all(sources.deep_view(), vars),
        Instruction::Add { sources, .. } => expand::expanded_all(sources.deep_view(), vars),
        _ => Seq::empty(),
    };
    assert(srcs =~= tsrcs);
    let fetches = a is Add;
    let head = match a {
        Instruction::Copy { flags, .. } => "COPY|--from="@ + cache::or_empty(
            dockerfile::flag_value(flags@, "from"@),
        ) + "|"@,
        _ => "ADD|"@,
    };
    let x = cache::source_parts(srcs, fetches, found);
    let y = cache::source_parts(srcs, fetches, other);
    let ex = expand::expanded(da, vars);
    let ey = expand::expanded(db, vars);
    let ka = cache::instruction_key(a, meta, args, found, network);
    let kb = cache::instruction_key(b, meta, args, other, network);
    let none = Seq::<char>::empty();
    assert(ka =~= head + text::joined(x, ","@) + "|"@ + ex);
    assert(kb =~= head + text::joined(y, ","@) + "|"@ + ey);
    if found == other {
        let pre = head + text::joined(x, ","@) + "|"@;
        assert(ka =~= pre + ex + none);
        assert(kb =~= pre + ey + none);
        lemma_between(pre, ex, ey, none);
    }
    if da == db && 0 <= k < srcs.len() && found.len() == srcs.len() && !(fetches
        && cache::remote_url(srcs[k])) && (forall|i: int|
        0 <= i < found.len() && i != k ==> found[i] == other[i]) {
        let post = "|"@ + ex;
        assert(ka =~= head + text::joined(x, ","@) + post);
        assert(kb =~= head + text::joined(y, ","@) + post);
        lemma_between(head, text::joined(x, ","@), text::joined(y, ","@), post);
        assert forall|i: int| 0 <= i < x.len() && i != k implies x[i] == y[i] by {
            assert(found[i] == other[i]);
        }
        lemma_joined_differs(x, y, k, ","@);
        let pre = srcs[k] + "#"@;
        assert(x[k] =~= pre + hash::content_hash(found[k]) + none);
        assert(y[k] =~= pre + hash::content_hash(other[k]) + none);
        lemma_between(pre, hash::content_hash(found[k]), hash::content_hash(other[k]), none);
    }
    match a {
        Instruction::Add { sources, .. } => {
            if 0 <= k < sources@.len() {
                assert(srcs[k] == expand::expanded(sources@[k]@, vars));
            }
        },
        _ => {},
    }
}

/// The sources of a `COPY` or `ADD` enter its key by their names too: where all else is
/// the same, two that take one source from different places have different keys, and so
/// have two that fetch it from different addresses.
pub proof fn source_names_are_told_by_the_key(
    a: Instruction,
    b: Instruction,
    meta: MetaView,
    args: Map<Seq<char>, Seq<char>>,
    found: Seq<Node>,
    network: Seq<char>,
    k: int,
)
    requires
        ({
            let vars = meta::with_env(args, meta.env);
            match (a, b) {
                (
                    Instruction::Copy { sources: s, destination: d, flags: f, .. },
                    Instruction::Copy { sources: t, destination: e, flags: g, .. },
                ) => {
                    &&& d@ == e@ && f@ == g@ && s@.len() == t@.len()
                    &&& 0 <= k < s@.len()
                    &&& forall|i: int| 0 <= i < s@.len() && i != k ==> (#[trigger] s@[i])@ == t@[i]@
                },
                (
                    Instruction::Add { sources: s, destination: d, .. },
                    Instruction::Add { sources: t, destination: e, .. },
                ) => {
                    &&& d@ == e@ && s@.len() == t@.len()
                    &&& 0 <= k < s@.len()
                    &&& forall|i: int| 0 <= i < s@.len() && i != k ==> (#[trigger] s@[i])@ == t@[i]@
                    &&& cache::remote_url(expand::expanded(s@[k]@, vars)) == cache::remote_url(
                        expand::expanded(t@[k]@, vars),
                    )
                },
                _ => false,
            }
        }),
        cache::instruction_key(a, meta, args, found, network) == cache::instruction_key(
            b,
            meta,
            args,
            found,
            network,
        ),
    ensures
        ({
            let vars = meta::with_env(args, meta.env);
            match (a, b) {
                (
                    Instruction::Copy { sources: s, .. },
                    Instruction::Copy { sources: t, .. },
                ) => expand::expanded(s@[k]@, vars) == expand::expanded(t@[k]@, vars),
                (
                    Instruction::Add { sources: s, .. },
                    Instruction::Add { sources: t, .. },
                ) => expand::expanded(s@[k]@, vars) == expand::expanded(t@[k]@, vars),
                _ => true,
            }
        }),
{
    let vars = meta::with_env(args, meta.env);
    let none = Seq::<char>::empty();
    let fetches = a is Add;
    let (s, t, dest) = match (a, b) {
        (
            Instruction::Copy { sources: s, destination: d, .. },
            Instruction::Copy { sources: t, .. },
        ) => (s, t, d@),
        (
            Instruction::Add { sources: s, destination: d, .. },
            Instruction::Add { sources: t, .. },
        ) => (s, t, d@),
        _ => (a->Copy_sources, b->Copy_sources, a->Copy_destination@),
    };
    let u = expand::expanded_all(s.deep_view(), vars);
    let v = expand::expanded_all(t.deep_view(), vars);
    let x = cache::source_parts(u, fetches, found);
    let y = cache::source_parts(v, fetches, found);
    let head = match a {
        Instruction::Copy { flags, .. } => "COPY|--from="@ + cache::or_empty(
            dockerfile::flag_value(flags@, "from"@),
        ) + "|"@,
        _ => "ADD|"@,
    };
    let post = "|"@ + expand::expanded(dest, vars);
    assert(cache::instruction_key(a, meta, args, found, network) =~= head + text::joined(x, ","@)
        + post);
    assert(cache::instruction_key(b, meta, args, found, network) =~= head + text::joined(y, ","@)
        + post);
    lemma_between(head, text::joined(x, ","@), text::joined(y, ","@), post);
    assert forall|i: int| 0 <= i < x.len() && i != k implies x[i] == y[i] by {
        assert(s@[i]@ == t@[i]@);
        assert(u[i] == v[i]);
    }
    lemma_joined_differs(x, y, k, ","@);
    assert(u[k] == expand::expanded(s@[k]@, vars));
    assert(v[k] == expand::expanded(t@[k]@, vars));
    if fetches && cache::remote_url(u[k]) {
        let mark = "#"@ + "url:"@;
        assert(x[k] =~= u[k] + mark + u[k]);
        assert(y[k] =~= v[k] + mark + v[k]);
        assert(u[k].len() == v[k].len());
        assert(u[k] =~= x[k].take(u[k].len() as int));
        assert(v[k] =~= y[k].take(v[k].len() as int));
    } else {
        let tail = "#"@ + hash::content_hash(found[k]);
        assert(x[k] =~= none + u[k] + tail);
        assert(y[k] =~= none + v[k] + tail);
        lemma_between(none, u[k], v[k], tail);
    }
}

/// The stage that a `COPY` takes its sources from enters its key.
pub proof fn stages_are_told_by_the_key(
    a: Instruction,
    b: Instruction,
    meta: MetaView,
    args: Map<Seq<char>, Seq<char>>,
    found: Seq<Node>,
    network: Seq<char>,
)
    requires
        match (a, b) {
            (
                Instruction::Copy { sources: s, destination: d, .. },
                Instruction::Copy { sources: t, destination: e, .. },
            ) => s@ == t@ && d@ == e@ && found.len() == s@.len(),
            _ => false,
        },
        dockerfile::flag_value(a->Copy_flags@, "from"@) is Some,
        dockerfile::flag_value(b->Copy_flags@, "from"@) is Some,
        cache::instruction_key(a, meta, args, found, network) == cache::instruction_key(
            b,
            meta,
            args,
            found,
            network,
        ),
    ensures
        dockerfile::flag_value(a->Copy_flags@, "from"@) == dockerfile::flag_value(
            b->Copy_flags@,
            "from"@,
        ),
{
    let vars = meta::with_env(args, meta.env);
    let x = dockerfile::flag_value(a->Copy_flags@, "from"@)->0;
    let y = dockerfile::flag_value(b->Copy_flags@, "from"@)->0;
    let srcs = expand::expanded_all(a->Copy_sources.deep_view(), vars);
    assert(srcs =~= expand::expanded_all(b->Copy_sources.deep_view(), vars));
    let post = "|"@ + text::joined(cache::source_parts(srcs, false, found), ","@) + "|"@
        + expand::expanded(a->Copy_destination@, vars);
    assert(cache::instruction_key(a, meta, args, found, network) =~= "COPY|--from="@ + x + post);
    assert(cache::instruction_key(b, meta, args, found, network) =~= "COPY|--from="@ + y + post);
    lemma_between("COPY|--from="@, x, y, post);
}

/// The key of a `FROM` tells the base, its digest and the platform: two keys that agree
/// in all but one of these agree in that one too.
pub proof fn bases_are_told_by_the_key(
    base: Seq<char>,
    other: Seq<char>,
    p: PlatformView,
    q: PlatformView,
    d: Seq<char>,
    e: Seq<char>,
)
    requires
        cache::from_key(base, false, p, Some(d)) == cache::from_key(other, false, q, Some(e)),
    ensures
        p == q && d == e ==> base == other,
        base == other && p == q ==> d == e,
        base == other && d == e && p.os == q.os ==> p.architecture == q.architecture,
        base == other && d == e && p.architecture == q.architecture ==> p.os == q.os,
{
    let none = Seq::<char>::empty();
    let ka = cache::from_key(base, false, p, Some(d));
    let kb = cache::from_key(other, false, q, Some(e));
    if p == q && d == e {
        let post = "|digest="@ + d + ("|"@ + p.os + "|"@ + p.architecture);
        assert(ka =~= "FROM "@ + base + post);
        assert(kb =~= "FROM "@ + other + post);
        lemma_between("FROM "@, base, other, post);
    }
    if base == other && p == q {
        let pre = "FROM "@ + base + "|digest="@;
        let post = "|"@ + p.os + "|"@ + p.architecture;
        assert(ka =~= pre + d + post);
        assert(kb =~= pre + e + post);
        lemma_between(pre, d, e, post);
    }
    if base == other && d == e && p.os == q.os {
        let pre = "FROM "@ + base + "|digest="@ + d + "|"@ + p.os + "|"@;
        assert(ka =~= pre + p.architecture + none);
        assert(kb =~= pre + q.architecture + none);
        lemma_between(pre, p.architecture, q.architecture, none);
    }
    if base == other && d == e && p.architecture == q.architecture {
        let pre = "FROM "@ + base + "|digest="@ + d + "|"@;
        let post = "|"@ + p.architecture;
        assert(ka =~= pre + p.os + post);
        assert(kb =~= pre + q.os + post);
        lemma_between(pre, p.os, q.os, post);
    }
}

/// The key of the empty base tells the platform, and is that of no image.
pub proof fn empty_bases_are_told_by_the_key(
    base: Seq<char>,
    p: PlatformView,
    q: PlatformView,
    d: Option<Seq<char>>,
)
    ensures
        p.os == q.os && cache::from_key(base, true, p, d) == cache::from_key(base, true, q, d)
            ==> p.architecture == q.architecture,
        p.architecture == q.architecture && cache::from_key(base, true, p, d) == cache::from_key(
            base,
            true,
            q,
            d,
        ) ==> p.os == q.os,
        base.len() > 0 && base[0] != 's' ==> cache::from_key(base, true, p, d) != cache::from_key(
            base,
            false,
            q,
            d,
        ),
{
    reveal_strlit("FROM scratch");
    reveal_strlit("FROM ");
    let none = Seq::<char>::empty();
    let ka = cache::from_key(base, true, p, d);
    let kb = cache::from_key(base, true, q, d);
    if p.os == q.os && ka == kb {
        let pre = "FROM scratch"@ + "|"@ + p.os + "|"@;
        assert(ka =~= pre + p.architecture + none);
        assert(kb =~= pre + q.architecture + none);
        lemma_between(pre, p.architecture, q.architecture, none);
    }
    if p.architecture == q.architecture && ka == kb {
        let pre = "FROM scratch"@ + "|"@;
        let post = "|"@ + p.architecture;
        assert(ka =~= pre + p.os + post);
        assert(kb =~= pre + q.os + post);
        lemma_between(pre, p.os, q.os, post);
    }
    if base.len() > 0 && base[0] != 's' {
        assert(ka[5] == 's');
        assert(cache::from_key(base, false, q, d)[5] == base[0]);
    }
}

// ---------------------------------------------------------------------------
// Chain ids and content hashes
// ---------------------------------------------------------------------------

/// Two byte sequences with the same SHA-256 digest.
pub open spec fn collision() -> bool {
    exists|x: Seq<u8>, y: Seq<u8>|
        x != y && #[trigger] digest::sha256(x) == #[trigger] digest::sha256(y)
}

proof fn lemma_same_hash(x: Seq<u8>, y: Seq<u8>)
    requires
        digest::hex(digest::sha256(x)) == digest::hex(digest::sha256(y)),
    ensures
        x == y || collision(),
{
    digest::hex_is_injective(digest::sha256(x), digest::sha256(y));
}

/// A chain id stands for its parent and its key: two chain ids are the same only where
/// both are, unless two different texts have the same SHA-256 digest. Parents are
/// without line feeds, as chain ids are.
pub proof fn chain_ids_stand_for_parent_and_key(
    parent: Seq<char>,
    key: Seq<char>,
    other_parent: Seq<char>,
    other_key: Seq<char>,
)
    requires
        !parent.contains('\n'),
        !other_parent.contains('\n'),
        cache::chain(parent, key) == cache::chain(other_parent, other_key),
    ensures
        parent == other_parent && key == other_key || collision(),
{
    reveal_strlit("\n");
    assert("\n"@ =~= seq!['\n']);
    let a = parent + "\n"@ + key;
    let b = other_parent + "\n"@ + other_key;
    lemma_same_hash(encode_utf8(a), encode_utf8(b));
    if encode_utf8(a) == encode_utf8(b) {
        encode_utf8_decode_utf8(a);
        encode_utf8_decode_utf8(b);
        assert(a == b);
        text::lemma_split_at_first(parent, '\n', key);
        text::lemma_split_at_first(other_parent, '\n', other_key);
        assert(text::split_at_char(a, '\n')[0] == parent);
        assert(text::split_at_char(b, '\n')[0] == other_parent);
        assert(key =~= a.skip(parent.len() as int + 1));
        assert(other_key =~= b.skip(other_parent.len() as int + 1));
    }
}

/// A content hash stands for the contents: two files have the same only where they hold
/// the same, unless two different contents have the same SHA-256 digest.
pub proof fn content_hashes_stand_for_files(a: Node, b: Node)
    requires
        a is File,
        b is File,
        hash::content_hash(a) == hash::content_hash(b),
    ensures
        a->File_data@ == b->File_data@ || collision(),
{
    lemma_same_hash(hash::content_bytes(a), hash::content_bytes(b));
}

/// What a node contributes to the bytes of its directory.
pub open spec fn contribution(n: Node, path: Seq<Seq<char>>) -> Seq<u8> {
    match n {
        Node::Dir { entries } => hash::dir_bytes(
            entries@,
            order::sorted(tree::names(entries@)),
            path,
        ),
        Node::File { data } => data@,
        _ => Seq::empty(),
    }
}

/// Where two directories differ in one node, their bytes differ in what it contributes.
proof fn lemma_dir_bytes(
    a: Seq<Entry>,
    b: Seq<Entry>,
    k: int,
    names: Seq<Seq<char>>,
    rel: Seq<Seq<char>>,
) -> (r: (Seq<u8>, Seq<u8>))
    requires
        tree::names(a).no_duplicates(),
        a.len() == b.len(),
        0 <= k < a.len(),
        forall|i: int| 0 <= i < a.len() ==> (#[trigger] a[i]).name@ == b[i].name@,
        forall|i: int| 0 <= i < a.len() && i != k ==> (#[trigger] a[i]).node == b[i].node,
        names.no_duplicates(),
    ensures
        names.contains(a[k].name@) ==> {
            let path = rel.push(a[k].name@);
            &&& hash::dir_bytes(a, names, rel) == r.0 + contribution(a[k].node, path) + r.1
            &&& hash::dir_bytes(b, names, rel) == r.0 + contribution(b[k].node, path) + r.1
        },
        !names.contains(a[k].name@) ==> hash::dir_bytes(a, names, rel) == hash::dir_bytes(
            b,
            names,
            rel,
        ),
    decreases names.len(),
{
    let none = Seq::<u8>::empty();
    if names.len() == 0 {
        (none, none)
    } else {
        let rest = names.drop_last();
        let name = names.last();
        let path = rel.push(name);
        let (pre, post) = lemma_dir_bytes(a, b, k, rest, rel);
        let head = encode_utf8(hash::hashed_path(path)) + seq![0u8];
        lemma_first_same(a, b, name);
        let i = tree::first_named(a, name);
        assert(names.contains(a[k].name@) == (rest.contains(a[k].name@) || name == a[k].name@)) by {
            if rest.contains(a[k].name@) {
                let j = choose|j: int| 0 <= j < rest.len() && rest[j] == a[k].name@;
                assert(names[j] == a[k].name@);
            }
            if names.contains(a[k].name@) {
                let j = choose|j: int| 0 <= j < names.len() && names[j] == a[k].name@;
                if j < rest.len() {
                    assert(rest[j] == a[k].name@);
                }
            }
            assert(names[names.len() - 1] == name);
        }
        if name == a[k].name@ {
            assert(!rest.contains(name)) by {
                if rest.contains(name) {
                    let j = choose|j: int| 0 <= j < rest.len() && rest[j] == name;
                    assert(names[j] == names[names.len() - 1]);
                }
            }
            assert(i == k) by {
                assert forall|j: int| 0 <= j < k implies (#[trigger] a[j]).name@ != name by {
                    assert(tree::names(a)[j] != tree::names(a)[k]);
                }
                tree::lemma_first_named(a, name, k);
            }
            let front = hash::dir_bytes(a, rest, rel) + head;
            assert(hash::dir_bytes(a, names, rel) =~= front + contribution(a[k].node, path) + none);
            assert(hash::dir_bytes(b, names, rel) =~= front + contribution(b[k].node, path) + none);
            (front, none)
        } else {
            lemma_first_has(a, name);
            let tail = if i < a.len() {
                contribution(a[i].node, path)
            } else {
                none
            };
            if i < a.len() {
                assert(i != k);
                assert(a[i].node == b[i].node);
            }
            let more = post + head + tail;
            assert(hash::dir_bytes(a, names, rel) =~= hash::dir_bytes(a, rest, rel) + head + tail);
            assert(hash::dir_bytes(b, names, rel) =~= hash::dir_bytes(b, rest, rel) + head + tail);
            if rest.contains(a[k].name@) {
                let x = contribution(a[k].node, rel.push(a[k].name@));
                let y = contribution(b[k].node, rel.push(a[k].name@));
                assert(pre + x + post + head + tail =~= pre + x + more);
                assert(pre + y + post + head + tail =~= pre + y + more);
            }
            (pre, more)
        }
    }
}

proof fn lemma_first_has(entries: Seq<Entry>, name: Seq<char>)
    ensures
        0 <= tree::first_named(entries, name) <= entries.len(),
        tree::first_named(entries, name) < entries.len() ==> entries[tree::first_named(
            entries,
            name,
        )].name@ == name,
    decreases entries.len(),
{
    if entries.len() > 0 && entries[0].name@ != name {
        lemma_first_has(entries.skip(1), name);
    }
}

proof fn lemma_first_same(a: Seq<Entry>, b: Seq<Entry>, name: Seq<char>)
    requires
        a.len() == b.len(),
        forall|i: int| 0 <= i < a.len() ==> (#[trigger] a[i]).name@ == b[i].name@,
    ensures
        tree::first_named(a, name) == tree::first_named(b, name),
    decreases a.len(),
{
    if a.len() > 0 {
        assert(a[0].name@ == b[0].name@);
        let x = a.skip(1);
        let y = b.skip(1);
        assert forall|i: int| 0 <= i < x.len() implies (#[trigger] x[i]).name@ == y[i].name@ by {
            assert(a[i + 1].name@ == b[i + 1].name@);
        }
        lemma_first_same(x, y, name);
    }
}

/// Whether two nodes are the same but for what the file at a path holds.
pub open spec fn differ_in_one_file(a: Node, b: Node, p: Seq<int>, x: Seq<u8>, y: Seq<u8>) -> bool
    decreases p.len(),
{
    if p.len() == 0 {
        a is File && b is File && a->File_data@ == x && b->File_data@ == y
    } else {
        &&& a is Dir
        &&& b is Dir
        &&& tree::names(a->Dir_entries@).no_duplicates()
        &&& a->Dir_entries@.len() == b->Dir_entries@.len()
        &&& 0 <= p[0] < a->Dir_entries@.len()
        &&& forall|i: int|
            0 <= i < a->Dir_entries@.len() ==> (#[trigger] a->Dir_entries@[i]).name@
                == b->Dir_entries@[i].name@
        &&& forall|i: int|
            0 <= i < a->Dir_entries@.len() && i != p[0] ==> (#[trigger] a->Dir_entries@[i]).node
                == b->Dir_entries@[i].node
        &&& differ_in_one_file(
            a->Dir_entries@[p[0]].node,
            b->Dir_entries@[p[0]].node,
            p.skip(1),
            x,
            y,
        )
    }
}

proof fn lemma_contribution(
    a: Node,
    b: Node,
    p: Seq<int>,
    x: Seq<u8>,
    y: Seq<u8>,
    path: Seq<Seq<char>>,
) -> (r: (Seq<u8>, Seq<u8>))
    requires
        differ_in_one_file(a, b, p, x, y),
    ensures
        contribution(a, path) == r.0 + x + r.1,
        contribution(b, path) == r.0 + y + r.1,
    decreases p.len(),
{
    let none = Seq::<u8>::empty();
    if p.len() == 0 {
        assert(none + x + none =~= x);
        assert(none + y + none =~= y);
        (none, none)
    } else {
        let k = p[0];
        let u = a->Dir_entries@;
        let v = b->Dir_entries@;
        assert(tree::names(u) =~= tree::names(v));
        let names = order::sorted(tree::names(u));
        lemma_sorted_names(u, k);
        let (pre, post) = lemma_dir_bytes(u, v, k, names, path);
        let (front, back) = lemma_contribution(
            u[k].node,
            v[k].node,
            p.skip(1),
            x,
            y,
            path.push(u[k].name@),
        );
        assert(pre + (front + x + back) + post =~= (pre + front) + x + (back + post));
        assert(pre + (front + y + back) + post =~= (pre + front) + y + (back + post));
        (pre + front, back + post)
    }
}

proof fn lemma_sorted_names(entries: Seq<Entry>, k: int)
    requires
        tree::names(entries).no_duplicates(),
        0 <= k < entries.len(),
    ensures
        order::sorted(tree::names(entries)).no_duplicates(),
        order::sorted(tree::names(entries)).contains(entries[k].name@),
{
    let listed = tree::names(entries);
    let names = order::sorted(listed);
    let le = |s: Seq<char>, t: Seq<char>| order::at_most(s, t);
    order::lemma_at_most_total();
    listed.lemma_sort_by_ensures(le);
    listed.lemma_multiset_has_no_duplicates();
    names.lemma_multiset_has_no_duplicates_conv();
    assert(listed[k] == entries[k].name@);
    assert(listed.contains(listed[k]));
    vstd::seq_lib::to_multiset_contains(listed, entries[k].name@);
    vstd::seq_lib::to_multiset_contains(names, entries[k].name@);
}

/// A content hash stands for what a directory holds: two trees that differ in what one
/// file holds, however deep it lies, have different hashes, unless two different
/// contents have the same SHA-256 digest.
pub proof fn content_hashes_stand_for_directories(
    a: Node,
    b: Node,
    p: Seq<int>,
    x: Seq<u8>,
    y: Seq<u8>,
)
    requires
        differ_in_one_file(a, b, p, x, y),
        hash::content_hash(a) == hash::content_hash(b),
    ensures
        x == y || collision(),
{
    let none = Seq::<Seq<char>>::empty();
    lemma_same_hash(hash::content_bytes(a), hash::content_bytes(b));
    let (pre, post) = lemma_contribution(a, b, p, x, y, none);
    if hash::content_bytes(a) == hash::content_bytes(b) {
        lemma_between(pre, x, y, post);
    }
}

/// A content hash stands for names too: directories with one file each have the same
/// only where the file has the same name and the same contents. Names are as Linux has
/// them.
pub proof fn content_hashes_stand_for_names(a: Node, b: Node)
    requires
        a is Dir,
        b is Dir,
        a->Dir_entries@.len() == 1,
        b->Dir_entries@.len() == 1,
        a->Dir_entries@[0].node is File,
        b->Dir_entries@[0].node is File,
        plain_name(a->Dir_entries@[0].name@),
        plain_name(b->Dir_entries@[0].name@),
        hash::content_hash(a) == hash::content_hash(b),
    ensures
        collision() || a->Dir_entries@[0].name@ == b->Dir_entries@[0].name@
            && a->Dir_entries@[0].node->File_data@ == b->Dir_entries@[0].node->File_data@,
{
    lemma_same_hash(hash::content_bytes(a), hash::content_bytes(b));
    if hash::content_bytes(a) == hash::content_bytes(b) {
        let x = a->Dir_entries@[0];
        let y = b->Dir_entries@[0];
        lemma_single(a->Dir_entries@);
        lemma_single(b->Dir_entries@);
        let u = encode_utf8(x.name@);
        let v = encode_utf8(y.name@);
        let c = u + seq![0u8] + x.node->File_data@;
        let d = v + seq![0u8] + y.node->File_data@;
        assert(c == d);
        lemma_no_zero(x.name@);
        lemma_no_zero(y.name@);
        assert(u.len() == v.len()) by {
            if u.len() < v.len() {
                assert(c[u.len() as int] == 0u8);
                assert(d[u.len() as int] == v[u.len() as int]);
            }
            if v.len() < u.len() {
                assert(d[v.len() as int] == 0u8);
                assert(c[v.len() as int] == u[v.len() as int]);
            }
        }
        assert(u =~= c.take(u.len() as int));
        assert(v =~= d.take(u.len() as int));
        encode_utf8_decode_utf8(x.name@);
        encode_utf8_decode_utf8(y.name@);
        assert(x.node->File_data@ =~= c.skip(u.len() as int + 1));
        assert(y.node->File_data@ =~= d.skip(v.len() as int + 1));
    }
}

/// A name of printable ASCII characters without separators.
pub open spec fn plain_name(name: Seq<char>) -> bool {
    forall|i: int| 0 <= i < name.len() ==> ' ' <= #[trigger] name[i] <= '~' && name[i] != '\\'
}

/// Printable ASCII characters are encoded as bytes other than zero.
proof fn lemma_no_zero(name: Seq<char>)
    requires
        plain_name(name),
    ensures
        forall|i: int| 0 <= i < encode_utf8(name).len() ==> #[trigger] encode_utf8(name)[i] != 0,
{
    is_ascii_chars_encode_utf8(name);
}

proof fn lemma_single(entries: Seq<Entry>)
    requires
        entries.len() == 1,
        entries[0].node is File,
        plain_name(entries[0].name@),
    ensures
        hash::dir_bytes(entries, order::sorted(tree::names(entries)), Seq::empty()) == encode_utf8(
            entries[0].name@,
        ) + seq![0u8] + entries[0].node->File_data@,
{
    let listed = tree::names(entries);
    let names = order::sorted(listed);
    let name = entries[0].name@;
    assert(listed =~= seq![name]);
    assert(listed.no_duplicates());
    lemma_sorted_names(entries, 0);
    let le = |s: Seq<char>, t: Seq<char>| order::at_most(s, t);
    order::lemma_at_most_total();
    listed.lemma_sort_by_ensures(le);
    names.to_multiset_ensures();
    listed.to_multiset_ensures();
    assert(names.len() == 1);
    assert(names[0] == name);
    let none = Seq::<Seq<char>>::empty();
    assert(names.drop_last() =~= none);
    tree::lemma_first_named(entries, name, 0);
    assert(none.push(name) =~= seq![name]);
    assert(text::joined(seq![name], "/"@) == name);
    assert(text::forward_slashes(name) =~= name);
    assert(hash::hashed_path(seq![name]) == name);
    let front = hash::dir_bytes(entries, none, none);
    assert(front.len() == 0);
    assert(hash::dir_bytes(entries, names, none) =~= encode_utf8(name) + seq![0u8]
        + entries[0].node->File_data@);
}

/// An instruction is stored with its files exactly where it has something to do to
/// them.
pub proof fn layers_hold_the_files_of_working_instructions(
    host: Host,
    state: StateView,
    inst: Instruction,
    network: NetworkMode,
)
    ensures
        stage::work_of(host, state, inst, network) matches Ok(w) ==> (cache::changes_filesystem(
            inst,
        ) <==> !(w is Nothing)),
        stage::work_of(host, state, inst, network) is Err ==> cache::changes_filesystem(inst),
{
}

/// Two `RUN`s in shell form with the same flags and without here-documents that have
/// the same key run the same command in the same way on the same state.
pub proof fn equal_run_keys_run_the_same(
    host: Host,
    state: StateView,
    a: Instruction,
    b: Instruction,
    found: Seq<Node>,
    network: Seq<char>,
    mode: NetworkMode,
)
    requires
        a is Run,
        b is Run,
        a->Run_command is Shell,
        b->Run_command is Shell,
        a->Run_heredocs@.len() == 0,
        b->Run_heredocs@.len() == 0,
        a->Run_flags@ == b->Run_flags@,
        cache::instruction_key(a, state.meta, vars::map_of(state.args), found, network)
            == cache::instruction_key(
            b,
            state.meta,
            vars::map_of(state.args),
            found,
            network,
        ),
    ensures
        stage::work_of(host, state, a, mode) == stage::work_of(host, state, b, mode),
{
    runs_are_told_by_the_key(
        a,
        b,
        state.meta,
        state.meta,
        vars::map_of(state.args),
        found,
        network,
        network,
    );
}

/// Two `ARG`s of one name, both with a default without variables, that have the same key
/// declare the same. Where only one has a default and that is empty, the keys agree
/// though a global value counts for the other.
pub proof fn equal_argument_keys_declare_the_same(
    state: StateView,
    a: Instruction,
    b: Instruction,
    globals: Map<Seq<char>, Seq<char>>,
    found: Seq<Node>,
    network: Seq<char>,
)
    requires
        a is Arg,
        b is Arg,
        ({
            let x = a->Arg_decls@;
            let y = b->Arg_decls@;
            &&& x.len() == 1 && !x[0].name@.contains('|') && x[0].default is Some
            &&& y.len() == 1 && !y[0].name@.contains('|') && y[0].default is Some
            &&& instructions::verbatim(x[0].default->0@)
            &&& instructions::verbatim(y[0].default->0@)
        }),
        cache::instruction_key(a, state.meta, vars::map_of(state.args), found, network)
            == cache::instruction_key(
            b,
            state.meta,
            vars::map_of(state.args),
            found,
            network,
        ),
    ensures
        stage::applied(state, a, globals) == stage::applied(state, b, globals),
{
    let args = vars::map_of(state.args);
    let all = meta::with_env(args, state.meta.env);
    let x = a->Arg_decls@;
    let y = b->Arg_decls@;
    arguments_are_told_by_the_key(a, b, state.meta, args, found, network);
    expand::plain_text_is_kept(x[0].default->0@, all);
    expand::plain_text_is_kept(y[0].default->0@, all);
    assert(x[0].name@ == y[0].name@);
    assert(x[0].default->0@ == y[0].default->0@);
    assert(x.drop_last() =~= Seq::empty());
    assert(y.drop_last() =~= Seq::empty());
    assert(x.last() == x[0]);
    assert(y.last() == y[0]);
    assert(stage::declared(state.args, x.drop_last(), globals) == state.args);
    assert(stage::declared(state.args, x, globals) == stage::declared(state.args, y, globals));
}

} // verus!
