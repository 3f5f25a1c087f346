//! What each instruction of a Dockerfile does.

use vstd::prelude::*;

use crate::backend::{self, NetworkMode};
use crate::dockerfile::{self, ArgDecl, Command, Flag, Heredoc, Instruction, Pair};
use crate::expand;
use crate::meta::{self, MetaView};
use crate::stage::{self, StateView, WorkView};
use crate::text;
use crate::vars;
use crate::winpath::Host;

verus! {

/// A text without variables in it.
pub open spec fn verbatim(s: Seq<char>) -> bool {
    !s.contains('$')
}

/// The command of an instruction that has one, unless here-documents come with it.
pub open spec fn command_of(inst: Instruction) -> Option<Command> {
    match inst {
        Instruction::Run { command, heredocs, .. } => if heredocs@.len() == 0 {
            Some(command)
        } else {
            None
        },
        Instruction::Cmd { command } => Some(command),
        Instruction::Entrypoint { command } => Some(command),
        _ => None,
    }
}

/// The process arguments that come of an instruction with a command: those that the
/// backend gets, or those that the image config gets.
pub open spec fn process_of(
    host: Host,
    state: StateView,
    inst: Instruction,
    globals: Map<Seq<char>, Seq<char>>,
    network: NetworkMode,
) -> Option<Seq<Seq<char>>> {
    let after = stage::applied(state, inst, globals);
    match inst {
        Instruction::Run { .. } => match stage::work_of(host, after, inst, network) {
            Ok(WorkView::Run(r)) => Some(r.args),
            _ => None,
        },
        Instruction::Cmd { .. } => after.meta.cmd,
        Instruction::Entrypoint { .. } => after.meta.entrypoint,
        _ => None,
    }
}

/// In exec form there is one process argument for each element of the command: the
/// element with its variables replaced, and the element as written where it has none.
pub proof fn exec_form_keeps_its_elements(
    host: Host,
    state: StateView,
    inst: Instruction,
    globals: Map<Seq<char>, Seq<char>>,
    network: NetworkMode,
)
    requires
        command_of(inst) matches Some(Command::Exec(_)),
    ensures
        command_of(inst) matches Some(Command::Exec(words)) && (inst is Run || process_of(
            host,
            state,
            inst,
            globals,
            network,
        ) is Some) && (process_of(host, state, inst, globals, network) matches Some(args) ==> {
            &&& args.len() == words@.len()
            &&& forall|i: int|
                0 <= i < args.len() ==> #[trigger] args[i] == expand::expanded(
                    words@[i]@,
                    state.vars(),
                )
            &&& forall|i: int|
                0 <= i < args.len() && verbatim(words@[i]@) ==> #[trigger] args[i] == words@[i]@
        }),
{
    let words = command_of(inst)->0->Exec_0;
    assert forall|i: int| 0 <= i < words@.len() && verbatim(words@[i]@) implies expand::expanded(
        #[trigger] words@[i]@,
        state.vars(),
    ) == words@[i]@ by {
        expand::plain_text_is_kept(words@[i]@, state.vars());
    }
    if let Some(args) = process_of(host, state, inst, globals, network) {
        assert forall|i: int| 0 <= i < args.len() && verbatim(words@[i]@) implies #[trigger] args[i]
            == words@[i]@ by {
            assert(args[i] == expand::expanded(words@[i]@, state.vars()));
        }
    }
}

/// In shell form the shell gets the command as its last argument: the text with its
/// variables replaced, and the text as written where it has none.
pub proof fn shell_form_hands_the_text_to_the_shell(
    host: Host,
    state: StateView,
    inst: Instruction,
    globals: Map<Seq<char>, Seq<char>>,
    network: NetworkMode,
)
    requires
        command_of(inst) matches Some(Command::Shell(_)),
    ensures
        command_of(inst) matches Some(Command::Shell(line)) && (inst is Run || process_of(
            host,
            state,
            inst,
            globals,
            network,
        ) is Some) && (process_of(host, state, inst, globals, network) matches Some(args) ==> {
            &&& args.len() == state.meta.shell.len() + 1
            &&& forall|i: int|
                0 <= i < state.meta.shell.len() ==> #[trigger] args[i] == state.meta.shell[i]
            &&& args[args.len() - 1] == expand::expanded(line@, state.vars())
            &&& verbatim(line@) ==> args[args.len() - 1] == line@
        }),
{
    let line = command_of(inst)->0->Shell_0;
    if verbatim(line@) {
        expand::plain_text_is_kept(line@, state.vars());
    }
}

/// The flag decides which network a `RUN` has where it names one; otherwise the build
/// does. A name that is no network fails the step.
pub proof fn run_network_is_the_one_asked_for(
    host: Host,
    state: StateView,
    inst: Instruction,
    network: NetworkMode,
    own: NetworkMode,
)
    requires
        inst is Run,
    ensures
        (forall|i: int|
            0 <= i < inst->Run_flags@.len() ==> (#[trigger] inst->Run_flags@[i]).name@
                != "network"@) ==> (stage::work_of(host, state, inst, network) matches Ok(
            WorkView::Run(r),
        ) && r.network == network),
        inst->Run_flags@.len() == 1 && inst->Run_flags@[0].name@ == "network"@ && (
        inst->Run_flags@[0].value matches Some(v) && v@ == (match own {
            NetworkMode::Bridge => "bridge"@,
            NetworkMode::Host => "host"@,
            NetworkMode::Disabled => "none"@,
        })) ==> (stage::work_of(host, state, inst, network) matches Ok(WorkView::Run(r))
            && r.network == own),
{
    let flags = inst->Run_flags@;
    if forall|i: int| 0 <= i < flags.len() ==> (#[trigger] flags[i]).name@ != "network"@ {
        lemma_no_flag(flags, "network"@);
    }
    backend::network_name_round_trip(own);
}

/// Where no flag has the name, there is no value.
proof fn lemma_no_flag(flags: Seq<Flag>, name: Seq<char>)
    requires
        forall|i: int| 0 <= i < flags.len() ==> (#[trigger] flags[i]).name@ != name,
    ensures
        dockerfile::flag_value(flags, name) is None,
    decreases flags.len(),
{
    if flags.len() > 0 {
        assert(flags[0].name@ != name);
        let rest = flags.skip(1);
        assert forall|i: int| 0 <= i < rest.len() implies (#[trigger] rest[i]).name@ != name by {
            assert(rest[i] == flags[i + 1]);
        }
        lemma_no_flag(rest, name);
    }
}

/// The value of a flag that is given once is what stands behind its equals sign.
pub proof fn a_flag_means_its_value(flags: Seq<Flag>, k: int, value: Seq<char>)
    requires
        0 <= k < flags.len(),
        flags[k].value matches Some(v) && v@ == value,
        forall|i: int|
            0 <= i < flags.len() && i != k ==> (#[trigger] flags[i]).name@ != flags[k].name@,
    ensures
        dockerfile::flag_value(flags, flags[k].name@) == Some(value),
        forall|name: Seq<char>|
            (forall|i: int| 0 <= i < flags.len() ==> (#[trigger] flags[i]).name@ != name)
                ==> #[trigger] dockerfile::flag_value(flags, name) is None,
    decreases flags.len(),
{
    if k > 0 {
        let rest = flags.skip(1);
        assert(flags[0].name@ != flags[k].name@);
        assert forall|i: int| 0 <= i < rest.len() && i != k - 1 implies (#[trigger] rest[i]).name@
            != rest[k - 1].name@ by {
            assert(rest[i] == flags[i + 1]);
        }
        assert(rest[k - 1] == flags[k]);
        a_flag_means_its_value(rest, k - 1, value);
    }
    assert forall|name: Seq<char>|
        (forall|i: int| 0 <= i < flags.len() ==> (#[trigger] flags[i]).name@ != name) implies (
    #[trigger] dockerfile::flag_value(flags, name)) is None by {
        lemma_no_flag(flags, name);
    }
}

/// A `RUN` works on the root filesystem of its stage, in the working directory and as
/// the user of the image config.
pub proof fn run_sees_the_settings_of_its_stage(
    host: Host,
    state: StateView,
    inst: Instruction,
    network: NetworkMode,
)
    requires
        inst is Run,
    ensures
        stage::work_of(host, state, inst, network) matches Ok(w) ==> {
            &&& w is Run
            &&& w->Run_0.rootfs == state.rootfs
            &&& w->Run_0.cwd == state.meta.working_dir
            &&& w->Run_0.user == state.meta.user
        },
{
}

/// An entry of an environment for the variable `key`.
pub open spec fn entry_for(key: Seq<char>, entry: Seq<char>) -> bool {
    key.push('=').is_prefix_of(entry)
}

/// The entry that sets the variable `key` to `value`.
pub open spec fn entry_of(key: Seq<char>, value: Seq<char>) -> Seq<char> {
    key.push('=') + value
}

proof fn lemma_entry(key: Seq<char>, value: Seq<char>, entry: Seq<char>)
    ensures
        key + "="@ == key.push('='),
        key + "="@ + value == entry_of(key, value),
        text::has_prefix(entry, key + "="@) == entry_for(key, entry),
        entry_for(key, entry_of(key, value)),
{
    reveal_strlit("=");
    assert(key + "="@ =~= key.push('='));
    let p = key.push('=');
    if p.is_prefix_of(entry) {
        assert(entry.take(p.len() as int) =~= p);
    }
    if text::has_prefix(entry, p) {
        assert(forall|i: int| 0 <= i < p.len() ==> entry[i] == entry.take(p.len() as int)[i]);
        assert(p =~= entry.subrange(0, p.len() as int));
    }
    assert(p =~= entry_of(key, value).subrange(0, p.len() as int));
}

/// The environment of a `RUN` holds every entry of the image environment in its order,
/// and an entry for every variable that has none there; it holds nothing else.
pub proof fn run_environment_is_complete(
    host: Host,
    state: StateView,
    inst: Instruction,
    network: NetworkMode,
)
    requires
        inst is Run,
        vars::distinct_keys(state.args),
    ensures
        stage::work_of(host, state, inst, network) matches Ok(WorkView::Run(r)) ==> {
            &&& state.meta.env.is_prefix_of(r.env)
            &&& forall|k: int|
                0 <= k < state.args.len() ==> {
                    ||| exists|i: int|
                        0 <= i < r.env.len() && entry_for(
                            (#[trigger] state.args[k]).0,
                            #[trigger] r.env[i],
                        )
                }
            &&& forall|k: int|
                #![trigger state.args[k]]
                0 <= k < state.args.len() && (forall|i: int|
                    0 <= i < state.meta.env.len() ==> !entry_for(
                        state.args[k].0,
                        #[trigger] state.meta.env[i],
                    )) && !state.args[k].0.contains('=') && (forall|j: int|
                    #![trigger state.args[j]]
                    0 <= j < state.args.len() ==> !state.args[j].0.contains('='))
                    ==> r.env.contains(entry_of(state.args[k].0, state.args[k].1))
            &&& forall|i: int|
                #![trigger r.env[i]]
                state.meta.env.len() <= i < r.env.len() ==> exists|k: int|
                    0 <= k < state.args.len() && r.env[i] == entry_of(
                        (#[trigger] state.args[k]).0,
                        state.args[k].1,
                    )
        },
{
    lemma_run_env(state.meta.env, state.args);
}

proof fn lemma_run_env(env: Seq<Seq<char>>, args: Seq<(Seq<char>, Seq<char>)>)
    requires
        vars::distinct_keys(args),
    ensures
        ({
            let all = stage::run_env(env, args);
            &&& env.is_prefix_of(all)
            &&& forall|k: int|
                0 <= k < args.len() ==> {
                    ||| exists|i: int|
                        0 <= i < all.len() && entry_for(
                            (#[trigger] args[k]).0,
                            #[trigger] all[i],
                        )
                }
            &&& forall|k: int|
                #![trigger args[k]]
                0 <= k < args.len() && (forall|i: int|
                    0 <= i < env.len() ==> !entry_for(args[k].0, #[trigger] env[i]))
                    && !args[k].0.contains('=') && (forall|j: int|
                    #![trigger args[j]]
                    0 <= j < args.len() ==> !args[j].0.contains('=')) ==> all.contains(
                    entry_of(args[k].0, args[k].1),
                )
            &&& forall|i: int|
                #![trigger all[i]]
                env.len() <= i < all.len() ==> exists|k: int|
                    0 <= k < args.len() && all[i] == entry_of(
                        (#[trigger] args[k]).0,
                        args[k].1,
                    )
        }),
    decreases args.len(),
{
    let all = stage::run_env(env, args);
    if args.len() > 0 {
        let rest = args.drop_last();
        let n = args.len() - 1;
        let key = args[n].0;
        let value = args[n].1;
        let before = stage::run_env(env, rest);
        assert forall|i: int, j: int| 0 <= i < j < rest.len() implies (#[trigger] rest[i]).0 != (
        #[trigger] rest[j]).0 by {
            assert(rest[i] == args[i] && rest[j] == args[j]);
        }
        lemma_run_env(env, rest);
        assert forall|e: Seq<char>| #[trigger] text::has_prefix(e, key + "="@) == entry_for(
            key,
            e,
        ) by {
            lemma_entry(key, value, e);
        }
        lemma_entry(key, value, Seq::empty());
        assert forall|k: int| 0 <= k < args.len() implies exists|i: int|
            0 <= i < all.len() && entry_for((#[trigger] args[k]).0, #[trigger] all[i]) by {
            if k < n {
                assert(rest[k] == args[k]);
                let i = choose|i: int|
                    0 <= i < before.len() && entry_for(rest[k].0, #[trigger] before[i]);
                assert(all[i] == before[i]);
            } else if stage::env_has(before, key) {
                let i = choose|i: int|
                    0 <= i < before.len() && text::has_prefix(#[trigger] before[i], key + "="@);
                assert(entry_for(key, all[i]));
            } else {
                assert(entry_for(key, all[all.len() - 1]));
            }
        }
        assert forall|k: int|
            #![trigger args[k]]
            0 <= k < args.len() && (forall|i: int|
                0 <= i < env.len() ==> !entry_for(args[k].0, #[trigger] env[i]))
                && !args[k].0.contains('=') && (forall|j: int|
                #![trigger args[j]]
                0 <= j < args.len() ==> !args[j].0.contains('=')) implies all.contains(
            entry_of(args[k].0, args[k].1),
        ) by {
            if k < n {
                assert(rest[k] == args[k]);
                assert forall|j: int|
                    #![trigger rest[j]]
                    0 <= j < rest.len() implies !rest[j].0.contains('=') by {
                    assert(rest[j] == args[j]);
                }
                assert(before.contains(entry_of(rest[k].0, rest[k].1)));
                let i = choose|i: int|
                    0 <= i < before.len() && before[i] == entry_of(args[k].0, args[k].1);
                assert(all[i] == before[i]);
            } else {
                if stage::env_has(before, key) {
                    let i = choose|i: int|
                        0 <= i < before.len() && text::has_prefix(#[trigger] before[i], key + "="@);
                    assert(entry_for(key, before[i]));
                    if i < env.len() {
                        assert(before[i] == env[i]);
                    } else {
                        let j = choose|j: int|
                            0 <= j < rest.len() && before[i] == entry_of(
                                (#[trigger] rest[j]).0,
                                rest[j].1,
                            );
                        assert(rest[j] == args[j]);
                        lemma_entry_keys(key, args[j].0, args[j].1);
                        assert(args[j].0 != args[n].0);
                    }
                }
                assert(all.last() == entry_of(key, value));
                assert(all[all.len() - 1] == entry_of(key, value));
            }
        }
        assert forall|i: int| #![trigger all[i]] env.len() <= i < all.len() implies exists|k: int|
            0 <= k < args.len() && all[i] == entry_of((#[trigger] args[k]).0, args[k].1) by {
            if i < before.len() {
                assert(all[i] == before[i]);
                let k = choose|k: int|
                    0 <= k < rest.len() && before[i] == entry_of((#[trigger] rest[k]).0, rest[k].1);
                assert(args[k] == rest[k]);
            } else {
                assert(all[i] == entry_of(args[n].0, args[n].1));
            }
        }
    }
}

/// An entry is for one variable whose name has no equals sign.
proof fn lemma_entry_keys(key: Seq<char>, other: Seq<char>, value: Seq<char>)
    requires
        !key.contains('='),
        !other.contains('='),
        entry_for(key, entry_of(other, value)),
    ensures
        key == other,
{
    let e = entry_of(other, value);
    let p = key.push('=');
    assert(forall|i: int| 0 <= i < p.len() ==> p[i] == e[i]);
    assert(e[other.len() as int] == '=');
    assert(p[key.len() as int] == '=');
    if key.len() < other.len() {
        assert(e[key.len() as int] == other[key.len() as int]);
        assert(other.contains(other[key.len() as int]));
    } else if other.len() < key.len() {
        assert(p[other.len() as int] == key[other.len() as int]);
        assert(key.contains(key[other.len() as int]));
    }
    assert(key =~= other) by {
        assert forall|i: int| 0 <= i < key.len() implies key[i] == other[i] by {
            assert(p[i] == e[i]);
        }
    }
}

// ---------------------------------------------------------------------------
// Variables and the environment
// ---------------------------------------------------------------------------

proof fn lemma_without_prefix(env: Seq<Seq<char>>, key: Seq<char>)
    ensures
        meta::without_prefix(env, key + "="@) == env.filter(|e: Seq<char>| !entry_for(key, e)),
    decreases env.len(),
{
    reveal(Seq::filter);
    if env.len() > 0 {
        lemma_without_prefix(env.drop_last(), key);
        lemma_entry(key, Seq::empty(), env.last());
    }
}

/// An `ENV` of one variable gives the environment one entry for it, behind all entries
/// for other variables, which stay as they are; what stood there for the variable goes.
/// Later instructions see the new value, and nothing else of the stage changes.
pub proof fn env_sets_a_variable(
    state: StateView,
    inst: Instruction,
    globals: Map<Seq<char>, Seq<char>>,
)
    requires
        inst is Env,
        inst->Env_pairs@.len() == 1,
        vars::distinct_keys(state.args),
    ensures
        ({
            let key = inst->Env_pairs@[0].key@;
            let raw = inst->Env_pairs@[0].value@;
            let after = stage::applied(state, inst, globals);
            let value = expand::expanded(raw, state.vars());
            &&& verbatim(raw) ==> value == raw
            &&& after.meta.env == state.meta.env.filter(|e: Seq<char>| !entry_for(key, e)).push(
                entry_of(key, value),
            )
            &&& vars::map_of(after.args) == vars::map_of(state.args).insert(key, value)
            &&& after.vars().contains_key(key) && after.vars()[key] == value
            &&& after == (StateView {
                args: after.args,
                meta: MetaView { env: after.meta.env, ..state.meta },
                ..state
            })
        }),
{
    let pairs = inst->Env_pairs@;
    let key = pairs[0].key@;
    let raw = pairs[0].value@;
    let value = expand::expanded(raw, state.vars());
    let after = stage::applied(state, inst, globals);
    if verbatim(raw) {
        expand::plain_text_is_kept(raw, state.vars());
    }
    assert(pairs.drop_last() =~= Seq::<Pair>::empty());
    assert(stage::with_env_pairs(state, pairs.drop_last()) == state);
    lemma_without_prefix(state.meta.env, key);
    lemma_entry(key, value, Seq::empty());
    vars::lemma_with_pair(state.args, key, value);
    meta::arguments_hide_environment(vars::map_of(after.args), after.meta.env, key);
}

proof fn lemma_env_pairs_add(state: StateView, a: Seq<Pair>, b: Seq<Pair>)
    ensures
        stage::with_env_pairs(state, a + b) == stage::with_env_pairs(
            stage::with_env_pairs(state, a),
            b,
        ),
    decreases b.len(),
{
    if b.len() == 0 {
        assert(a + b =~= a);
    } else {
        assert((a + b).drop_last() =~= a + b.drop_last());
        assert((a + b).last() == b.last());
        lemma_env_pairs_add(state, a, b.drop_last());
    }
}

proof fn lemma_labels_add(
    labels: Seq<(Seq<char>, Seq<char>)>,
    a: Seq<Pair>,
    b: Seq<Pair>,
    vars: Map<Seq<char>, Seq<char>>,
)
    ensures
        stage::with_labels(labels, a + b, vars) == stage::with_labels(
            stage::with_labels(labels, a, vars),
            b,
            vars,
        ),
    decreases b.len(),
{
    if b.len() == 0 {
        assert(a + b =~= a);
    } else {
        assert((a + b).drop_last() =~= a + b.drop_last());
        assert((a + b).last() == b.last());
        lemma_labels_add(labels, a, b.drop_last(), vars);
    }
}

proof fn lemma_declared_add(
    args: Seq<(Seq<char>, Seq<char>)>,
    a: Seq<ArgDecl>,
    b: Seq<ArgDecl>,
    globals: Map<Seq<char>, Seq<char>>,
)
    ensures
        stage::declared(args, a + b, globals) == stage::declared(
            stage::declared(args, a, globals),
            b,
            globals,
        ),
    decreases b.len(),
{
    if b.len() == 0 {
        assert(a + b =~= a);
    } else {
        assert((a + b).drop_last() =~= a + b.drop_last());
        assert((a + b).last() == b.last());
        lemma_declared_add(args, a, b.drop_last(), globals);
    }
}

/// Several variables, labels or arguments in one instruction are the same as one
/// instruction for each of them, in order.
pub proof fn one_line_is_several(
    state: StateView,
    all: Instruction,
    first: Instruction,
    second: Instruction,
    globals: Map<Seq<char>, Seq<char>>,
)
    requires
        match (all, first, second) {
            (
                Instruction::Env { pairs: c },
                Instruction::Env { pairs: a },
                Instruction::Env { pairs: b },
            ) => c@ == a@ + b@,
            (
                Instruction::Label { pairs: c },
                Instruction::Label { pairs: a },
                Instruction::Label { pairs: b },
            ) => c@ == a@ + b@,
            (
                Instruction::Arg { decls: c },
                Instruction::Arg { decls: a },
                Instruction::Arg { decls: b },
            ) => c@ == a@ + b@,
            _ => false,
        },
    ensures
        stage::applied(state, all, globals) == stage::applied(
            stage::applied(state, first, globals),
            second,
            globals,
        ),
{
    match (all, first, second) {
        (
            Instruction::Env { pairs: c },
            Instruction::Env { pairs: a },
            Instruction::Env { pairs: b },
        ) => {
            lemma_env_pairs_add(state, a@, b@);
        },
        (
            Instruction::Label { pairs: c },
            Instruction::Label { pairs: a },
            Instruction::Label { pairs: b },
        ) => {
            lemma_labels_add(state.meta.labels, a@, b@, state.vars());
        },
        (
            Instruction::Arg { decls: c },
            Instruction::Arg { decls: a },
            Instruction::Arg { decls: b },
        ) => {
            lemma_declared_add(state.args, a@, b@, globals);
        },
        _ => {},
    }
}

/// A `LABEL` of one pair sets that label and leaves every other one; nothing else of
/// the stage changes.
pub proof fn label_sets_a_label(
    state: StateView,
    inst: Instruction,
    globals: Map<Seq<char>, Seq<char>>,
)
    requires
        inst is Label,
        inst->Label_pairs@.len() == 1,
        vars::distinct_keys(state.meta.labels),
    ensures
        ({
            let key = inst->Label_pairs@[0].key@;
            let raw = inst->Label_pairs@[0].value@;
            let value = expand::expanded(raw, state.vars());
            let after = stage::applied(state, inst, globals);
            &&& verbatim(raw) ==> value == raw
            &&& vars::distinct_keys(after.meta.labels)
            &&& vars::map_of(after.meta.labels) == vars::map_of(state.meta.labels).insert(
                key,
                value,
            )
            &&& after == (StateView {
                meta: MetaView { labels: after.meta.labels, ..state.meta },
                ..state
            })
        }),
{
    let pairs = inst->Label_pairs@;
    let raw = pairs[0].value@;
    if verbatim(raw) {
        expand::plain_text_is_kept(raw, state.vars());
    }
    assert(pairs.drop_last() =~= Seq::<Pair>::empty());
    assert(stage::with_labels(state.meta.labels, pairs.drop_last(), state.vars())
        == state.meta.labels);
    vars::lemma_with_pair(state.meta.labels, pairs[0].key@, expand::expanded(raw, state.vars()));
}

/// An `ARG` of one name gives the argument a value where it has none: its default, or
/// without one the value of a global argument of that name. Nothing else of the stage
/// changes.
pub proof fn arg_gives_a_missing_value(
    state: StateView,
    inst: Instruction,
    globals: Map<Seq<char>, Seq<char>>,
)
    requires
        inst is Arg,
        inst->Arg_decls@.len() == 1,
        vars::distinct_keys(state.args),
    ensures
        ({
            let name = inst->Arg_decls@[0].name@;
            let before = vars::map_of(state.args);
            let after = stage::applied(state, inst, globals);
            &&& after == (StateView { args: after.args, ..state })
            &&& vars::distinct_keys(after.args)
            &&& vars::map_of(after.args) == if before.contains_key(name) {
                before
            } else {
                match inst->Arg_decls@[0].default {
                    Some(d) => before.insert(name, expand::expanded(d@, before)),
                    None => if globals.contains_key(name) {
                        before.insert(name, globals[name])
                    } else {
                        before
                    },
                }
            }
            &&& inst->Arg_decls@[0].default matches Some(d) ==> verbatim(d@)
                ==> expand::expanded(d@, before) == d@
        }),
{
    let decls = inst->Arg_decls@;
    let d = decls[0];
    let before = vars::map_of(state.args);
    assert(decls.drop_last() =~= Seq::<ArgDecl>::empty());
    assert(stage::declared(state.args, decls.drop_last(), globals) == state.args);
    match d.default {
        Some(v) => {
            if verbatim(v@) {
                expand::plain_text_is_kept(v@, before);
            }
            vars::lemma_with_pair(state.args, d.name@, expand::expanded(v@, before));
        },
        None => {
            vars::lemma_with_pair(state.args, d.name@, globals[d.name@]);
        },
    }
}

// ---------------------------------------------------------------------------
// The other settings
// ---------------------------------------------------------------------------

/// `CMD` and `ENTRYPOINT` each change the setting of their name, and nothing else.
pub proof fn commands_change_their_own_setting(
    state: StateView,
    inst: Instruction,
    globals: Map<Seq<char>, Seq<char>>,
)
    ensures
        inst is Cmd ==> stage::applied(state, inst, globals) == (StateView {
            meta: MetaView { cmd: stage::applied(state, inst, globals).meta.cmd, ..state.meta },
            ..state
        }),
        inst is Entrypoint ==> stage::applied(state, inst, globals) == (StateView {
            meta: MetaView {
                entrypoint: stage::applied(state, inst, globals).meta.entrypoint,
                ..state.meta
            },
            ..state
        }),
{
}

/// `RUN`, `COPY` and `ADD` change files alone: neither the image config nor the
/// variables.
pub proof fn work_changes_no_setting(
    state: StateView,
    inst: Instruction,
    globals: Map<Seq<char>, Seq<char>>,
)
    requires
        inst is Run || inst is Copy || inst is Add || inst is From,
    ensures
        stage::applied(state, inst, globals) == state,
{
}

/// `USER` sets the user to its text with variables replaced, and `SHELL` the shell to
/// its words as written; nothing else of the stage changes.
pub proof fn user_and_shell_are_set(
    state: StateView,
    inst: Instruction,
    globals: Map<Seq<char>, Seq<char>>,
)
    ensures
        inst matches Instruction::User { spec } ==> {
            &&& stage::applied(state, inst, globals) == (StateView {
                meta: MetaView {
                    user: Some(expand::expanded(spec@, state.vars())),
                    ..state.meta
                },
                ..state
            })
            &&& verbatim(spec@) ==> stage::applied(state, inst, globals).meta.user == Some(spec@)
        },
        inst matches Instruction::Shell { args } ==> {
            let after = stage::applied(state, inst, globals);
            &&& after.meta.shell.len() == args@.len()
            &&& forall|i: int|
                0 <= i < args@.len() ==> #[trigger] after.meta.shell[i] == args@[i]@
            &&& after == (StateView {
                meta: MetaView { shell: after.meta.shell, ..state.meta },
                ..state
            })
        },
{
    if let Instruction::User { spec } = inst {
        if verbatim(spec@) {
            expand::plain_text_is_kept(spec@, state.vars());
        }
    }
}

/// Whether `after` is `before` with one text more for each of `texts`, in order, with
/// its variables replaced.
pub open spec fn extended(
    before: Seq<Seq<char>>,
    texts: Seq<String>,
    vars: Map<Seq<char>, Seq<char>>,
    after: Seq<Seq<char>>,
) -> bool {
    &&& after.len() == before.len() + texts.len()
    &&& forall|i: int| 0 <= i < before.len() ==> #[trigger] after[i] == before[i]
    &&& forall|i: int|
        0 <= i < texts.len() ==> after[before.len() + i] == expand::expanded(
            (#[trigger] texts[i])@,
            vars,
        )
    &&& forall|i: int|
        0 <= i < texts.len() && verbatim((#[trigger] texts[i])@) ==> after[before.len() + i]
            == texts[i]@
}

/// `EXPOSE` adds its ports to the exposed ones, `VOLUME` its paths to the volumes;
/// nothing else of the stage changes.
pub proof fn ports_and_volumes_are_added(
    state: StateView,
    inst: Instruction,
    globals: Map<Seq<char>, Seq<char>>,
)
    ensures
        inst matches Instruction::Expose { ports } ==> {
            let after = stage::applied(state, inst, globals);
            &&& extended(state.meta.exposed_ports, ports@, state.vars(), after.meta.exposed_ports)
            &&& after == (StateView {
                meta: MetaView { exposed_ports: after.meta.exposed_ports, ..state.meta },
                ..state
            })
        },
        inst matches Instruction::Volume { paths } ==> {
            let after = stage::applied(state, inst, globals);
            &&& extended(state.meta.volumes, paths@, state.vars(), after.meta.volumes)
            &&& after == (StateView {
                meta: MetaView { volumes: after.meta.volumes, ..state.meta },
                ..state
            })
        },
{
    let texts = match inst {
        Instruction::Expose { ports } => ports@,
        Instruction::Volume { paths } => paths@,
        _ => Seq::empty(),
    };
    assert forall|i: int|
        0 <= i < texts.len() && verbatim((#[trigger] texts[i])@) implies expand::expanded(
        texts[i]@,
        state.vars(),
    ) == texts[i]@ by {
        expand::plain_text_is_kept(texts[i]@, state.vars());
    }
}

/// The here-documents of a `RUN` are handed to the shell behind the command line, each
/// on lines of its own and in their order, and without a command line from the first
/// one on.
pub proof fn here_documents_are_handed_to_the_shell(
    command: Command,
    heredocs: Seq<Heredoc>,
    last: Heredoc,
    shell: Seq<Seq<char>>,
    vars: Map<Seq<char>, Seq<char>>,
)
    ensures
        ({
            let args = stage::run_args(command, heredocs.push(last), shell, vars);
            let before = stage::run_args(command, heredocs, shell, vars);
            &&& args.len() == shell.len() + 1
            &&& args.drop_last() == shell
            &&& last.body@.is_suffix_of(args.last())
            &&& heredocs.len() > 0 && before.last().len() > 0 ==> args.last() == before.last()
                + seq!['\n'] + last.body@
            &&& heredocs.len() == 0 ==> (command matches Command::Shell(line) ==> expand::expanded(
                line@,
                vars,
            ).len() > 0 ==> args.last() == expand::expanded(line@, vars) + seq!['\n']
                + last.body@)
            &&& heredocs.len() == 0 && command is Exec ==> args.last() == last.body@
        }),
{
    reveal_strlit("\n");
    assert("\n"@ =~= seq!['\n']);
    let all = heredocs.push(last);
    assert(all.drop_last() =~= heredocs);
    assert(all.last() == last);
    let start = match command {
        Command::Shell(s) => expand::expanded(s@, vars),
        Command::Exec(_) => Seq::empty(),
    };
    let text = stage::with_heredocs(start, all);
    let args = stage::run_args(command, all, shell, vars);
    assert(args == shell.push(text));
    assert(args.drop_last() =~= shell);
    let less = stage::with_heredocs(start, heredocs);
    if less.len() > 0 {
        assert(text == less + seq!['\n'] + last.body@);
    }
    assert(last.body@ =~= text.subrange(text.len() - last.body@.len(), text.len() as int));
    if heredocs.len() > 0 {
        let before = stage::run_args(command, heredocs, shell, vars);
        assert(before.last() == less);
    }
}

} // verus!
