//! The state of a build stage and what an instruction does to it.

use vstd::prelude::*;

use crate::backend::{self, NetworkMode, RunRequest, RunRequestView};
use crate::cache::{self, command_cache_text, render_pairs};
use crate::copying::{self, split_sources};
use crate::dockerfile::{self, find_flag, ArgDecl, Command, Heredoc, Instruction, Pair};
use crate::error::{Error, ErrorView};
use crate::expand::{self, expand, expand_vec};
use crate::fsutil::{self, guest_to_host, join_workdir};
use crate::meta::{self, copy_text, merged_vars, ImageMeta, MetaView};
use crate::path::{HostPath, PathView};
use crate::progress::{self, BuildEventView, BuildProgress, ProgressEmitter};
use crate::text::{self, join, starts_with};
use crate::vars::{self, Vars};
use crate::winpath::{self, Host};

verus! {

/// Where a stage stands between two instructions.
#[derive(Debug)]
pub struct StageState {
    /// Root filesystem of the stage.
    pub rootfs: HostPath,
    /// When true, `rootfs` points into the layer cache and must be copied before
    /// mutation.
    pub rootfs_shared: bool,
    /// Writable rootfs directory for this stage (under the build work dir).
    pub work_rootfs: HostPath,
    /// Image config so far.
    pub meta: ImageMeta,
    /// Build arguments and environment variables so far.
    pub args: Vars,
    /// Current chain id (for export blob reuse).
    pub layer_id: String,
}

/// A [`StageState`] with its texts as character sequences.
#[verifier::ext_equal]
pub struct StateView {
    pub rootfs: PathView,
    pub rootfs_shared: bool,
    pub work_rootfs: PathView,
    pub meta: MetaView,
    pub args: Seq<(Seq<char>, Seq<char>)>,
    pub layer_id: Seq<char>,
}

impl View for StageState {
    type V = StateView;

    open spec fn view(&self) -> StateView {
        StateView {
            rootfs: self.rootfs@,
            rootfs_shared: self.rootfs_shared,
            work_rootfs: self.work_rootfs@,
            meta: self.meta@,
            args: self.args.pairs(),
            layer_id: self.layer_id@,
        }
    }
}

impl StateView {
    /// The variables that an instruction sees.
    pub open spec fn vars(self) -> Map<Seq<char>, Seq<char>> {
        meta::with_env(vars::map_of(self.args), self.meta.env)
    }
}

/// The variables that an instruction sees.
pub fn stage_vars(state: &StageState) -> (r: Vars)
    ensures
        r@ == state@.vars(),
{
    merged_vars(&state.meta, &state.args)
}

// ---------------------------------------------------------------------------
// Names of steps
// ---------------------------------------------------------------------------

/// `name=default` with the default expanded, or the name alone, for each
/// declaration.
pub open spec fn arg_texts(decls: Seq<ArgDecl>, vars: Map<Seq<char>, Seq<char>>) -> Seq<Seq<char>> {
    decls.map_values(
        |a: ArgDecl|
            match a.default {
                Some(d) => a.name@ + "="@ + expand::expanded(d@, vars),
                None => a.name@,
            },
    )
}

/// `name=default` with the default expanded, or the name alone, for each
/// declaration.
fn render_args(decls: &Vec<ArgDecl>, vars: &Vars) -> (r: Vec<String>)
    ensures
        r.deep_view() == arg_texts(decls@, vars@),
{
    let mut out: Vec<String> = Vec::new();
    for i in 0..decls.len()
        invariant
            out.deep_view() == arg_texts(decls@.take(i as int), vars@),
    {
        let ghost seen = out.deep_view();
        let t = match &decls[i].default {
            Some(d) => decls[i].name.clone().concat("=").concat(expand(d.as_str(), vars).as_str()),
            None => decls[i].name.clone(),
        };
        out.push(t);
        assert(out.deep_view() =~= seen.push(t@));
        assert(out.deep_view() =~= arg_texts(decls@.take(i + 1), vars@));
    }
    assert(decls@.take(decls@.len() as int) =~= decls@);
    out
}

/// An instruction as the progress display shows it.
pub open spec fn summary(inst: Instruction, vars: Map<Seq<char>, Seq<char>>) -> Seq<char> {
    match inst {
        Instruction::Run { command, .. } => "RUN "@ + cache::command_text(command, vars),
        Instruction::Copy { sources, destination, flags, .. } => {
            let tail = text::joined(expand::expanded_all(sources.deep_view(), vars), " "@) + " "@
                + expand::expanded(destination@, vars);
            match dockerfile::flag_value(flags@, "from"@) {
                Some(f) => "COPY --from="@ + f + " "@ + tail,
                None => "COPY "@ + tail,
            }
        },
        Instruction::Add { sources, destination, .. } => "ADD "@ + (text::joined(
            expand::expanded_all(sources.deep_view(), vars),
            " "@,
        ) + " "@ + expand::expanded(destination@, vars)),
        Instruction::Workdir { path } => "WORKDIR "@ + expand::expanded(path@, vars),
        Instruction::Env { pairs } => "ENV "@ + text::joined(
            cache::pair_texts(pairs@, vars),
            " "@,
        ),
        Instruction::Arg { decls } => "ARG "@ + text::joined(arg_texts(decls@, vars), " "@),
        Instruction::Label { pairs } => "LABEL "@ + text::joined(
            cache::pair_texts(pairs@, vars),
            " "@,
        ),
        Instruction::Entrypoint { command } => "ENTRYPOINT "@ + cache::command_text(command, vars),
        Instruction::Cmd { command } => "CMD "@ + cache::command_text(command, vars),
        Instruction::User { spec } => "USER "@ + expand::expanded(spec@, vars),
        Instruction::Expose { ports } => "EXPOSE "@ + text::joined(
            expand::expanded_all(ports.deep_view(), vars),
            " "@,
        ),
        Instruction::Volume { paths } => "VOLUME "@ + text::joined(
            expand::expanded_all(paths.deep_view(), vars),
            " "@,
        ),
        _ => dockerfile::keyword_text(inst),
    }
}

/// An instruction as the progress display shows it, with variables replaced.
pub fn instruction_summary(inst: &Instruction, state: &StageState) -> (r: String)
    ensures
        r@ == summary(*inst, state@.vars()),
{
    let vars = stage_vars(state);
    match inst {
        Instruction::Run { command, .. } => "RUN ".to_owned().concat(
            command_cache_text(command, &vars).as_str(),
        ),
        Instruction::Copy { sources, destination, flags, .. } => {
            let tail = join(&expand_vec(sources, &vars), " ").concat(" ").concat(
                expand(destination.as_str(), &vars).as_str(),
            );
            match find_flag(flags, "from") {
                Some(f) => "COPY --from=".to_owned().concat(f.as_str()).concat(" ").concat(
                    tail.as_str(),
                ),
                None => "COPY ".to_owned().concat(tail.as_str()),
            }
        },
        Instruction::Add { sources, destination, .. } => {
            let tail = join(&expand_vec(sources, &vars), " ").concat(" ").concat(
                expand(destination.as_str(), &vars).as_str(),
            );
            "ADD ".to_owned().concat(tail.as_str())
        },
        Instruction::Workdir { path } => "WORKDIR ".to_owned().concat(
            expand(path.as_str(), &vars).as_str(),
        ),
        Instruction::Env { pairs } => "ENV ".to_owned().concat(
            join(&render_pairs(pairs, &vars), " ").as_str(),
        ),
        Instruction::Arg { decls } => "ARG ".to_owned().concat(
            join(&render_args(decls, &vars), " ").as_str(),
        ),
        Instruction::Label { pairs } => "LABEL ".to_owned().concat(
            join(&render_pairs(pairs, &vars), " ").as_str(),
        ),
        Instruction::Entrypoint { command } => "ENTRYPOINT ".to_owned().concat(
            command_cache_text(command, &vars).as_str(),
        ),
        Instruction::Cmd { command } => "CMD ".to_owned().concat(
            command_cache_text(command, &vars).as_str(),
        ),
        Instruction::User { spec } => "USER ".to_owned().concat(
            expand(spec.as_str(), &vars).as_str(),
        ),
        Instruction::Expose { ports } => "EXPOSE ".to_owned().concat(
            join(&expand_vec(ports, &vars), " ").as_str(),
        ),
        Instruction::Volume { paths } => "VOLUME ".to_owned().concat(
            join(&expand_vec(paths, &vars), " ").as_str(),
        ),
        _ => inst.keyword(),
    }
}

// ---------------------------------------------------------------------------
// What instructions do to the image config and the variables
// ---------------------------------------------------------------------------

/// The process arguments of a command: the shell in front of a shell-form
/// command, the arguments themselves for an exec-form one.
pub open spec fn command_args(
    command: Command,
    shell: Seq<Seq<char>>,
    vars: Map<Seq<char>, Seq<char>>,
) -> Seq<Seq<char>> {
    match command {
        Command::Shell(s) => shell.push(expand::expanded(s@, vars)),
        Command::Exec(args) => expand::expanded_all(args.deep_view(), vars),
    }
}

/// The process arguments of a command.
pub fn command_to_args(command: &Command, shell: &Vec<String>, vars: &Vars) -> (r: Vec<String>)
    ensures
        r.deep_view() == command_args(*command, shell.deep_view(), vars@),
        // The exec form has one argument for each of its elements.
        *command matches Command::Exec(args) ==> r@.len() == args@.len(),
{
    match command {
        Command::Shell(s) => {
            let mut args = shell.clone();
            let ghost before = args.deep_view();
            let t = expand(s.as_str(), vars);
            args.push(t);
            assert(args.deep_view() =~= before.push(t@));
            args
        },
        Command::Exec(args) => expand_vec(args, vars),
    }
}

/// The build arguments after some declarations: an argument that has a value
/// keeps it, otherwise the default counts, otherwise the global value.
pub open spec fn declared(
    args: Seq<(Seq<char>, Seq<char>)>,
    decls: Seq<ArgDecl>,
    globals: Map<Seq<char>, Seq<char>>,
) -> Seq<(Seq<char>, Seq<char>)>
    decreases decls.len(),
{
    if decls.len() == 0 {
        args
    } else {
        let before = declared(args, decls.drop_last(), globals);
        let d = decls.last();
        if vars::map_of(before).contains_key(d.name@) {
            before
        } else {
            match d.default {
                Some(v) => vars::with_pair(
                    before,
                    d.name@,
                    expand::expanded(v@, vars::map_of(before)),
                ),
                None => if globals.contains_key(d.name@) {
                    vars::with_pair(before, d.name@, globals[d.name@])
                } else {
                    before
                },
            }
        }
    }
}

/// The state after some `ENV` pairs: each one becomes a variable and an entry of
/// the image environment, and is seen by the next one.
pub open spec fn with_env_pairs(state: StateView, pairs: Seq<Pair>) -> StateView
    decreases pairs.len(),
{
    if pairs.len() == 0 {
        state
    } else {
        let before = with_env_pairs(state, pairs.drop_last());
        let p = pairs.last();
        let val = expand::expanded(p.value@, before.vars());
        StateView {
            args: vars::with_pair(before.args, p.key@, val),
            meta: MetaView { env: meta::env_with(before.meta.env, p.key@, val), ..before.meta },
            ..before
        }
    }
}

/// The labels after some `LABEL` pairs.
pub open spec fn with_labels(
    labels: Seq<(Seq<char>, Seq<char>)>,
    pairs: Seq<Pair>,
    vars: Map<Seq<char>, Seq<char>>,
) -> Seq<(Seq<char>, Seq<char>)>
    decreases pairs.len(),
{
    if pairs.len() == 0 {
        labels
    } else {
        vars::with_pair(
            with_labels(labels, pairs.drop_last(), vars),
            pairs.last().key@,
            expand::expanded(pairs.last().value@, vars),
        )
    }
}

/// The state after an instruction, the files of its root filesystem aside.
pub open spec fn applied(
    state: StateView,
    inst: Instruction,
    globals: Map<Seq<char>, Seq<char>>,
) -> StateView {
    let vars = state.vars();
    let m = state.meta;
    match inst {
        Instruction::Arg { decls } => StateView {
            args: declared(state.args, decls@, globals),
            ..state
        },
        Instruction::Env { pairs } => with_env_pairs(state, pairs@),
        Instruction::Label { pairs } => StateView {
            meta: MetaView { labels: with_labels(m.labels, pairs@, vars), ..m },
            ..state
        },
        Instruction::Workdir { path } => StateView {
            meta: MetaView {
                working_dir: fsutil::workdir_joined(
                    m.working_dir,
                    expand::expanded(path@, vars),
                ),
                ..m
            },
            ..state
        },
        Instruction::User { spec } => StateView {
            meta: MetaView { user: Some(expand::expanded(spec@, vars)), ..m },
            ..state
        },
        Instruction::Entrypoint { command } => StateView {
            meta: MetaView { entrypoint: Some(command_args(command, m.shell, vars)), ..m },
            ..state
        },
        Instruction::Cmd { command } => StateView {
            meta: MetaView { cmd: Some(command_args(command, m.shell, vars)), ..m },
            ..state
        },
        Instruction::Expose { ports } => StateView {
            meta: MetaView {
                exposed_ports: m.exposed_ports + expand::expanded_all(ports.deep_view(), vars),
                ..m
            },
            ..state
        },
        Instruction::Volume { paths } => StateView {
            meta: MetaView {
                volumes: m.volumes + expand::expanded_all(paths.deep_view(), vars),
                ..m
            },
            ..state
        },
        Instruction::Shell { args } => StateView {
            meta: MetaView { shell: args.deep_view(), ..m },
            ..state
        },
        _ => state,
    }
}

/// Declare build arguments.
fn apply_arg(state: &mut StageState, decls: &Vec<ArgDecl>, globals: &Vars)
    ensures
        final(state)@ == (StateView {
            args: declared(old(state)@.args, decls@, globals@),
            ..old(state)@
        }),
{
    let ghost before = state@;
    let mut args = state.args.copy();
    assert(decls@.take(0) =~= Seq::<ArgDecl>::empty());
    for i in 0..decls.len()
        invariant
            args.pairs() == declared(before.args, decls@.take(i as int), globals@),
    {
        assert(decls@.take(i + 1).drop_last() =~= decls@.take(i as int));
        let name = decls[i].name.as_str();
        if !args.contains_key(name) {
            match &decls[i].default {
                Some(v) => {
                    let val = expand(v.as_str(), &args);
                    args.insert(decls[i].name.clone(), val);
                },
                None => {
                    match globals.get(name) {
                        Some(v) => {
                            args.insert(decls[i].name.clone(), v.clone());
                        },
                        None => {},
                    }
                },
            }
        }
    }
    assert(decls@.take(decls@.len() as int) =~= decls@);
    state.args = args;
    assert(state@ =~= (StateView { args: declared(before.args, decls@, globals@), ..before }));
}

/// Set environment variables.
fn apply_env(state: &mut StageState, pairs: &Vec<Pair>)
    ensures
        final(state)@ == with_env_pairs(old(state)@, pairs@),
{
    let ghost before = state@;
    assert(pairs@.take(0) =~= Seq::<Pair>::empty());
    for i in 0..pairs.len()
        invariant
            state@ == with_env_pairs(before, pairs@.take(i as int)),
    {
        assert(pairs@.take(i + 1).drop_last() =~= pairs@.take(i as int));
        let ghost now = state@;
        let val = expand(pairs[i].value.as_str(), &stage_vars(state));
        let mut args = state.args.copy();
        args.insert(pairs[i].key.clone(), val.clone());
        state.args = args;
        state.meta.set_env(pairs[i].key.as_str(), val.as_str());
        assert(state@ =~= (StateView {
            args: vars::with_pair(now.args, pairs@[i as int].key@, val@),
            meta: MetaView {
                env: meta::env_with(now.meta.env, pairs@[i as int].key@, val@),
                ..now.meta
            },
            ..now
        }));
    }
    assert(pairs@.take(pairs@.len() as int) =~= pairs@);
}

/// Set labels.
fn apply_label(state: &mut StageState, pairs: &Vec<Pair>)
    ensures
        final(state)@ == (StateView {
            meta: MetaView {
                labels: with_labels(old(state)@.meta.labels, pairs@, old(state)@.vars()),
                ..old(state)@.meta
            },
            ..old(state)@
        }),
{
    let ghost before = state@;
    let vars = stage_vars(state);
    let mut labels = state.meta.labels.copy();
    assert(pairs@.take(0) =~= Seq::<Pair>::empty());
    for i in 0..pairs.len()
        invariant
            vars@ == before.vars(),
            labels.pairs() == with_labels(before.meta.labels, pairs@.take(i as int), before.vars()),
    {
        assert(pairs@.take(i + 1).drop_last() =~= pairs@.take(i as int));
        labels.insert(pairs[i].key.clone(), expand(pairs[i].value.as_str(), &vars));
    }
    assert(pairs@.take(pairs@.len() as int) =~= pairs@);
    state.meta.labels = labels;
    assert(state@ =~= (StateView {
        meta: MetaView {
            labels: with_labels(before.meta.labels, pairs@, before.vars()),
            ..before.meta
        },
        ..before
    }));
}

/// What an instruction does to the state, the files of its root filesystem aside.
pub fn apply_metadata(state: &mut StageState, inst: &Instruction, globals: &Vars)
    ensures
        final(state)@ == applied(old(state)@, *inst, globals@),
{
    let ghost before = state@;
    match inst {
        Instruction::Arg { decls } => {
            apply_arg(state, decls, globals);
        },
        Instruction::Env { pairs } => {
            apply_env(state, pairs);
        },
        Instruction::Label { pairs } => {
            apply_label(state, pairs);
        },
        Instruction::Workdir { path } => {
            let path = expand(path.as_str(), &stage_vars(state));
            state.meta.working_dir = join_workdir(state.meta.working_dir.as_str(), path.as_str());
        },
        Instruction::User { spec } => {
            state.meta.user = Some(expand(spec.as_str(), &stage_vars(state)));
        },
        Instruction::Entrypoint { command } => {
            let args = command_to_args(command, &state.meta.shell, &stage_vars(state));
            state.meta.entrypoint = Some(args);
        },
        Instruction::Cmd { command } => {
            let args = command_to_args(command, &state.meta.shell, &stage_vars(state));
            state.meta.cmd = Some(args);
        },
        Instruction::Expose { ports } => {
            let mut more = expand_vec(ports, &stage_vars(state));
            let ghost tail = more.deep_view();
            state.meta.exposed_ports.append(&mut more);
            assert(state.meta.exposed_ports.deep_view() =~= before.meta.exposed_ports + tail);
        },
        Instruction::Volume { paths } => {
            let mut more = expand_vec(paths, &stage_vars(state));
            let ghost tail = more.deep_view();
            state.meta.volumes.append(&mut more);
            assert(state.meta.volumes.deep_view() =~= before.meta.volumes + tail);
        },
        Instruction::Shell { args } => {
            state.meta.shell = args.clone();
        },
        _ => {},
    }
    assert(state@ =~= applied(before, *inst, globals@));
}

// ---------------------------------------------------------------------------
// What an instruction needs from outside
// ---------------------------------------------------------------------------

/// What has to be done to the root filesystem for an instruction.
#[derive(Debug)]
pub enum Work {
    /// Nothing.
    Nothing,
    /// Create a directory.
    MakeDir(HostPath),
    /// Copy sources, then write the here-documents of the instruction.
    Copy {
        /// Finished stage to copy from; the build context otherwise.
        from: Option<String>,
        /// Sources with variables replaced.
        sources: Vec<String>,
        /// Absolute guest destination.
        dest_guest: String,
    },
    /// Fetch the remote sources, copy the others from the build context, then write
    /// the here-documents of the instruction.
    Add {
        /// Remote sources with variables replaced.
        remote: Vec<String>,
        /// Other sources with variables replaced twice.
        local: Vec<String>,
        /// Number of sources.
        total: usize,
        /// Absolute guest destination.
        dest_guest: String,
    },
    /// Run a command.
    Run(RunRequest),
}

/// A [`Work`] with its texts as character sequences.
pub enum WorkView {
    Nothing,
    MakeDir(PathView),
    Copy { from: Option<Seq<char>>, sources: Seq<Seq<char>>, dest_guest: Seq<char> },
    Add { remote: Seq<Seq<char>>, local: Seq<Seq<char>>, total: nat, dest_guest: Seq<char> },
    Run(RunRequestView),
}

impl View for Work {
    type V = WorkView;

    open spec fn view(&self) -> WorkView {
        match self {
            Work::Nothing => WorkView::Nothing,
            Work::MakeDir(p) => WorkView::MakeDir(p@),
            Work::Copy { from, sources, dest_guest } => WorkView::Copy {
                from: from.deep_view(),
                sources: sources.deep_view(),
                dest_guest: dest_guest@,
            },
            Work::Add { remote, local, total, dest_guest } => WorkView::Add {
                remote: remote.deep_view(),
                local: local.deep_view(),
                total: *total as nat,
                dest_guest: dest_guest@,
            },
            Work::Run(r) => WorkView::Run(r@),
        }
    }
}

/// Whether some entry of `env` is for `key`.
pub open spec fn env_has(env: Seq<Seq<char>>, key: Seq<char>) -> bool {
    exists|i: int| 0 <= i < env.len() && text::has_prefix(#[trigger] env[i], key + "="@)
}

/// The environment of a `RUN`: the image environment, then the variables that it
/// has no entry for.
pub open spec fn run_env(
    env: Seq<Seq<char>>,
    args: Seq<(Seq<char>, Seq<char>)>,
) -> Seq<Seq<char>>
    decreases args.len(),
{
    if args.len() == 0 {
        env
    } else {
        let before = run_env(env, args.drop_last());
        let (k, v) = args.last();
        if env_has(before, k) {
            before
        } else {
            before.push(k + "="@ + v)
        }
    }
}

/// Whether some entry of `env` is for the variable whose `NAME=` is `prefix`.
fn any_with_prefix(env: &Vec<String>, prefix: &str) -> (r: bool)
    ensures
        r == exists|i: int|
            0 <= i < env.deep_view().len() && text::has_prefix(
                #[trigger] env.deep_view()[i],
                prefix@,
            ),
{
    let ghost all = env.deep_view();
    for i in 0..env.len()
        invariant
            all == env.deep_view(),
            forall|k: int| 0 <= k < i ==> !text::has_prefix(#[trigger] all[k], prefix@),
    {
        if starts_with(env[i].as_str(), prefix) {
            assert(text::has_prefix(all[i as int], prefix@));
            return true;
        }
    }
    false
}

/// The environment of a `RUN`.
pub fn run_environment(state: &StageState) -> (r: Vec<String>)
    ensures
        r.deep_view() == run_env(state@.meta.env, state@.args),
{
    let mut env = state.meta.env.clone();
    let ghost all = state.args.pairs();
    let n: usize = state.args.len();
    assert(all.take(0) =~= Seq::<(Seq<char>, Seq<char>)>::empty());
    for i in 0..n
        invariant
            all == state.args.pairs(),
            n == all.len(),
            env.deep_view() == run_env(state@.meta.env, all.take(i as int)),
    {
        assert(all.take(i + 1).drop_last() =~= all.take(i as int));
        let (k, v) = state.args.at(i);
        let prefix = k.clone().concat("=");
        let ghost seen = env.deep_view();
        if !any_with_prefix(&env, prefix.as_str()) {
            let t = prefix.concat(v.as_str());
            env.push(t);
            assert(env.deep_view() =~= seen.push(t@));
        }
    }
    assert(all.take(all.len() as int) =~= all);
    env
}

/// Here-documents appended to a script, a line feed between each two parts.
pub open spec fn with_heredocs(body: Seq<char>, heredocs: Seq<Heredoc>) -> Seq<char>
    decreases heredocs.len(),
{
    if heredocs.len() == 0 {
        body
    } else {
        let before = with_heredocs(body, heredocs.drop_last());
        if before.len() == 0 {
            heredocs.last().body@
        } else {
            before + "\n"@ + heredocs.last().body@
        }
    }
}

/// The process arguments of a `RUN`: with here-documents, the shell runs the
/// command text followed by the documents.
pub open spec fn run_args(
    command: Command,
    heredocs: Seq<Heredoc>,
    shell: Seq<Seq<char>>,
    vars: Map<Seq<char>, Seq<char>>,
) -> Seq<Seq<char>> {
    if heredocs.len() == 0 {
        command_args(command, shell, vars)
    } else {
        shell.push(
            with_heredocs(
                match command {
                    Command::Shell(s) => expand::expanded(s@, vars),
                    Command::Exec(_) => Seq::empty(),
                },
                heredocs,
            ),
        )
    }
}

/// The process arguments of a `RUN`.
pub fn run_arguments(command: &Command, heredocs: &Vec<Heredoc>, state: &StageState) -> (r: Vec<
    String,
>)
    ensures
        r.deep_view() == run_args(*command, heredocs@, state@.meta.shell, state@.vars()),
{
    let vars = stage_vars(state);
    if heredocs.len() == 0 {
        return command_to_args(command, &state.meta.shell, &vars);
    }
    let mut body = match command {
        Command::Shell(s) => expand(s.as_str(), &vars),
        Command::Exec(_) => String::new(),
    };
    let ghost first = match command {
        Command::Shell(s) => expand::expanded(s@, vars@),
        Command::Exec(_) => Seq::<char>::empty(),
    };
    assert(body@ =~= first);
    assert(heredocs@.take(0) =~= Seq::<Heredoc>::empty());
    for i in 0..heredocs.len()
        invariant
            body@ == with_heredocs(first, heredocs@.take(i as int)),
    {
        assert(heredocs@.take(i + 1).drop_last() =~= heredocs@.take(i as int));
        if !body.as_str().is_empty() {
            body.append("\n");
        } else {
            assert(body@ + heredocs@[i as int].body@ =~= heredocs@[i as int].body@);
        }
        body.append(heredocs[i].body.as_str());
    }
    assert(heredocs@.take(heredocs@.len() as int) =~= heredocs@);
    let mut shell = state.meta.shell.clone();
    let ghost before = shell.deep_view();
    shell.push(body);
    assert(shell.deep_view() =~= before.push(body@));
    shell
}

/// The network of a `RUN`: its own flag, or the one of the build.
pub open spec fn run_network(
    flag: Option<Seq<char>>,
    default: NetworkMode,
) -> Result<NetworkMode, ErrorView> {
    match flag {
        None => Ok(default),
        Some(name) => match backend::network_named(name) {
            Some(m) => Ok(m),
            None => Err(ErrorView::Other(backend::unknown_network(name))),
        },
    }
}

/// The absolute guest destination of a `COPY` or `ADD`.
pub open spec fn destination_of(state: StateView, destination: Seq<char>) -> Seq<char> {
    fsutil::workdir_joined(state.meta.working_dir, expand::expanded(destination, state.vars()))
}

/// What has to be done to the root filesystem for an instruction, in the state
/// that [`applied`] leads to.
pub open spec fn work_of(
    host: Host,
    state: StateView,
    inst: Instruction,
    network: NetworkMode,
) -> Result<WorkView, ErrorView> {
    match inst {
        Instruction::Workdir { .. } => Ok(
            WorkView::MakeDir(
                winpath::pushed(
                    host,
                    state.rootfs,
                    fsutil::without_leading(state.meta.working_dir, '/'),
                ),
            ),
        ),
        Instruction::Copy { sources, destination, flags, .. } => Ok(
            WorkView::Copy {
                from: dockerfile::flag_value(flags@, "from"@),
                sources: expand::expanded_all(sources.deep_view(), state.vars()),
                dest_guest: destination_of(state, destination@),
            },
        ),
        Instruction::Add { sources, destination, .. } => {
            let all = expand::expanded_all(sources.deep_view(), state.vars());
            Ok(
                WorkView::Add {
                    remote: copying::sources_where(all, true),
                    local: expand::expanded_all(copying::sources_where(all, false), state.vars()),
                    total: all.len(),
                    dest_guest: destination_of(state, destination@),
                },
            )
        },
        Instruction::Run { command, heredocs, flags } => match run_network(
            dockerfile::flag_value(flags@, "network"@),
            network,
        ) {
            Err(e) => Err(e),
            Ok(mode) => Ok(
                WorkView::Run(
                    RunRequestView {
                        rootfs: state.rootfs,
                        args: run_args(command, heredocs@, state.meta.shell, state.vars()),
                        env: run_env(state.meta.env, state.args),
                        cwd: state.meta.working_dir,
                        user: state.meta.user,
                        network: mode,
                    },
                ),
            ),
        },
        _ => Ok(WorkView::Nothing),
    }
}

/// The status that the progress display shows while the work is done.
pub open spec fn work_status(work: WorkView) -> Option<Seq<char>> {
    match work {
        WorkView::Copy { dest_guest, .. } => Some("copying to "@ + dest_guest),
        WorkView::Add { dest_guest, .. } => Some("adding to "@ + dest_guest),
        WorkView::Run(_) => Some("running"@),
        _ => None,
    }
}

/// What has to be done to the root filesystem for an instruction.
pub fn plan_work(host: Host, state: &StageState, inst: &Instruction, network: NetworkMode) -> (r:
    Result<Work, Error>)
    ensures
        match r {
            Ok(w) => work_of(host, state@, *inst, network) == Ok::<WorkView, ErrorView>(w@),
            Err(e) => work_of(host, state@, *inst, network) == Err::<WorkView, ErrorView>(e@),
        },
{
    match inst {
        Instruction::Workdir { .. } => Ok(
            Work::MakeDir(guest_to_host(host, &state.rootfs, state.meta.working_dir.as_str())),
        ),
        Instruction::Copy { sources, destination, flags, .. } => {
            let vars = stage_vars(state);
            let dest = expand(destination.as_str(), &vars);
            Ok(
                Work::Copy {
                    from: find_flag(flags, "from"),
                    sources: expand_vec(sources, &vars),
                    dest_guest: join_workdir(state.meta.working_dir.as_str(), dest.as_str()),
                },
            )
        },
        Instruction::Add { sources, destination, .. } => {
            let vars = stage_vars(state);
            let dest = expand(destination.as_str(), &vars);
            let all = expand_vec(sources, &vars);
            let (remote, local) = split_sources(&all);
            Ok(
                Work::Add {
                    remote,
                    local: expand_vec(&local, &vars),
                    total: all.len(),
                    dest_guest: join_workdir(state.meta.working_dir.as_str(), dest.as_str()),
                },
            )
        },
        Instruction::Run { command, heredocs, flags } => {
            let mode = match find_flag(flags, "network") {
                None => network,
                Some(name) => match NetworkMode::parse(name.as_str()) {
                    Ok(m) => m,
                    Err(e) => {
                        return Err(e);
                    },
                },
            };
            let request = RunRequest {
                rootfs: state.rootfs.copy(),
                args: run_arguments(command, heredocs, state),
                env: run_environment(state),
                cwd: state.meta.working_dir.clone(),
                user: copy_text(&state.meta.user),
                network: mode,
            };
            Ok(Work::Run(request))
        },
        _ => Ok(Work::Nothing),
    }
}

/// The events of an instruction that is applied as vertex `id`.
pub open spec fn work_events(id: u32, work: Result<WorkView, ErrorView>) -> Seq<BuildEventView> {
    match work {
        Ok(w) => match work_status(w) {
            Some(status) => seq![BuildEventView::VertexStatus { id, status }],
            None => Seq::empty(),
        },
        Err(_) => Seq::empty(),
    }
}

/// Apply an instruction: the state changes as far as the image config and the
/// variables go, and the result says what has to be done to the root filesystem.
pub fn apply_instruction<R: BuildProgress>(
    host: Host,
    state: &mut StageState,
    inst: &Instruction,
    globals: &Vars,
    network: NetworkMode,
    progress: &mut ProgressEmitter<R>,
    vertex_id: u32,
) -> (r: Result<Work, Error>)
    ensures
        final(state)@ == applied(old(state)@, *inst, globals@),
        match r {
            Ok(w) => work_of(host, final(state)@, *inst, network) == Ok::<WorkView, ErrorView>(w@),
            Err(e) => work_of(host, final(state)@, *inst, network) == Err::<WorkView, ErrorView>(
                e@,
            ),
        },
        progress::emitted(
            *old(progress),
            work_events(vertex_id, work_of(host, final(state)@, *inst, network)),
            0,
            *final(progress),
        ),
{
    apply_metadata(state, inst, globals);
    let work = plan_work(host, state, inst, network);
    match &work {
        Ok(Work::Copy { dest_guest, .. }) => {
            progress.status(
                vertex_id,
                "copying to ".to_owned().concat(dest_guest.as_str()).as_str(),
            );
        },
        Ok(Work::Add { dest_guest, .. }) => {
            progress.status(
                vertex_id,
                "adding to ".to_owned().concat(dest_guest.as_str()).as_str(),
            );
        },
        Ok(Work::Run(_)) => {
            progress.status(vertex_id, "running");
        },
        _ => {},
    }
    work
}

/// `ENV` pairs leave everything but the variables and the image environment.
proof fn lemma_env_pairs_keep_rootfs(state: StateView, pairs: Seq<Pair>)
    ensures
        with_env_pairs(state, pairs).rootfs == state.rootfs,
        with_env_pairs(state, pairs).rootfs_shared == state.rootfs_shared,
        with_env_pairs(state, pairs).work_rootfs == state.work_rootfs,
        with_env_pairs(state, pairs).layer_id == state.layer_id,
    decreases pairs.len(),
{
    if pairs.len() > 0 {
        lemma_env_pairs_keep_rootfs(state, pairs.drop_last());
    }
}

/// No instruction changes which root filesystem a stage stands on, nor its layer.
pub proof fn instructions_keep_the_rootfs(
    state: StateView,
    inst: Instruction,
    globals: Map<Seq<char>, Seq<char>>,
)
    ensures
        applied(state, inst, globals).rootfs == state.rootfs,
        applied(state, inst, globals).rootfs_shared == state.rootfs_shared,
        applied(state, inst, globals).work_rootfs == state.work_rootfs,
        applied(state, inst, globals).layer_id == state.layer_id,
{
    match inst {
        Instruction::Env { pairs } => {
            lemma_env_pairs_keep_rootfs(state, pairs@);
        },
        _ => {},
    }
}

/// Declarations leave the arguments alone that are set already.
proof fn lemma_declared_keeps(
    args: Seq<(Seq<char>, Seq<char>)>,
    decls: Seq<ArgDecl>,
    globals: Map<Seq<char>, Seq<char>>,
    name: Seq<char>,
)
    requires
        vars::distinct_keys(args),
        vars::map_of(args).contains_key(name),
    ensures
        vars::distinct_keys(declared(args, decls, globals)),
        vars::map_of(declared(args, decls, globals)).contains_key(name),
        vars::map_of(declared(args, decls, globals))[name] == vars::map_of(args)[name],
    decreases decls.len(),
{
    if decls.len() > 0 {
        lemma_declared_keeps(args, decls.drop_last(), globals, name);
        let before = declared(args, decls.drop_last(), globals);
        let d = decls.last();
        match d.default {
            Some(v) => {
                vars::lemma_with_pair(
                    before,
                    d.name@,
                    expand::expanded(v@, vars::map_of(before)),
                );
            },
            None => {
                vars::lemma_with_pair(before, d.name@, globals[d.name@]);
            },
        }
    }
}

/// `ENV` pairs leave the variables alone that they do not name.
proof fn lemma_env_pairs_keep(state: StateView, pairs: Seq<Pair>, name: Seq<char>)
    requires
        vars::distinct_keys(state.args),
        vars::map_of(state.args).contains_key(name),
        forall|i: int| 0 <= i < pairs.len() ==> (#[trigger] pairs[i]).key@ != name,
    ensures
        vars::distinct_keys(with_env_pairs(state, pairs).args),
        vars::map_of(with_env_pairs(state, pairs).args).contains_key(name),
        vars::map_of(with_env_pairs(state, pairs).args)[name] == vars::map_of(state.args)[name],
    decreases pairs.len(),
{
    if pairs.len() > 0 {
        let rest = pairs.drop_last();
        assert forall|i: int| 0 <= i < rest.len() implies (#[trigger] rest[i]).key@ != name by {
            assert(rest[i] == pairs[i]);
        }
        lemma_env_pairs_keep(state, rest, name);
        let before = with_env_pairs(state, rest);
        let p = pairs[pairs.len() - 1];
        vars::lemma_with_pair(before.args, p.key@, expand::expanded(p.value@, before.vars()));
    }
}

/// A build argument of the request stays what it is: no instruction changes a variable
/// that is set, but for an `ENV` of that name. In particular the default of an `ARG`
/// does not replace it.
pub proof fn requested_arguments_stay(
    state: StateView,
    inst: Instruction,
    globals: Map<Seq<char>, Seq<char>>,
    name: Seq<char>,
)
    requires
        vars::distinct_keys(state.args),
        vars::map_of(state.args).contains_key(name),
        inst matches Instruction::Env { pairs } ==> forall|i: int|
            0 <= i < pairs@.len() ==> (#[trigger] pairs@[i]).key@ != name,
    ensures
        vars::map_of(applied(state, inst, globals).args).contains_key(name),
        vars::map_of(applied(state, inst, globals).args)[name] == vars::map_of(state.args)[name],
{
    match inst {
        Instruction::Arg { decls } => {
            lemma_declared_keeps(state.args, decls@, globals, name);
        },
        Instruction::Env { pairs } => {
            lemma_env_pairs_keep(state, pairs@, name);
        },
        _ => {},
    }
}

/// Instructions that are parsed but not supported change nothing and need nothing.
pub proof fn ignored_instructions_change_nothing(
    host: Host,
    state: StateView,
    inst: Instruction,
    globals: Map<Seq<char>, Seq<char>>,
    network: NetworkMode,
)
    requires
        inst is Maintainer || inst is OnBuild || inst is StopSignal || inst is Healthcheck
            || inst is Unknown,
    ensures
        applied(state, inst, globals) == state,
        work_of(host, state, inst, network) == Ok::<WorkView, ErrorView>(WorkView::Nothing),
{
}

/// `WORKDIR`, `USER` and `SHELL` apply to a later `RUN`: it gets the directory and
/// the user that were set last, and the shell that was set last runs a command that is
/// one text.
pub proof fn settings_reach_later_runs(
    host: Host,
    state: StateView,
    workdir: Instruction,
    user: Instruction,
    shell: Instruction,
    run: Instruction,
    globals: Map<Seq<char>, Seq<char>>,
    network: NetworkMode,
)
    requires
        workdir is Workdir,
        user is User,
        shell is Shell,
        run is Run,
    ensures
        ({
            let a = applied(state, workdir, globals);
            let b = applied(a, user, globals);
            let c = applied(b, shell, globals);
            work_of(host, applied(c, run, globals), run, network) matches Ok(w) ==> {
                &&& w is Run
                &&& w->Run_0.cwd == fsutil::workdir_joined(
                    state.meta.working_dir,
                    expand::expanded(workdir->Workdir_path@, state.vars()),
                )
                &&& w->Run_0.user == Some(expand::expanded(user->User_spec@, a.vars()))
                &&& run->Run_command matches Command::Shell(_)
                    ==> shell->Shell_args.deep_view().is_prefix_of(w->Run_0.args)
            }
        }),
{
}

/// The environment of a `RUN` begins with the image environment.
proof fn lemma_run_env_begins(env: Seq<Seq<char>>, args: Seq<(Seq<char>, Seq<char>)>)
    ensures
        env.is_prefix_of(run_env(env, args)),
    decreases args.len(),
{
    if args.len() > 0 {
        lemma_run_env_begins(env, args.drop_last());
    }
}

/// A variable that `ENV` set last is in the environment of a later `RUN`, with its
/// variables replaced.
pub proof fn environment_reaches_later_runs(
    state: StateView,
    env: Instruction,
    globals: Map<Seq<char>, Seq<char>>,
)
    requires
        env is Env,
        env->Env_pairs@.len() > 0,
    ensures
        ({
            let pairs = env->Env_pairs@;
            let before = with_env_pairs(state, pairs.drop_last());
            let after = applied(state, env, globals);
            run_env(after.meta.env, after.args).contains(
                pairs.last().key@ + "="@ + expand::expanded(pairs.last().value@, before.vars()),
            )
        }),
{
    let pairs = env->Env_pairs@;
    let before = with_env_pairs(state, pairs.drop_last());
    let after = applied(state, env, globals);
    let entry = pairs.last().key@ + "="@ + expand::expanded(pairs.last().value@, before.vars());
    let n = after.meta.env.len() - 1;
    assert(after.meta.env[n] == entry);
    lemma_run_env_begins(after.meta.env, after.args);
    assert(run_env(after.meta.env, after.args)[n] == entry);
}

} // verus!
