//! The course of a build: stages, steps, cache decisions and progress events.

use std::time::Duration;

use vstd::prelude::*;

use crate::cache::{self, chain_id, from_cache_key, instruction_cache_key, Donor};
use crate::config::BaseConfig;
use crate::dockerfile::{ArgDecl, Dockerfile, Instruction, Stage};
use crate::error::{self, Error, ErrorView};
use crate::expand::{self, expand};
use crate::fs::{self, copy_tree, no_steps, push_must, push_steps, FsOp, FsOpView, RelOp, Step, StepView};
use crate::meta::{self, ImageMeta, MetaView};
use crate::path::{HostPath, PathView};
use crate::platform::{self, Platform, PlatformView};
use crate::progress::{self, BuildEvent, BuildEventView, BuildProgress, ProgressEmitter};
use crate::request::BuildRequest;
use crate::stage::{self, apply_metadata, instruction_summary, StageState, StateView};
use crate::text::{self, number, parse_usize, same_text, to_lower};
use crate::tree::{Entry, Node};
use crate::vars::{self, Vars};

verus! {

/// A time span of whole seconds.
pub uninterp spec fn seconds(n: u64) -> Duration;

/// `Duration::from_secs`: a span of `n` seconds.
#[verifier::external_body]
fn whole_seconds(n: u64) -> (r: Duration)
    ensures
        r == seconds(n),
{
    Duration::from_secs(n)
}

// ---------------------------------------------------------------------------
// Planning
// ---------------------------------------------------------------------------

/// What a build is going to do, as far as the Dockerfile and the request say.
#[derive(Debug)]
pub struct BuildPlan {
    /// Stages in file order.
    pub stages: Vec<Stage>,
    /// Values of the arguments declared before the first `FROM`, and those given
    /// on the command line.
    pub global_args: Vars,
    /// Platform of the image.
    pub platform: Platform,
    /// Tags to write.
    pub tags: Vec<String>,
    /// The stage after which the build ends.
    pub target: usize,
}

/// The position of the first stage called `name`, or the number of stages.
pub open spec fn stage_named(stages: Seq<Stage>, name: Seq<char>) -> int
    decreases stages.len(),
{
    if stages.len() == 0 || (stages[0].name matches Some(n) && n@ == name) {
        0
    } else {
        1 + stage_named(stages.skip(1), name)
    }
}

/// The stage after which a build ends: the last one, or the one that the target
/// names by its number or by its name.
pub open spec fn stage_index(stages: Seq<Stage>, target: Option<Seq<char>>) -> Result<
    int,
    Seq<char>,
> {
    match target {
        None => Ok(stages.len() - 1),
        Some(name) => match text::parsed_usize(name) {
            Some(i) if i < stages.len() => Ok(i as int),
            _ => if stage_named(stages, name) < stages.len() {
                Ok(stage_named(stages, name))
            } else {
                Err("unknown build target stage '"@ + name + "'"@)
            },
        },
    }
}

/// The stage after which a build ends.
pub fn select_stage(stages: &Vec<Stage>, target: &Option<String>) -> (r: Result<usize, Error>)
    requires
        stages@.len() > 0,
    ensures
        match r {
            Ok(i) => stage_index(stages@, target.deep_view()) == Ok::<int, Seq<char>>(i as int) && i
                < stages@.len(),
            Err(e) => stage_index(stages@, target.deep_view()) matches Err(m) && e@
                == ErrorView::Other(m),
        },
{
    match target {
        None => Ok(stages.len() - 1),
        Some(name) => {
            let by_number: Option<usize> = parse_usize(name.as_str());
            if let Some(i) = by_number {
                if i < stages.len() {
                    return Ok(i);
                }
            }
            assert(stages@.skip(0) =~= stages@);
            for i in 0..stages.len()
                invariant
                    stage_named(stages@, name@) == i + stage_named(stages@.skip(i as int), name@),
                    target.deep_view() == Some(name@),
                    text::parsed_usize(name@) matches Some(n) ==> n >= stages@.len(),
            {
                assert(stages@.skip(i as int).skip(1) =~= stages@.skip(i + 1));
                if let Some(n) = &stages[i].name {
                    if same_text(n.as_str(), name.as_str()) {
                        return Ok(i);
                    }
                }
            }
            Err(
                Error::Other(
                    "unknown build target stage '".to_owned().concat(name.as_str()).concat("'"),
                ),
            )
        },
    }
}

/// The arguments declared before the first `FROM`: a value given on the command
/// line counts, otherwise the default, in which earlier arguments are replaced.
pub open spec fn declared_globals(
    decls: Seq<ArgDecl>,
    cli: Map<Seq<char>, Seq<char>>,
) -> Map<Seq<char>, Seq<char>>
    decreases decls.len(),
{
    if decls.len() == 0 {
        Map::empty()
    } else {
        let before = declared_globals(decls.drop_last(), cli);
        let d = decls.last();
        if cli.contains_key(d.name@) {
            before.insert(d.name@, cli[d.name@])
        } else {
            match d.default {
                Some(v) => before.insert(d.name@, expand::expanded(v@, before)),
                None => before,
            }
        }
    }
}

/// The global arguments: the declared ones, and those given on the command line.
pub open spec fn globals(
    decls: Seq<ArgDecl>,
    cli: Map<Seq<char>, Seq<char>>,
) -> Map<Seq<char>, Seq<char>> {
    cli.union_prefer_right(declared_globals(decls, cli))
}

/// The global arguments of a build.
pub fn resolve_global_args(decls: &Vec<ArgDecl>, cli: &Vars) -> (r: Vars)
    ensures
        r@ == globals(decls@, cli@),
{
    let mut out = Vars::new();
    assert(decls@.take(0) =~= Seq::<ArgDecl>::empty());
    for i in 0..decls.len()
        invariant
            out@ == declared_globals(decls@.take(i as int), cli@),
    {
        assert(decls@.take(i + 1).drop_last() =~= decls@.take(i as int));
        match cli.get(decls[i].name.as_str()) {
            Some(v) => {
                out.insert(decls[i].name.clone(), v.clone());
            },
            None => {
                match &decls[i].default {
                    Some(d) => {
                        let val = expand(d.as_str(), &out);
                        out.insert(decls[i].name.clone(), val);
                    },
                    None => {},
                }
            },
        }
    }
    assert(decls@.take(decls@.len() as int) =~= decls@);
    let ghost declared = out@;
    let n: usize = cli.len();
    let ghost all = cli.pairs();
    proof {
        assert(vars::map_of(all.take(0)).union_prefer_right(declared) =~= declared);
    }
    for i in 0..n
        invariant
            n == all.len(),
            all == cli.pairs(),
            vars::distinct_keys(all),
            out@ == vars::map_of(all.take(i as int)).union_prefer_right(declared),
    {
        let (k, v) = cli.at(i);
        proof {
            lemma_map_of_take(all, i as int);
        }
        if !out.contains_key(k.as_str()) {
            out.insert(k.clone(), v.clone());
        }
        assert(out@ =~= vars::map_of(all.take(i + 1)).union_prefer_right(declared));
    }
    assert(all.take(all.len() as int) =~= all);
    out
}

/// One more pair with a new key adds that key.
proof fn lemma_map_of_take(pairs: Seq<(Seq<char>, Seq<char>)>, i: int)
    requires
        vars::distinct_keys(pairs),
        0 <= i < pairs.len(),
    ensures
        vars::map_of(pairs.take(i + 1)) == vars::map_of(pairs.take(i)).insert(
            pairs[i].0,
            pairs[i].1,
        ),
        !vars::map_of(pairs.take(i)).contains_key(pairs[i].0),
{
    let a = pairs.take(i);
    let b = pairs.take(i + 1);
    assert(b.drop_last() =~= a);
    assert(b.last() == pairs[i]);
    vars::lemma_lookup(a, pairs[i].0);
    if vars::lookup(a, pairs[i].0) is Some {
        let k = choose|k: int| 0 <= k < a.len() && (#[trigger] a[k]).0 == pairs[i].0;
        assert(pairs[k].0 != pairs[i].0);
    }
    assert(vars::map_of(b) =~= vars::map_of(a).insert(pairs[i].0, pairs[i].1));
}

/// The tags that a build writes.
pub open spec fn tags_or_default(tags: Seq<Seq<char>>) -> Seq<Seq<char>> {
    if tags.len() == 0 {
        seq!["buildkit:latest"@]
    } else {
        tags
    }
}

/// Why a Dockerfile and a request make no plan.
pub open spec fn plan_error(stages: Seq<Stage>, target: Option<Seq<char>>) -> Option<Seq<char>> {
    if stages.len() == 0 {
        Some("dockerfile: no FROM instruction found"@)
    } else {
        match stage_index(stages, target) {
            Err(m) => Some(m),
            Ok(_) => None,
        }
    }
}

/// Plan a build. `default_platform` counts where the request names none.
pub fn plan_build(dockerfile: Dockerfile, request: &BuildRequest, default_platform: Platform) -> (r:
    Result<BuildPlan, Error>)
    ensures
        match r {
            Err(e) => plan_error(dockerfile.stages@, request@.target) matches Some(m) && e@
                == ErrorView::Other(m),
            Ok(p) => {
                &&& plan_error(dockerfile.stages@, request@.target) is None
                &&& p.stages == dockerfile.stages
                &&& stage_index(p.stages@, request@.target) == Ok::<int, Seq<char>>(p.target as int)
                &&& p.target < p.stages@.len()
                &&& p.global_args@ == globals(dockerfile.args@, request.build_args@)
                &&& p.platform@ == (match request@.platform {
                    Some(x) => x,
                    None => default_platform@,
                })
                &&& p.tags.deep_view() == tags_or_default(request@.tags)
            },
        },
{
    if dockerfile.stages.len() == 0 {
        return Err(Error::other("dockerfile: no FROM instruction found"));
    }
    let global_args = resolve_global_args(&dockerfile.args, &request.build_args);
    let platform = match &request.platform {
        Some(p) => p.copy(),
        None => default_platform,
    };
    let tags = if request.tags.len() == 0 {
        let tags = vec!["buildkit:latest".to_owned()];
        assert(tags.deep_view() =~= seq!["buildkit:latest"@]);
        tags
    } else {
        request.tags.clone()
    };
    let ghost stages = dockerfile.stages@;
    let target: usize = match select_stage(&dockerfile.stages, &request.target) {
        Ok(i) => i,
        Err(e) => {
            return Err(e);
        },
    };
    Ok(BuildPlan { stages: dockerfile.stages, global_args, platform, tags, target })
}

/// The path of the Dockerfile: relative to the context unless absolute.
pub fn dockerfile_path(context: &HostPath, dockerfile: &HostPath) -> (r: HostPath)
    ensures
        r@ == (if dockerfile@.anchor.len() > 0 {
            dockerfile@
        } else {
            PathView { anchor: context@.anchor, parts: context@.parts + dockerfile@.parts }
        }),
{
    if !dockerfile.anchor.as_str().is_empty() {
        dockerfile.copy()
    } else {
        let mut out = context.copy();
        let mut more = dockerfile.parts.clone();
        let ghost a = out.parts.deep_view();
        let ghost b = more.deep_view();
        out.parts.append(&mut more);
        assert(out.parts.deep_view() =~= a + b);
        out
    }
}

/// The failure to read the Dockerfile at `path`.
pub fn dockerfile_unreadable(path: &HostPath, kind: error::IoKind, code: Option<i32>, reason: &str) -> (r:
    Error)
    ensures
        r@ == (ErrorView::Io {
            path: path@.shown(),
            kind,
            code,
            source: "failed to read Dockerfile: "@ + reason@,
        }),
{
    Error::io(
        path.to_text().as_str(),
        kind,
        code,
        "failed to read Dockerfile: ".to_owned().concat(reason).as_str(),
    )
}

// ---------------------------------------------------------------------------
// Progress of the build as a whole
// ---------------------------------------------------------------------------

/// Announce the build and the loading of its definition; the result is the
/// vertex of the latter.
pub fn build_start<R: BuildProgress>(progress: &mut ProgressEmitter<R>) -> (r: u32)
    requires
        old(progress).next_id < u32::MAX,
    ensures
        r == old(progress).next_id,
        progress::emitted(
            *old(progress),
            seq![
                BuildEventView::BuildStart { builder: "buildkit"@ },
                BuildEventView::VertexStart {
                    id: r,
                    name: "[internal] load build definition from Dockerfile"@,
                },
            ],
            1,
            *final(progress),
        ),
{
    let ghost p0 = *progress;
    progress.emit(BuildEvent::BuildStart { builder: "buildkit".to_owned() });
    let ghost p1 = *progress;
    let id: u32 = progress.start("[internal] load build definition from Dockerfile");
    proof {
        let a = seq![BuildEventView::BuildStart { builder: "buildkit"@ }];
        let b = seq![
            BuildEventView::VertexStart {
                id,
                name: "[internal] load build definition from Dockerfile"@,
            },
        ];
        progress::lemma_emitted_add(p0, a, 0, p1, b, 1, *progress);
        assert(a + b =~= seq![
            BuildEventView::BuildStart { builder: "buildkit"@ },
            BuildEventView::VertexStart {
                id,
                name: "[internal] load build definition from Dockerfile"@,
            },
        ]);
    }
    id
}

/// Report that the definition of `len` bytes is loaded.
pub fn definition_loaded<R: BuildProgress>(
    progress: &mut ProgressEmitter<R>,
    id: u32,
    len: u64,
    elapsed: Duration,
)
    ensures
        progress::emitted(
            *old(progress),
            seq![
                BuildEventView::VertexStatus {
                    id,
                    status: "transferring dockerfile: "@ + text::decimal(len as nat) + "B"@,
                },
                BuildEventView::VertexDone { id, cached: false, duration: elapsed },
            ],
            0,
            *final(progress),
        ),
{
    let ghost p0 = *progress;
    progress.status(
        id,
        "transferring dockerfile: ".to_owned().concat(number(len).as_str()).concat("B").as_str(),
    );
    let ghost p1 = *progress;
    progress.done(id, elapsed);
    proof {
        let a = seq![
            BuildEventView::VertexStatus {
                id,
                status: "transferring dockerfile: "@ + text::decimal(len as nat) + "B"@,
            },
        ];
        let b = seq![BuildEventView::VertexDone { id, cached: false, duration: elapsed }];
        progress::lemma_emitted_add(p0, a, 0, p1, b, 0, *progress);
        assert(a + b =~= seq![a[0], b[0]]);
    }
}

/// Start the vertex for the build context.
pub fn context_start<R: BuildProgress>(progress: &mut ProgressEmitter<R>, context: &HostPath) -> (r:
    u32)
    requires
        old(progress).next_id < u32::MAX,
    ensures
        r == old(progress).next_id,
        progress::emitted(
            *old(progress),
            seq![
                BuildEventView::VertexStart { id: r, name: "[internal] load build context"@ },
                BuildEventView::VertexStatus { id: r, status: "context: "@ + context@.shown() },
            ],
            1,
            *final(progress),
        ),
{
    let ghost p0 = *progress;
    let id: u32 = progress.start("[internal] load build context");
    let ghost p1 = *progress;
    progress.status(id, "context: ".to_owned().concat(context.to_text().as_str()).as_str());
    proof {
        let a = seq![
            BuildEventView::VertexStart { id, name: "[internal] load build context"@ },
        ];
        let b = seq![
            BuildEventView::VertexStatus { id, status: "context: "@ + context@.shown() },
        ];
        progress::lemma_emitted_add(p0, a, 1, p1, b, 0, *progress);
        assert(a + b =~= seq![a[0], b[0]]);
    }
    id
}

/// Report a failed vertex and hand its error on.
pub fn fail_vertex<R: BuildProgress>(
    progress: &mut ProgressEmitter<R>,
    id: u32,
    err: Error,
    elapsed: Duration,
) -> (r: Error)
    ensures
        r == err,
        progress::emitted(
            *old(progress),
            seq![
                BuildEventView::VertexError {
                    id,
                    error: error::error_text(err@),
                    duration: elapsed,
                },
            ],
            0,
            *final(progress),
        ),
{
    progress.error(id, err.message().as_str(), elapsed);
    err
}

// ---------------------------------------------------------------------------
// The base of a stage
// ---------------------------------------------------------------------------

/// `stage-<n>`.
pub open spec fn stage_dir_name(idx: nat) -> Seq<char> {
    "stage-"@ + text::decimal(idx)
}

/// Directory of the stage `idx` under the work directory.
pub fn stage_dir(work: &HostPath, idx: usize) -> (r: HostPath)
    ensures
        r@ == work@.child(stage_dir_name(idx as nat)),
{
    work.join("stage-".to_owned().concat(number(idx as u64).as_str()).as_str())
}

/// The platform of a stage: its own, or the one of the build.
pub open spec fn platform_of(stage: Stage, default: PlatformView) -> Result<
    PlatformView,
    Seq<char>,
> {
    match stage.platform {
        None => Ok(default),
        Some(spec) => platform::parsed_platform(spec@),
    }
}

/// The platform of a stage.
pub fn stage_platform(stage: &Stage, default: &Platform) -> (r: Result<Platform, Error>)
    ensures
        match r {
            Ok(p) => platform_of(*stage, default@) == Ok::<PlatformView, Seq<char>>(p@),
            Err(e) => platform_of(*stage, default@) matches Err(m) && e@ == ErrorView::Other(m),
        },
{
    match &stage.platform {
        None => Ok(default.copy()),
        Some(spec) => match Platform::parse(spec.as_str()) {
            Ok(p) => Ok(p),
            Err(m) => Err(Error::Other(m)),
        },
    }
}

/// Whether a base image name stands for the empty image.
pub open spec fn names_scratch(base: Seq<char>) -> bool {
    text::lowered(base) == "scratch"@
}

/// A stage whose base is being prepared.
#[derive(Debug)]
pub struct FromStep {
    /// Name of the stage in the progress display.
    pub label: String,
    /// Number of steps of the stage, its `FROM` line included.
    pub total: u64,
    /// Base image with variables replaced.
    pub base: String,
    /// Whether the base is the empty image.
    pub scratch: bool,
    /// Platform of the stage.
    pub platform: Platform,
    /// Directory of the stage.
    pub dir: HostPath,
    /// Vertex of the `FROM` line.
    pub vertex: u32,
}

/// The name of a stage in the progress display.
pub open spec fn stage_label(stage: Stage, idx: nat) -> Seq<char> {
    match stage.name {
        Some(n) => n@,
        None => stage_dir_name(idx),
    }
}

/// The name of a step in the progress display.
pub open spec fn step_name(label: Seq<char>, step: nat, total: nat, what: Seq<char>) -> Seq<char> {
    "["@ + label + " "@ + text::decimal(step) + "/"@ + text::decimal(total) + "] "@ + what
}

/// The name of a step in the progress display.
pub fn render_step(label: &str, step: u64, total: u64, what: &str) -> (r: String)
    ensures
        r@ == step_name(label@, step as nat, total as nat, what@),
{
    "[".to_owned().concat(label).concat(" ").concat(number(step).as_str()).concat("/").concat(
        number(total).as_str(),
    ).concat("] ").concat(what)
}

/// What is shown of a `FROM` line.
pub open spec fn from_text(f: FromStep) -> Seq<char> {
    "FROM "@ + if f.scratch {
        "scratch"@
    } else {
        f.base@
    }
}

/// What is reported when a `FROM` line begins.
pub open spec fn from_events(f: FromStep) -> Seq<BuildEventView> {
    seq![
        BuildEventView::VertexStart {
            id: f.vertex,
            name: step_name(f.label@, 1, f.total as nat, from_text(f)),
        },
    ]
}

/// Whether `f` is what the `FROM` line of the stage `idx` of a plan says.
pub open spec fn from_step_is(
    f: FromStep,
    plan: BuildPlan,
    idx: int,
    work: PathView,
    vertex: u32,
) -> bool {
    let stage = plan.stages@[idx];
    let base = expand::expanded(stage.image@, plan.global_args@);
    &&& platform_of(stage, plan.platform@) == Ok::<PlatformView, Seq<char>>(f.platform@)
    &&& f.label@ == stage_label(stage, idx as nat)
    &&& f.total == stage.instructions@.len() + 1
    &&& f.base@ == base
    &&& f.scratch == names_scratch(base)
    &&& f.dir@ == work.child(stage_dir_name(idx as nat))
    &&& f.vertex == vertex
}

/// Start the stage `idx` of a plan.
pub fn begin_stage<R: BuildProgress>(
    plan: &BuildPlan,
    idx: usize,
    work: &HostPath,
    progress: &mut ProgressEmitter<R>,
) -> (r: Result<FromStep, Error>)
    requires
        idx < plan.stages@.len(),
        plan.stages@[idx as int].instructions@.len() < u64::MAX,
        old(progress).next_id < u32::MAX,
    ensures
        match r {
            Err(e) => {
                &&& platform_of(plan.stages@[idx as int], plan.platform@) matches Err(m)
                &&& e@ == ErrorView::Other(m)
                &&& *final(progress) == *old(progress)
            },
            Ok(f) => {
                &&& from_step_is(f, *plan, idx as int, work@, old(progress).next_id)
                &&& progress::emitted(*old(progress), from_events(f), 1, *final(progress))
            },
        },
{
    let stage = &plan.stages[idx];
    let base = expand(stage.image.as_str(), &plan.global_args);
    let scratch = same_text(to_lower(base.as_str()).as_str(), "scratch");
    let platform = match stage_platform(stage, &plan.platform) {
        Ok(p) => p,
        Err(e) => {
            return Err(e);
        },
    };
    let total: u64 = stage.instructions.len() as u64 + 1;
    let label = match &stage.name {
        Some(n) => n.clone(),
        None => "stage-".to_owned().concat(number(idx as u64).as_str()),
    };
    let what = if scratch {
        "FROM ".to_owned().concat("scratch")
    } else {
        "FROM ".to_owned().concat(base.as_str())
    };
    let vertex: u32 = progress.start(render_step(label.as_str(), 1, total, what.as_str()).as_str());
    Ok(FromStep { label, total, base, scratch, platform, dir: stage_dir(work, idx), vertex })
}

/// A stage between two instructions.
#[derive(Debug)]
pub struct StageRun {
    /// Name of the stage in the progress display.
    pub label: String,
    /// Number of steps of the stage, its `FROM` line included.
    pub total: u64,
    /// Where the stage stands.
    pub state: StageState,
    /// Chain id of the last layer.
    pub parent_id: String,
    /// Whether the cache is no longer asked in this stage.
    pub cache_busted: bool,
    /// Whether the last step was carried out, rather than taken from the cache.
    pub built: bool,
}

/// A [`StageRun`] with its texts as character sequences.
pub struct RunView {
    pub label: Seq<char>,
    pub total: u64,
    pub state: StateView,
    pub parent_id: Seq<char>,
    pub cache_busted: bool,
    pub built: bool,
}

impl View for StageRun {
    type V = RunView;

    open spec fn view(&self) -> RunView {
        RunView {
            label: self.label@,
            total: self.total,
            state: self.state@,
            parent_id: self.parent_id@,
            cache_busted: self.cache_busted,
            built: self.built,
        }
    }
}

/// A layer as the cache knows it: the key of its instruction and its chain id.
#[derive(Debug)]
pub struct LayerKey {
    /// Key of the instruction.
    pub key: String,
    /// Chain id of the layer.
    pub id: String,
    /// Whether the instruction may have changed the root filesystem.
    pub fs_changed: bool,
}

/// What a build takes from the cache for a layer. The variables are no part of it:
/// those of a build follow from its own build arguments.
#[derive(Debug)]
pub struct CachedLayer {
    /// Image config after the instruction.
    pub meta: ImageMeta,
    /// Root filesystem after the instruction, inside the cache.
    pub rootfs: HostPath,
}

/// The image config with which a stage starts on a base image.
pub open spec fn base_meta(config: Option<BaseConfig>) -> MetaView {
    match config {
        None => meta::default_meta(),
        Some(c) => MetaView {
            env: match c.env {
                Some(e) => e.deep_view(),
                None => meta::default_meta().env,
            },
            working_dir: match c.working_dir {
                Some(w) if w@.len() > 0 => w@,
                _ => meta::default_meta().working_dir,
            },
            user: c.user.deep_view(),
            entrypoint: c.entrypoint.deep_view(),
            cmd: c.cmd.deep_view(),
            labels: match c.labels {
                Some(l) => l.pairs(),
                None => Seq::empty(),
            },
            ..meta::default_meta()
        },
    }
}

/// The image config with which a stage starts on a base image.
fn meta_from_base(config: Option<BaseConfig>) -> (r: ImageMeta)
    ensures
        r@ == base_meta(config),
{
    let mut m = ImageMeta::new();
    match config {
        None => {},
        Some(c) => {
            match c.env {
                Some(e) => {
                    m.env = e;
                },
                None => {},
            }
            match c.working_dir {
                Some(w) => {
                    if !w.as_str().is_empty() {
                        m.working_dir = w;
                    }
                },
                None => {},
            }
            m.user = c.user;
            m.entrypoint = c.entrypoint;
            m.cmd = c.cmd;
            match c.labels {
                Some(l) => {
                    m.labels = l;
                },
                None => {},
            }
        },
    }
    m
}

/// The state with which a stage starts: the base's config, the build arguments of
/// the command line, and a root filesystem of its own.
pub fn init_stage_from_image(config: Option<BaseConfig>, rootfs: &HostPath, cli_args: &Vars) -> (r:
    StageState)
    ensures
        r@ == (StateView {
            rootfs: rootfs@,
            rootfs_shared: false,
            work_rootfs: rootfs@,
            meta: base_meta(config),
            args: cli_args.pairs(),
            layer_id: Seq::empty(),
        }),
{
    let layer_id = String::new();
    assert(layer_id@ =~= Seq::<char>::empty());
    StageState {
        rootfs: rootfs.copy(),
        rootfs_shared: false,
        work_rootfs: rootfs.copy(),
        meta: meta_from_base(config),
        args: cli_args.copy(),
        layer_id,
    }
}

/// How the files of a base image get into the root filesystem of a stage: an
/// older root filesystem goes first. Nothing happens without base files.
pub open spec fn base_steps(
    bundle: PathView,
    rootfs: PathView,
    rootfs_exists: bool,
    entries: Option<Seq<Entry>>,
) -> Seq<StepView> {
    match entries {
        None => Seq::empty(),
        Some(es) => (if rootfs_exists {
            seq![fs::try_to(FsOpView::RemoveDirAll(rootfs))]
        } else {
            Seq::empty()
        }) + seq![fs::must(FsOpView::CreateDirAll(rootfs))] + fs::placed(
            seq![RelOp::MakeDir(Seq::empty())] + fs::entry_ops(es),
            bundle,
            rootfs,
        ),
    }
}

/// Plan how the files of a base image, unpacked at `bundle`, get into the root
/// filesystem of a stage.
pub fn copy_base(
    bundle: &HostPath,
    rootfs: &HostPath,
    rootfs_exists: bool,
    entries: Option<&Vec<Entry>>,
) -> (r: Vec<Step>)
    ensures
        fs::step_views(r@) == base_steps(
            bundle@,
            rootfs@,
            rootfs_exists,
            match entries {
                Some(e) => Some(e@),
                None => None,
            },
        ),
{
    let mut steps = no_steps();
    match entries {
        None => {},
        Some(es) => {
            if rootfs_exists {
                fs::push_try(&mut steps, FsOp::RemoveDirAll(rootfs.copy()));
            }
            push_must(&mut steps, FsOp::CreateDirAll(rootfs.copy()));
            let copy = copy_tree(es, bundle, rootfs);
            push_steps(&mut steps, copy);
            assert(fs::step_views(steps@) =~= base_steps(
                bundle@,
                rootfs@,
                rootfs_exists,
                Some(es@),
            ));
        },
    }
    steps
}

impl FromStep {
    /// Root filesystem directory of the stage.
    pub fn rootfs(&self) -> (r: HostPath)
        ensures
            r@ == self.dir@.child("rootfs"@),
    {
        self.dir.join("rootfs")
    }

    /// Directory that the base image is unpacked into.
    pub fn bundle(&self) -> (r: HostPath)
        ensures
            r@ == self.dir@.child("base-rootfs"@),
    {
        self.dir.join("base-rootfs")
    }

    /// The layer of the `FROM` line; `digest` is what the store has for the base.
    pub fn layer(&self, digest: &Option<String>) -> (r: LayerKey)
        ensures
            r.key@ == cache::from_key(self.base@, self.scratch, self.platform@, digest.deep_view()),
            r.id@ == cache::chain(Seq::empty(), r.key@),
            r.fs_changed,
    {
        let key = from_cache_key(self.base.as_str(), self.scratch, &self.platform, digest);
        let id = chain_id("", key.as_str());
        proof {
            reveal_strlit("");
            assert(""@ =~= Seq::<char>::empty());
        }
        LayerKey { key, id, fs_changed: true }
    }

    /// Report that the base is being resolved; the empty image needs no resolving.
    pub fn resolving<R: BuildProgress>(&self, progress: &mut ProgressEmitter<R>)
        ensures
            progress::emitted(
                *old(progress),
                if self.scratch {
                    Seq::empty()
                } else {
                    seq![
                        BuildEventView::VertexStatus {
                            id: self.vertex,
                            status: "resolve "@ + self.base@,
                        },
                    ]
                },
                0,
                *final(progress),
            ),
    {
        if !self.scratch {
            progress.status(
                self.vertex,
                "resolve ".to_owned().concat(self.base.as_str()).as_str(),
            );
        }
    }

    /// Continue with what the cache holds for the base; the variables are the build
    /// arguments of the command line.
    pub fn restored<R: BuildProgress>(
        self,
        layer: LayerKey,
        cached: CachedLayer,
        cli_args: &Vars,
        no_cache: bool,
        progress: &mut ProgressEmitter<R>,
    ) -> (r: StageRun)
        ensures
            r@ == (RunView {
                label: self.label@,
                total: self.total,
                state: StateView {
                    rootfs: cached.rootfs@,
                    rootfs_shared: true,
                    work_rootfs: self.dir@.child("rootfs"@),
                    meta: cached.meta@,
                    args: cli_args.pairs(),
                    layer_id: layer.id@,
                },
                parent_id: layer.id@,
                cache_busted: no_cache,
                built: false,
            }),
            progress::emitted(
                *old(progress),
                seq![
                    BuildEventView::VertexDone {
                        id: self.vertex,
                        cached: true,
                        duration: seconds(0),
                    },
                ],
                0,
                *final(progress),
            ),
    {
        progress.cached(self.vertex, whole_seconds(0));
        let work_rootfs = self.rootfs();
        StageRun {
            label: self.label,
            total: self.total,
            state: StageState {
                rootfs: cached.rootfs,
                rootfs_shared: true,
                work_rootfs,
                meta: cached.meta,
                args: cli_args.copy(),
                layer_id: layer.id.clone(),
            },
            parent_id: layer.id,
            cache_busted: no_cache,
            built: false,
        }
    }

    /// Continue with the base that was just prepared in `state`.
    pub fn built<R: BuildProgress>(
        self,
        layer: LayerKey,
        state: StageState,
        no_cache: bool,
        progress: &mut ProgressEmitter<R>,
        elapsed: Duration,
    ) -> (r: StageRun)
        ensures
            r@ == (RunView {
                label: self.label@,
                total: self.total,
                state: StateView {
                    work_rootfs: self.dir@.child("rootfs"@),
                    layer_id: layer.id@,
                    ..state@
                },
                parent_id: layer.id@,
                cache_busted: no_cache,
                built: true,
            }),
            progress::emitted(
                *old(progress),
                seq![
                    BuildEventView::VertexDone {
                        id: self.vertex,
                        cached: false,
                        duration: elapsed,
                    },
                ],
                0,
                *final(progress),
            ),
    {
        progress.done(self.vertex, elapsed);
        let work_rootfs = self.rootfs();
        let state = StageState { work_rootfs, layer_id: layer.id.clone(), ..state };
        StageRun {
            label: self.label,
            total: self.total,
            state,
            parent_id: layer.id,
            cache_busted: no_cache,
            built: true,
        }
    }
}

// ---------------------------------------------------------------------------
// The instructions of a stage
// ---------------------------------------------------------------------------

/// A stage after an instruction that the cache had.
pub open spec fn after_cached(
    run: RunView,
    id: Seq<char>,
    meta: MetaView,
    args: Seq<(Seq<char>, Seq<char>)>,
    rootfs: PathView,
) -> RunView {
    RunView {
        state: StateView { rootfs, rootfs_shared: true, meta, args, layer_id: id, ..run.state },
        parent_id: id,
        built: false,
        ..run
    }
}

/// A stage after an instruction that was carried out: from now on the cache is
/// not asked any more.
pub open spec fn after_built(run: RunView, id: Seq<char>) -> RunView {
    RunView {
        state: StateView { layer_id: id, ..run.state },
        parent_id: id,
        cache_busted: true,
        built: true,
        ..run
    }
}

/// A stage that goes on on the writable copy of its root filesystem.
pub open spec fn on_copy(run: RunView) -> RunView {
    RunView {
        state: StateView {
            rootfs: run.state.work_rootfs,
            rootfs_shared: false,
            ..run.state
        },
        ..run
    }
}

/// How a root filesystem inside the cache becomes a writable one.
pub open spec fn writable_steps(
    state: StateView,
    dest_exists: bool,
    entries: Seq<Entry>,
) -> Seq<StepView> {
    (if dest_exists {
        seq![fs::must(FsOpView::RemoveDirAll(state.work_rootfs))]
    } else {
        Seq::empty()
    }) + seq![fs::must(FsOpView::CreateDirAll(state.work_rootfs))] + fs::placed(
        seq![RelOp::MakeDir(Seq::empty())] + fs::entry_ops(entries),
        state.rootfs,
        state.work_rootfs,
    )
}

/// Plan how the root filesystem of `state`, with these entries, becomes a
/// writable one.
pub fn prepare_writable(state: &StageState, dest_exists: bool, entries: &Vec<Entry>) -> (r: Vec<
    Step,
>)
    ensures
        fs::step_views(r@) == writable_steps(state@, dest_exists, entries@),
{
    let mut steps = no_steps();
    if dest_exists {
        push_must(&mut steps, FsOp::RemoveDirAll(state.work_rootfs.copy()));
    }
    push_must(&mut steps, FsOp::CreateDirAll(state.work_rootfs.copy()));
    let copy = copy_tree(entries, &state.rootfs, &state.work_rootfs);
    push_steps(&mut steps, copy);
    assert(fs::step_views(steps@) =~= writable_steps(state@, dest_exists, entries@));
    steps
}

impl StageRun {
    /// Start the instruction `inst_idx` of the stage.
    pub fn begin_step<R: BuildProgress>(
        &self,
        inst_idx: usize,
        inst: &Instruction,
        progress: &mut ProgressEmitter<R>,
    ) -> (r: u32)
        requires
            inst_idx + 2 <= u64::MAX,
            old(progress).next_id < u32::MAX,
        ensures
            r == old(progress).next_id,
            progress::emitted(
                *old(progress),
                seq![
                    BuildEventView::VertexStart {
                        id: r,
                        name: step_name(
                            self@.label,
                            (inst_idx + 2) as nat,
                            self.total as nat,
                            stage::summary(*inst, self@.state.vars()),
                        ),
                    },
                ],
                1,
                *final(progress),
            ),
    {
        let name = render_step(
            self.label.as_str(),
            inst_idx as u64 + 2,
            self.total,
            instruction_summary(inst, &self.state).as_str(),
        );
        progress.start(name.as_str())
    }

    /// The layer of an instruction; `found` holds what stands at its sources.
    pub fn layer(&self, inst: &Instruction, found: &Vec<Node>, network: &str) -> (r: LayerKey)
        requires
            found@.len() == cache::source_count(*inst),
        ensures
            r.key@ == cache::instruction_key(
                *inst,
                self@.state.meta,
                vars::map_of(self@.state.args),
                found@,
                network@,
            ),
            r.id@ == cache::chain(self@.parent_id, r.key@),
            r.fs_changed == cache::changes_filesystem(*inst),
    {
        let (key, fs_changed) = instruction_cache_key(
            inst,
            &self.state.meta,
            &self.state.args,
            found,
            network,
        );
        let id = chain_id(self.parent_id.as_str(), key.as_str());
        LayerKey { key, id, fs_changed }
    }

    /// Whether the cache is asked for the next instruction.
    pub fn asks_cache(&self) -> (r: bool)
        ensures
            r == !self@.cache_busted,
    {
        !self.cache_busted
    }

    /// Continue with what the cache holds for an instruction. The variables are what
    /// the instruction makes of those of this build.
    pub fn restored<R: BuildProgress>(
        &mut self,
        inst: &Instruction,
        globals: &Vars,
        layer: LayerKey,
        cached: CachedLayer,
        vertex: u32,
        progress: &mut ProgressEmitter<R>,
    )
        ensures
            final(self)@ == after_cached(
                old(self)@,
                layer.id@,
                cached.meta@,
                stage::applied(old(self)@.state, *inst, globals@).args,
                cached.rootfs@,
            ),
            progress::emitted(
                *old(progress),
                seq![
                    BuildEventView::VertexDone {
                        id: vertex,
                        cached: true,
                        duration: seconds(0),
                    },
                ],
                0,
                *final(progress),
            ),
    {
        proof {
            stage::instructions_keep_the_rootfs(self@.state, *inst, globals@);
        }
        apply_metadata(&mut self.state, inst, globals);
        self.state.meta = cached.meta;
        self.state.rootfs = cached.rootfs;
        self.state.rootfs_shared = true;
        self.state.layer_id = layer.id.clone();
        progress.cached(vertex, whole_seconds(0));
        self.parent_id = layer.id;
        self.built = false;
    }

    /// Whether the root filesystem has to be copied before `inst` is carried out.
    pub fn needs_copy(&self, inst: &Instruction) -> (r: bool)
        ensures
            r == (cache::changes_filesystem(*inst) && self@.state.rootfs_shared),
    {
        cache::instruction_needs_writable(inst) && self.state.rootfs_shared
    }

    /// Continue on the writable copy of the root filesystem.
    pub fn made_writable(&mut self)
        ensures
            final(self)@ == on_copy(old(self)@),
    {
        self.state.rootfs = self.state.work_rootfs.copy();
        self.state.rootfs_shared = false;
    }

    /// Continue after an instruction that was carried out.
    pub fn finish_step<R: BuildProgress>(
        &mut self,
        layer: LayerKey,
        vertex: u32,
        progress: &mut ProgressEmitter<R>,
        elapsed: Duration,
    )
        ensures
            final(self)@ == after_built(old(self)@, layer.id@),
            progress::emitted(
                *old(progress),
                seq![
                    BuildEventView::VertexDone { id: vertex, cached: false, duration: elapsed },
                ],
                0,
                *final(progress),
            ),
    {
        self.state.layer_id = layer.id.clone();
        progress.done(vertex, elapsed);
        self.parent_id = layer.id;
        self.cache_busted = true;
        self.built = true;
    }
}

/// A finished stage as `COPY --from` finds it: by its number, and by its name.
pub open spec fn donor_names(idx: nat, name: Option<Seq<char>>) -> Seq<Seq<char>> {
    match name {
        Some(n) => seq![text::decimal(idx), n],
        None => seq![text::decimal(idx)],
    }
}

/// Whether `added` are donors for a finished stage.
pub open spec fn donors_for(
    added: Seq<Donor>,
    idx: nat,
    name: Option<Seq<char>>,
    state: StateView,
) -> bool {
    &&& added.len() == donor_names(idx, name).len()
    &&& forall|i: int|
        0 <= i < added.len() ==> (#[trigger] added[i]).name@ == donor_names(idx, name)[i]
            && added[i].rootfs@ == state.rootfs && added[i].working_dir@ == state.meta.working_dir
}

/// Record a finished stage for `COPY --from`.
pub fn complete_stage(donors: &mut Vec<Donor>, idx: usize, name: &Option<String>, state: &StageState)
    ensures
        final(donors)@.len() >= old(donors)@.len(),
        final(donors)@.take(old(donors)@.len() as int) == old(donors)@,
        donors_for(
            final(donors)@.skip(old(donors)@.len() as int),
            idx as nat,
            name.deep_view(),
            state@,
        ),
{
    let ghost before = donors@;
    donors.push(
        Donor {
            name: number(idx as u64),
            rootfs: state.rootfs.copy(),
            working_dir: state.meta.working_dir.clone(),
        },
    );
    match name {
        Some(n) => {
            donors.push(
                Donor {
                    name: n.clone(),
                    rootfs: state.rootfs.copy(),
                    working_dir: state.meta.working_dir.clone(),
                },
            );
        },
        None => {},
    }
    assert(donors@.take(before.len() as int) =~= before);
}

// ---------------------------------------------------------------------------
// What holds of every course of a stage
// ---------------------------------------------------------------------------

/// How one instruction of a stage went.
pub enum Outcome {
    /// The cache had it.
    Cached(MetaView, Seq<(Seq<char>, Seq<char>)>, PathView),
    /// It was carried out, and left this state.
    Built(StateView),
}

/// The stage after one instruction with the key `key`.
pub open spec fn after_step(run: RunView, key: Seq<char>, outcome: Outcome) -> RunView {
    let id = cache::chain(run.parent_id, key);
    match outcome {
        Outcome::Cached(meta, args, rootfs) => after_cached(run, id, meta, args, rootfs),
        Outcome::Built(state) => after_built(RunView { state, ..run }, id),
    }
}

/// The stage after several instructions.
pub open spec fn after_steps(
    run: RunView,
    keys: Seq<Seq<char>>,
    outcomes: Seq<Outcome>,
) -> RunView
    decreases keys.len(),
{
    if keys.len() == 0 || outcomes.len() != keys.len() {
        run
    } else {
        after_step(
            after_steps(run, keys.drop_last(), outcomes.drop_last()),
            keys.last(),
            outcomes.last(),
        )
    }
}

/// The chain id behind several instructions.
pub open spec fn chain_of(start: Seq<char>, keys: Seq<Seq<char>>) -> Seq<char>
    decreases keys.len(),
{
    if keys.len() == 0 {
        start
    } else {
        cache::chain(chain_of(start, keys.drop_last()), keys.last())
    }
}

/// The chain id of a stage depends on the keys of its instructions alone: whether
/// the cache had them makes no difference.
pub proof fn chain_ignores_the_cache(run: RunView, keys: Seq<Seq<char>>, outcomes: Seq<Outcome>)
    requires
        outcomes.len() == keys.len(),
    ensures
        after_steps(run, keys, outcomes).parent_id == chain_of(run.parent_id, keys),
        keys.len() > 0 ==> after_steps(run, keys, outcomes).state.layer_id == chain_of(
            run.parent_id,
            keys,
        ),
    decreases keys.len(),
{
    if keys.len() > 0 {
        chain_ignores_the_cache(run, keys.drop_last(), outcomes.drop_last());
    }
}

/// The variables of a stage do not depend on the cache: an instruction leaves the same
/// ones whether the cache had it or it was carried out.
pub proof fn variables_ignore_the_cache(
    run: RunView,
    inst: Instruction,
    globals: Map<Seq<char>, Seq<char>>,
    key: Seq<char>,
    meta: MetaView,
    rootfs: PathView,
)
    ensures
        ({
            let state = stage::applied(run.state, inst, globals);
            let cached = Outcome::Cached(meta, state.args, rootfs);
            after_step(run, key, cached).state.args == after_step(
                run,
                key,
                Outcome::Built(state),
            ).state.args
        }),
{
}

/// Once an instruction of a stage has been carried out, the cache is asked for
/// none of the later ones; and it is asked for as long as everything came from
/// the cache.
pub proof fn a_built_step_ends_cache_use(run: RunView, keys: Seq<Seq<char>>, outcomes: Seq<Outcome>)
    requires
        outcomes.len() == keys.len(),
    ensures
        after_steps(run, keys, outcomes).cache_busted == (run.cache_busted || exists|i: int|
            0 <= i < outcomes.len() && (#[trigger] outcomes[i]) is Built),
    decreases keys.len(),
{
    if keys.len() > 0 {
        let rest = outcomes.drop_last();
        a_built_step_ends_cache_use(run, keys.drop_last(), rest);
        if exists|i: int| 0 <= i < rest.len() && (#[trigger] rest[i]) is Built {
            let i = choose|i: int| 0 <= i < rest.len() && (#[trigger] rest[i]) is Built;
            assert(outcomes[i] is Built);
        }
        if exists|i: int| 0 <= i < outcomes.len() && (#[trigger] outcomes[i]) is Built {
            let i = choose|i: int| 0 <= i < outcomes.len() && (#[trigger] outcomes[i]) is Built;
            if i < rest.len() {
                assert(rest[i] is Built);
            }
        }
        assert(outcomes[outcomes.len() - 1] == outcomes.last());
    }
}

} // verus!
