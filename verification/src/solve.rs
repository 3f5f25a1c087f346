//! The course of a build: which task comes next, and what its outcome leads to.

use std::time::Duration;

use vstd::prelude::*;

use crate::archive;
use crate::backend::NetworkMode;
use crate::cache::{self, key_sources, Donor, Source};
use crate::config::BaseConfig;
use crate::digest;
use crate::dockerfile::{Instruction, Stage};
use crate::error::{self, Error, ErrorView};
use crate::executor::{
    self, begin_stage, complete_stage, fail_vertex, init_stage_from_image, stage_dir, BuildPlan,
    CachedLayer, FromStep, LayerKey, RunView, StageRun,
};
use crate::export::{self, ExportLayer, ExportSource, TagFacts};
use crate::fs::{self, no_steps, push_must, FsOp, FsOpView, Step};
use crate::meta;
use crate::packing;
use crate::path::{HostPath, PathView};
use crate::platform::{Platform, PlatformView};
use crate::progress::{self, BuildEventView, BuildProgress, ProgressEmitter};
use crate::stage::{self, apply_instruction, stage_vars, StageState, StateView, Work};
use crate::store;
use crate::tree::{self, Entry, Node, Shape};
use crate::unpack;
use crate::vars::{self, Vars};
use crate::winpath::Host;

verus! {

/// Where a build stands.
#[derive(Debug)]
pub enum Phase {
    /// A stage is about to begin.
    Idle,
    /// The directory of a stage is being created.
    Opening,
    /// The base image of a stage is being fetched.
    Fetching(FromStep),
    /// The cache is asked for the base of a stage.
    AskingBase(FromStep, LayerKey),
    /// The base of a stage is being prepared.
    Preparing(FromStep, LayerKey),
    /// The base of a stage is being stored in the cache.
    SavingBase(FromStep, LayerKey, StageState),
    /// A stage is about to begin the instruction with this number.
    Between(StageRun, usize),
    /// The sources of an instruction are being looked at.
    Looking(StageRun, usize, u32),
    /// The cache is asked for an instruction.
    Asking(StageRun, usize, u32, LayerKey),
    /// The root filesystem is being copied for an instruction.
    Copying(StageRun, usize, u32, LayerKey),
    /// An instruction is being carried out.
    Working(StageRun, usize, u32, LayerKey),
    /// An instruction is being stored in the cache.
    Saving(StageRun, usize, u32, LayerKey),
    /// All stages are built; the last one stands like this.
    Done(StageRun),
    /// The build has failed.
    Failed,
}

/// What a build needs next.
#[derive(Debug)]
pub enum Task {
    /// Perform the steps, then call [`Solve::opened`].
    Open(Vec<Step>),
    /// Fetch the image if there is one, find its digest in the store, then call
    /// [`Solve::fetched`].
    Fetch {
        /// Image to fetch; none for the empty image.
        image: Option<String>,
        /// Platform of the stage.
        platform: Platform,
    },
    /// Ask the cache for this layer, then call [`Solve::base_asked`] or
    /// [`Solve::step_asked`].
    Ask(String),
    /// Unpack the image if there is one, copy it to the root filesystem, then call
    /// [`Solve::prepared`].
    Prepare {
        /// Image to unpack; none for the empty image.
        image: Option<String>,
        /// Platform of the stage.
        platform: Platform,
        /// Directory to unpack the image into.
        bundle: HostPath,
        /// Root filesystem of the stage.
        rootfs: HostPath,
    },
    /// Store the state of the stage under this layer, then call
    /// [`Solve::base_saved`] or [`Solve::step_saved`]. A failure is ignored.
    Save {
        /// Chain id of the layer.
        id: String,
        /// Chain id of the layer below.
        parent: String,
        /// Key of the instruction.
        key: String,
        /// Whether the root filesystem may have changed.
        fs_changed: bool,
    },
    /// Call [`Solve::next`].
    Continue,
    /// Look at the sources, then call [`Solve::looked`].
    Look(Vec<Source>),
    /// Copy the root filesystem, then call [`Solve::copied`].
    Copy {
        /// Root filesystem inside the cache.
        from: HostPath,
        /// Writable root filesystem.
        to: HostPath,
    },
    /// Do the work of the instruction, then call [`Solve::worked`].
    Work(Work),
    /// Export the result.
    Export,
}

/// A build that is under way.
#[derive(Debug)]
pub struct Solve {
    /// What is built.
    pub plan: BuildPlan,
    /// What hosts the files.
    pub host: Host,
    /// Directory for the stages.
    pub work: HostPath,
    /// Whether the cache is not asked at all.
    pub no_cache: bool,
    /// Network of the build.
    pub network: NetworkMode,
    /// Build arguments of the command line.
    pub cli_args: Vars,
    /// Finished stages.
    pub donors: Vec<Donor>,
    /// Number of the stage that is built.
    pub at: usize,
    /// Where the build stands.
    pub phase: Phase,
}

/// The vertex of a failed step.
pub open spec fn failed_vertex(id: u32, e: ErrorView, elapsed: Duration) -> Seq<BuildEventView> {
    seq![BuildEventView::VertexError { id, error: error::error_text(e), duration: elapsed }]
}

/// Whether `layer` is the layer of a base with this digest in the store.
pub open spec fn base_layer_is(layer: LayerKey, f: FromStep, digest: Option<Seq<char>>) -> bool {
    &&& layer.key@ == cache::from_key(f.base@, f.scratch, f.platform@, digest)
    &&& layer.id@ == cache::chain(Seq::empty(), layer.key@)
    &&& layer.fs_changed
}

/// The image of a stage that does not start from the empty one.
pub open spec fn image_of(f: FromStep) -> Option<Seq<char>> {
    if f.scratch {
        None
    } else {
        Some(f.base@)
    }
}

/// Whether a task prepares the base of a stage.
pub open spec fn prepares(task: Task, f: FromStep) -> bool {
    task matches Task::Prepare { image, platform, bundle, rootfs } && image.deep_view()
        == image_of(f) && platform@ == f.platform@ && bundle@ == f.dir@.child("base-rootfs"@)
        && rootfs@ == f.dir@.child("rootfs"@)
}

/// Whether a task creates the root filesystem of the stage with its directory at
/// `home`.
pub open spec fn opens(task: Task, home: PathView) -> bool {
    task matches Task::Open(steps) && fs::step_views(steps@) == seq![
        fs::must(FsOpView::CreateDirAll(home.child("rootfs"@))),
    ]
}

/// What is reported before a base is prepared.
pub open spec fn resolve_events(f: FromStep) -> Seq<BuildEventView> {
    if f.scratch {
        Seq::empty()
    } else {
        seq![BuildEventView::VertexStatus { id: f.vertex, status: "resolve "@ + f.base@ }]
    }
}

/// A stage with which the instructions begin.
pub open spec fn run_of(
    f: FromStep,
    id: Seq<char>,
    state: StateView,
    no_cache: bool,
    built: bool,
) -> RunView {
    RunView { label: f.label@, total: f.total, state, parent_id: id, cache_busted: no_cache, built }
}

/// Whether a layer is the one of an instruction whose sources are `found`.
pub open spec fn step_layer_is(
    layer: LayerKey,
    run: RunView,
    inst: Instruction,
    found: Seq<Node>,
    network: NetworkMode,
) -> bool {
    &&& layer.key@ == cache::instruction_key(
        inst,
        run.state.meta,
        vars::map_of(run.state.args),
        found,
        crate::backend::network_name(network),
    )
    &&& layer.id@ == cache::chain(run.parent_id, layer.key@)
    &&& layer.fs_changed == cache::changes_filesystem(inst)
}

/// The target is a stage, and the steps of every stage can be counted.
pub open spec fn countable(plan: BuildPlan) -> bool {
    &&& plan.target < plan.stages@.len()
    &&& forall|i: int|
        0 <= i < plan.stages@.len() ==> (#[trigger] plan.stages@[i]).instructions@.len() < u64::MAX
            - 1
}

/// Whether the target is a stage, and the steps of every stage can be counted.
pub fn is_countable(plan: &BuildPlan) -> (r: bool)
    ensures
        r == countable(*plan),
{
    if plan.target >= plan.stages.len() {
        return false;
    }
    for i in 0..plan.stages.len()
        invariant
            forall|k: int|
                0 <= k < i ==> (#[trigger] plan.stages@[k]).instructions@.len() < u64::MAX - 1,
    {
        if plan.stages[i].instructions.len() as u64 >= 18446744073709551614 {
            assert(!(plan.stages@[i as int].instructions@.len() < u64::MAX - 1));
            return false;
        }
    }
    true
}

/// A stage with its directory at `home` is sound: it works on a root filesystem of
/// its own unless that is a shared one, its layer is the one that the next builds
/// on, and without a cache nothing is asked for and every step is carried out.
pub open spec fn sound(run: RunView, home: PathView, no_cache: bool) -> bool {
    &&& run.state.work_rootfs == home.child("rootfs"@)
    &&& !run.state.rootfs_shared ==> run.state.rootfs == run.state.work_rootfs
    &&& run.parent_id == run.state.layer_id
    &&& no_cache ==> run.cache_busted && run.built
}

impl Solve {
    /// The directory of the stage that is built.
    pub open spec fn home(&self) -> PathView {
        self.work@.child(executor::stage_dir_name(self.at as nat))
    }

    /// The stage and the instruction in work are there, the steps can be counted, and
    /// the stage is sound.
    pub open spec fn well_formed(&self) -> bool {
        &&& countable(self.plan)
        &&& self.at <= self.plan.target
        &&& self.in_work() matches Some((run, i, _)) ==> i < self.instructions().len() && sound(
            run@,
            self.home(),
            self.no_cache,
        )
        &&& match self.phase {
            Phase::Fetching(f) => f.dir@ == self.home(),
            Phase::AskingBase(f, _) => f.dir@ == self.home() && !self.no_cache,
            Phase::Preparing(f, _) => f.dir@ == self.home(),
            Phase::SavingBase(f, _, state) => {
                &&& f.dir@ == self.home()
                &&& state@.rootfs == self.home().child("rootfs"@)
                &&& !state@.rootfs_shared
            },
            Phase::Between(run, _) => sound(run@, self.home(), self.no_cache),
            Phase::Done(run) => sound(run@, self.home(), self.no_cache),
            Phase::Asking(run, _, _, _) => !run@.cache_busted,
            Phase::Working(run, i, _, _) => cache::changes_filesystem(
                self.instructions()[i as int],
            ) ==> !run@.state.rootfs_shared,
            _ => true,
        }
    }

    /// The stage that is built.
    pub open spec fn stage(&self) -> Stage {
        self.plan.stages@[self.at as int]
    }

    /// The instructions of the stage that is built.
    pub open spec fn instructions(&self) -> Seq<Instruction> {
        self.stage().instructions@
    }

    /// Whether the same build goes on.
    pub open spec fn same_build(&self, before: &Solve) -> bool {
        &&& self.plan == before.plan
        &&& self.host == before.host
        &&& self.work == before.work
        &&& self.no_cache == before.no_cache
        &&& self.network == before.network
        &&& self.cli_args == before.cli_args
    }

    /// Whether the same stage of the same build goes on.
    pub open spec fn goes_on(&self, before: &Solve) -> bool {
        &&& self.same_build(before)
        &&& self.donors == before.donors
        &&& self.at == before.at
    }

    /// The instruction in work: its stage, its number and its vertex.
    pub open spec fn in_work(&self) -> Option<(StageRun, usize, u32)> {
        match self.phase {
            Phase::Looking(run, i, v) => Some((run, i, v)),
            Phase::Asking(run, i, v, _) => Some((run, i, v)),
            Phase::Copying(run, i, v, _) => Some((run, i, v)),
            Phase::Working(run, i, v, _) => Some((run, i, v)),
            Phase::Saving(run, i, v, _) => Some((run, i, v)),
            _ => None,
        }
    }

    /// A build of `plan` that begins with the first stage.
    pub fn new(
        plan: BuildPlan,
        host: Host,
        work: HostPath,
        no_cache: bool,
        network: NetworkMode,
        cli_args: Vars,
    ) -> (r: Self)
        requires
            countable(plan),
        ensures
            r.well_formed(),
            r.plan == plan,
            r.host == host,
            r.work == work,
            r.no_cache == no_cache,
            r.network == network,
            r.cli_args == cli_args,
            r.donors@.len() == 0,
            r.at == 0,
            r.phase is Idle,
    {
        Solve {
            plan,
            host,
            work,
            no_cache,
            network,
            cli_args,
            donors: Vec::new(),
            at: 0,
            phase: Phase::Idle,
        }
    }

    /// Begin the first stage: its directory is created.
    pub fn begin(&mut self) -> (r: Task)
        requires
            old(self).well_formed(),
            old(self).phase is Idle,
        ensures
            final(self).well_formed(),
            final(self).goes_on(old(self)),
            final(self).phase is Opening,
            opens(r, old(self).home()),
    {
        let dir = stage_dir(&self.work, self.at);
        let mut steps = no_steps();
        push_must(&mut steps, FsOp::CreateDirAll(dir.join("rootfs")));
        assert(fs::step_views(steps@) =~= seq![
            fs::must(FsOpView::CreateDirAll(dir@.child("rootfs"@))),
        ]);
        self.phase = Phase::Opening;
        Task::Open(steps)
    }

    /// Go on with the `FROM` line.
    pub fn opened<R: BuildProgress>(&mut self, progress: &mut ProgressEmitter<R>) -> (r: Result<
        Task,
        Error,
    >)
        requires
            old(self).well_formed(),
            old(self).phase is Opening,
            old(progress).next_id < u32::MAX,
        ensures
            final(self).well_formed(),
            final(self).goes_on(old(self)),
            ({
                let platform = executor::platform_of(old(self).stage(), old(self).plan.platform@);
                match platform {
                    Err(m) => {
                        &&& r matches Err(e) && e@ == ErrorView::Other(m)
                        &&& final(self).phase is Failed
                        &&& *final(progress) == *old(progress)
                    },
                    Ok(p) => {
                        &&& final(self).phase matches Phase::Fetching(f)
                        &&& executor::from_step_is(
                            f,
                            old(self).plan,
                            old(self).at as int,
                            old(self).work@,
                            old(progress).next_id,
                        )
                        &&& f.platform@ == p
                        &&& r matches Ok(Task::Fetch { image, platform: q }) && image.deep_view()
                            == image_of(f) && q@ == p
                        &&& progress::emitted(
                            *old(progress),
                            executor::from_events(f),
                            1,
                            *final(progress),
                        )
                    },
                }
            }),
    {
        assert(self.plan.stages@[self.at as int].instructions@.len() < u64::MAX - 1);
        match begin_stage(&self.plan, self.at, &self.work, progress) {
            Err(e) => {
                self.phase = Phase::Failed;
                Err(e)
            },
            Ok(f) => {
                let image = if f.scratch {
                    None
                } else {
                    Some(f.base.clone())
                };
                let platform = f.platform.copy();
                self.phase = Phase::Fetching(f);
                Ok(Task::Fetch { image, platform })
            },
        }
    }

    /// Prepare the base of a stage.
    fn prepare<R: BuildProgress>(
        &mut self,
        f: FromStep,
        layer: LayerKey,
        progress: &mut ProgressEmitter<R>,
    ) -> (r: Task)
        requires
            old(self).well_formed(),
            f.dir@ == old(self).home(),
        ensures
            final(self).well_formed(),
            final(self).goes_on(old(self)),
            final(self).phase == Phase::Preparing(f, layer),
            prepares(r, f),
            progress::emitted(*old(progress), resolve_events(f), 0, *final(progress)),
    {
        f.resolving(progress);
        let image = if f.scratch {
            None
        } else {
            Some(f.base.clone())
        };
        let task = Task::Prepare {
            image,
            platform: f.platform.copy(),
            bundle: f.bundle(),
            rootfs: f.rootfs(),
        };
        self.phase = Phase::Preparing(f, layer);
        task
    }

    /// Go on once the base image is fetched; `digest` is what the store has for it.
    pub fn fetched<R: BuildProgress>(
        &mut self,
        digest: Result<Option<String>, Error>,
        progress: &mut ProgressEmitter<R>,
        elapsed: Duration,
    ) -> (r: Result<Task, Error>)
        requires
            old(self).well_formed(),
            old(self).phase is Fetching,
        ensures
            final(self).well_formed(),
            final(self).goes_on(old(self)),
            old(self).phase matches Phase::Fetching(f) && match digest {
                Err(e) => {
                    &&& r == Err::<Task, Error>(e)
                    &&& final(self).phase is Failed
                    &&& progress::emitted(
                        *old(progress),
                        failed_vertex(f.vertex, e@, elapsed),
                        0,
                        *final(progress),
                    )
                },
                Ok(d) => if old(self).no_cache {
                    &&& final(self).phase matches Phase::Preparing(g, layer) && g == f
                        && base_layer_is(layer, f, d.deep_view())
                    &&& r matches Ok(t) && prepares(t, f)
                    &&& progress::emitted(*old(progress), resolve_events(f), 0, *final(progress))
                } else {
                    &&& final(self).phase matches Phase::AskingBase(g, layer) && g == f
                        && base_layer_is(layer, f, d.deep_view()) && (r matches Ok(Task::Ask(id))
                        && id@ == layer.id@)
                    &&& *final(progress) == *old(progress)
                },
            },
    {
        let mut phase = Phase::Failed;
        std::mem::swap(&mut phase, &mut self.phase);
        match phase {
            Phase::Fetching(f) => match digest {
                Err(e) => Err(fail_vertex(progress, f.vertex, e, elapsed)),
                Ok(d) => {
                    let layer = f.layer(&d);
                    if self.no_cache {
                        Ok(self.prepare(f, layer, progress))
                    } else {
                        let id = layer.id.clone();
                        self.phase = Phase::AskingBase(f, layer);
                        Ok(Task::Ask(id))
                    }
                },
            },
            _ => Ok(Task::Continue),
        }
    }

    /// Go on with what the cache has for the base.
    pub fn base_asked<R: BuildProgress>(
        &mut self,
        cached: Option<CachedLayer>,
        progress: &mut ProgressEmitter<R>,
    ) -> (r: Task)
        requires
            old(self).well_formed(),
            old(self).phase is AskingBase,
        ensures
            final(self).well_formed(),
            final(self).goes_on(old(self)),
            old(self).phase matches Phase::AskingBase(f, layer) && match cached {
                Some(c) => {
                    &&& r is Continue
                    &&& final(self).phase matches Phase::Between(run, i) && i == 0 && run@
                        == run_of(
                        f,
                        layer.id@,
                        StateView {
                            rootfs: c.rootfs@,
                            rootfs_shared: true,
                            work_rootfs: f.dir@.child("rootfs"@),
                            meta: c.meta@,
                            args: old(self).cli_args.pairs(),
                            layer_id: layer.id@,
                        },
                        old(self).no_cache,
                        false,
                    )
                    &&& progress::emitted(
                        *old(progress),
                        seq![
                            BuildEventView::VertexDone {
                                id: f.vertex,
                                cached: true,
                                duration: executor::seconds(0),
                            },
                        ],
                        0,
                        *final(progress),
                    )
                },
                None => {
                    &&& final(self).phase == Phase::Preparing(f, layer)
                    &&& prepares(r, f)
                    &&& progress::emitted(*old(progress), resolve_events(f), 0, *final(progress))
                },
            },
    {
        let mut phase = Phase::Failed;
        std::mem::swap(&mut phase, &mut self.phase);
        match phase {
            Phase::AskingBase(f, layer) => match cached {
                Some(c) => {
                    let run = f.restored(layer, c, &self.cli_args, self.no_cache, progress);
                    self.phase = Phase::Between(run, 0);
                    Task::Continue
                },
                None => self.prepare(f, layer, progress),
            },
            _ => Task::Continue,
        }
    }

    /// Go on once the base is prepared; `config` is the config of the base image.
    pub fn prepared<R: BuildProgress>(
        &mut self,
        config: Result<Option<BaseConfig>, Error>,
        progress: &mut ProgressEmitter<R>,
        elapsed: Duration,
    ) -> (r: Result<Task, Error>)
        requires
            old(self).well_formed(),
            old(self).phase is Preparing,
        ensures
            final(self).well_formed(),
            final(self).goes_on(old(self)),
            old(self).phase matches Phase::Preparing(f, layer) && match config {
                Err(e) => {
                    &&& r == Err::<Task, Error>(e)
                    &&& final(self).phase is Failed
                    &&& progress::emitted(
                        *old(progress),
                        failed_vertex(f.vertex, e@, elapsed),
                        0,
                        *final(progress),
                    )
                },
                Ok(c) => {
                    &&& final(self).phase matches Phase::SavingBase(g, l, state) && g == f && l
                        == layer && state@ == (StateView {
                        rootfs: f.dir@.child("rootfs"@),
                        rootfs_shared: false,
                        work_rootfs: f.dir@.child("rootfs"@),
                        meta: executor::base_meta(c),
                        args: old(self).cli_args.pairs(),
                        layer_id: Seq::empty(),
                    })
                    &&& r matches Ok(Task::Save { id, parent, key, fs_changed }) && id@ == layer.id@
                        && parent@.len() == 0 && key@ == layer.key@ && fs_changed
                    &&& *final(progress) == *old(progress)
                },
            },
    {
        let mut phase = Phase::Failed;
        std::mem::swap(&mut phase, &mut self.phase);
        match phase {
            Phase::Preparing(f, layer) => match config {
                Err(e) => Err(fail_vertex(progress, f.vertex, e, elapsed)),
                Ok(c) => {
                    let state = init_stage_from_image(c, &f.rootfs(), &self.cli_args);
                    let id = layer.id.clone();
                    let key = layer.key.clone();
                    self.phase = Phase::SavingBase(f, layer, state);
                    Ok(Task::Save { id, parent: String::new(), key, fs_changed: true })
                },
            },
            _ => Ok(Task::Continue),
        }
    }

    /// Go on once the base is stored in the cache.
    pub fn base_saved<R: BuildProgress>(
        &mut self,
        progress: &mut ProgressEmitter<R>,
        elapsed: Duration,
    ) -> (r: Task)
        requires
            old(self).well_formed(),
            old(self).phase is SavingBase,
        ensures
            final(self).well_formed(),
            final(self).goes_on(old(self)),
            r is Continue,
            old(self).phase matches Phase::SavingBase(f, layer, state) && {
                &&& final(self).phase matches Phase::Between(run, i) && i == 0 && run@ == run_of(
                    f,
                    layer.id@,
                    StateView {
                        work_rootfs: f.dir@.child("rootfs"@),
                        layer_id: layer.id@,
                        ..state@
                    },
                    old(self).no_cache,
                    true,
                )
                &&& progress::emitted(
                    *old(progress),
                    seq![
                        BuildEventView::VertexDone {
                            id: f.vertex,
                            cached: false,
                            duration: elapsed,
                        },
                    ],
                    0,
                    *final(progress),
                )
            },
    {
        let mut phase = Phase::Failed;
        std::mem::swap(&mut phase, &mut self.phase);
        match phase {
            Phase::SavingBase(f, layer, state) => {
                let run = f.built(layer, state, self.no_cache, progress, elapsed);
                self.phase = Phase::Between(run, 0);
            },
            _ => {},
        }
        Task::Continue
    }

    /// Take up the next instruction of the stage. Behind the last one the stage is
    /// recorded for `COPY --from`, and the next stage begins, or the build ends.
    pub fn next<R: BuildProgress>(
        &mut self,
        progress: &mut ProgressEmitter<R>,
        elapsed: Duration,
    ) -> (r: Result<Task, Error>)
        requires
            old(self).well_formed(),
            old(self).phase is Between,
            old(progress).next_id < u32::MAX,
        ensures
            final(self).well_formed(),
            old(self).phase matches Phase::Between(run, i) && if i < old(self).instructions().len() {
                let inst = old(self).instructions()[i as int];
                let vertex = old(progress).next_id;
                let start = seq![
                    BuildEventView::VertexStart {
                        id: vertex,
                        name: executor::step_name(
                            run@.label,
                            (i + 2) as nat,
                            run.total as nat,
                            stage::summary(inst, run@.state.vars()),
                        ),
                    },
                ];
                &&& final(self).goes_on(old(self))
                &&& match cache::sources_of(
                    old(self).host,
                    inst,
                    run@.state.vars(),
                    old(self).donors@,
                ) {
                    Ok(places) => {
                        &&& final(self).phase == Phase::Looking(run, i, vertex)
                        &&& r matches Ok(Task::Look(s)) && cache::source_views(s@) == places
                        &&& progress::emitted(*old(progress), start, 1, *final(progress))
                    },
                    Err(m) => {
                        &&& final(self).phase is Failed
                        &&& r matches Err(e) && e@ == ErrorView::Other(m)
                        &&& progress::emitted(
                            *old(progress),
                            start + failed_vertex(vertex, ErrorView::Other(m), elapsed),
                            1,
                            *final(progress),
                        )
                    },
                }
            } else {
                &&& *final(progress) == *old(progress)
                &&& final(self).same_build(old(self))
                &&& final(self).donors@.len() >= old(self).donors@.len()
                &&& final(self).donors@.take(old(self).donors@.len() as int) == old(self).donors@
                &&& executor::donors_for(
                    final(self).donors@.skip(old(self).donors@.len() as int),
                    old(self).at as nat,
                    old(self).stage().name.deep_view(),
                    run@.state,
                )
                &&& if old(self).at < old(self).plan.target {
                    &&& r matches Ok(t) && opens(t, final(self).home())
                    &&& final(self).phase is Opening
                    &&& final(self).at == old(self).at + 1
                } else {
                    &&& r matches Ok(Task::Export)
                    &&& final(self).phase == Phase::Done(run)
                    &&& final(self).at == old(self).at
                }
            },
    {
        let mut phase = Phase::Failed;
        std::mem::swap(&mut phase, &mut self.phase);
        match phase {
            Phase::Between(run, i) => {
                let stage = &self.plan.stages[self.at];
                if i < stage.instructions.len() {
                    let inst = &stage.instructions[i];
                    let ghost p0 = *progress;
                    let vertex: u32 = run.begin_step(i, inst, progress);
                    let ghost p1 = *progress;
                    let vars = stage_vars(&run.state);
                    match key_sources(self.host, inst, &vars, &self.donors) {
                        Ok(s) => {
                            self.phase = Phase::Looking(run, i, vertex);
                            Ok(Task::Look(s))
                        },
                        Err(e) => {
                            let ghost v = e@;
                            let r = fail_vertex(progress, vertex, e, elapsed);
                            proof {
                                let start = seq![
                                    BuildEventView::VertexStart {
                                        id: vertex,
                                        name: executor::step_name(
                                            run@.label,
                                            (i + 2) as nat,
                                            run.total as nat,
                                            stage::summary(*inst, run@.state.vars()),
                                        ),
                                    },
                                ];
                                progress::lemma_emitted_add(
                                    p0,
                                    start,
                                    1,
                                    p1,
                                    failed_vertex(vertex, v, elapsed),
                                    0,
                                    *progress,
                                );
                            }
                            Err(r)
                        },
                    }
                } else {
                    complete_stage(&mut self.donors, self.at, &stage.name, &run.state);
                    if self.at < self.plan.target {
                        self.at = self.at + 1;
                        self.phase = Phase::Idle;
                        Ok(self.begin())
                    } else {
                        self.phase = Phase::Done(run);
                        Ok(Task::Export)
                    }
                }
            },
            _ => Ok(Task::Continue),
        }
    }

    /// Whether an instruction was handed over to be carried out, or failed.
    pub open spec fn handed_over<R: BuildProgress>(
        &self,
        run: StageRun,
        i: usize,
        vertex: u32,
        layer: LayerKey,
        elapsed: Duration,
        pre: ProgressEmitter<R>,
        r: Result<Task, Error>,
        after: &Solve,
        post: ProgressEmitter<R>,
    ) -> bool {
        let inst = self.instructions()[i as int];
        let state = stage::applied(run@.state, inst, self.plan.global_args@);
        let work = stage::work_of(self.host, state, inst, self.network);
        match work {
            Ok(w) => {
                &&& r matches Ok(Task::Work(x)) && x@ == w
                &&& after.phase matches Phase::Working(run2, i2, v2, l2) && run2@ == (RunView {
                    state,
                    ..run@
                }) && i2 == i && v2 == vertex && l2 == layer
                &&& progress::emitted(pre, stage::work_events(vertex, work), 0, post)
            },
            Err(v) => {
                &&& r matches Err(e) && e@ == v
                &&& after.phase is Failed
                &&& progress::emitted(pre, failed_vertex(vertex, v, elapsed), 0, post)
            },
        }
    }

    /// Whether an instruction that the cache did not have was begun: its root
    /// filesystem is copied first where it is a shared one.
    pub open spec fn taken_up<R: BuildProgress>(
        &self,
        run: StageRun,
        i: usize,
        vertex: u32,
        layer: LayerKey,
        elapsed: Duration,
        pre: ProgressEmitter<R>,
        r: Result<Task, Error>,
        after: &Solve,
        post: ProgressEmitter<R>,
    ) -> bool {
        let inst = self.instructions()[i as int];
        if cache::changes_filesystem(inst) && run@.state.rootfs_shared {
            &&& after.phase == Phase::Copying(run, i, vertex, layer)
            &&& r matches Ok(Task::Copy { from, to }) && from@ == run@.state.rootfs && to@
                == run@.state.work_rootfs
            &&& post == pre
        } else {
            self.handed_over(run, i, vertex, layer, elapsed, pre, r, after, post)
        }
    }

    /// Hand an instruction over to be carried out.
    fn hand_over<R: BuildProgress>(
        &mut self,
        run: StageRun,
        i: usize,
        vertex: u32,
        layer: LayerKey,
        progress: &mut ProgressEmitter<R>,
        elapsed: Duration,
    ) -> (r: Result<Task, Error>)
        requires
            old(self).well_formed(),
            i < old(self).instructions().len(),
            old(self).phase is Failed,
            sound(run@, old(self).home(), old(self).no_cache),
            cache::changes_filesystem(old(self).instructions()[i as int])
                ==> !run@.state.rootfs_shared,
        ensures
            final(self).well_formed(),
            final(self).goes_on(old(self)),
            old(self).handed_over(
                run,
                i,
                vertex,
                layer,
                elapsed,
                *old(progress),
                r,
                final(self),
                *final(progress),
            ),
    {
        let inst = &self.plan.stages[self.at].instructions[i];
        let mut run = run;
        let ghost state0 = run@.state;
        let ghost p0 = *progress;
        let work = apply_instruction(
            self.host,
            &mut run.state,
            inst,
            &self.plan.global_args,
            self.network,
            progress,
            vertex,
        );
        proof {
            stage::instructions_keep_the_rootfs(state0, *inst, self.plan.global_args@);
        }
        match work {
            Ok(w) => {
                self.phase = Phase::Working(run, i, vertex, layer);
                Ok(Task::Work(w))
            },
            Err(e) => {
                let ghost v = e@;
                let ghost p1 = *progress;
                let x = fail_vertex(progress, vertex, e, elapsed);
                proof {
                    let none = Seq::<BuildEventView>::empty();
                    progress::lemma_emitted_add(
                        p0,
                        none,
                        0,
                        p1,
                        failed_vertex(vertex, v, elapsed),
                        0,
                        *progress,
                    );
                    assert(none + failed_vertex(vertex, v, elapsed) =~= failed_vertex(
                        vertex,
                        v,
                        elapsed,
                    ));
                }
                Err(x)
            },
        }
    }

    /// Begin an instruction that the cache did not have.
    fn take_up<R: BuildProgress>(
        &mut self,
        run: StageRun,
        i: usize,
        vertex: u32,
        layer: LayerKey,
        progress: &mut ProgressEmitter<R>,
        elapsed: Duration,
    ) -> (r: Result<Task, Error>)
        requires
            old(self).well_formed(),
            i < old(self).instructions().len(),
            old(self).phase is Failed,
            sound(run@, old(self).home(), old(self).no_cache),
        ensures
            final(self).well_formed(),
            final(self).goes_on(old(self)),
            old(self).taken_up(
                run,
                i,
                vertex,
                layer,
                elapsed,
                *old(progress),
                r,
                final(self),
                *final(progress),
            ),
    {
        if run.needs_copy(&self.plan.stages[self.at].instructions[i]) {
            let from = run.state.rootfs.copy();
            let to = run.state.work_rootfs.copy();
            self.phase = Phase::Copying(run, i, vertex, layer);
            Ok(Task::Copy { from, to })
        } else {
            self.hand_over(run, i, vertex, layer, progress, elapsed)
        }
    }

    /// Go on with what stands at the sources of an instruction.
    pub fn looked<R: BuildProgress>(
        &mut self,
        found: Result<Vec<Node>, Error>,
        progress: &mut ProgressEmitter<R>,
        elapsed: Duration,
    ) -> (r: Result<Task, Error>)
        requires
            old(self).well_formed(),
            old(self).phase matches Phase::Looking(run, i, v) && (found matches Ok(n) ==> n@.len()
                == cache::source_count(old(self).instructions()[i as int])),
        ensures
            final(self).well_formed(),
            final(self).goes_on(old(self)),
            old(self).phase matches Phase::Looking(run, i, vertex) && match found {
                Err(e) => {
                    &&& r == Err::<Task, Error>(e)
                    &&& final(self).phase is Failed
                    &&& progress::emitted(
                        *old(progress),
                        failed_vertex(vertex, e@, elapsed),
                        0,
                        *final(progress),
                    )
                },
                Ok(n) => exists|layer: LayerKey| #[trigger]
                    step_layer_is(
                        layer,
                        run@,
                        old(self).instructions()[i as int],
                        n@,
                        old(self).network,
                    ) && if run@.cache_busted {
                        old(self).taken_up(
                            run,
                            i,
                            vertex,
                            layer,
                            elapsed,
                            *old(progress),
                            r,
                            final(self),
                            *final(progress),
                        )
                    } else {
                        &&& final(self).phase == Phase::Asking(run, i, vertex, layer)
                        &&& r matches Ok(Task::Ask(id)) && id@ == layer.id@
                        &&& *final(progress) == *old(progress)
                    },
            },
    {
        let mut phase = Phase::Failed;
        std::mem::swap(&mut phase, &mut self.phase);
        match phase {
            Phase::Looking(run, i, vertex) => match found {
                Err(e) => Err(fail_vertex(progress, vertex, e, elapsed)),
                Ok(n) => {
                    let inst = &self.plan.stages[self.at].instructions[i];
                    let layer = run.layer(inst, &n, self.network.as_str());
                    assert(step_layer_is(layer, run@, *inst, n@, self.network));
                    if run.asks_cache() {
                        let id = layer.id.clone();
                        self.phase = Phase::Asking(run, i, vertex, layer);
                        Ok(Task::Ask(id))
                    } else {
                        self.take_up(run, i, vertex, layer, progress, elapsed)
                    }
                },
            },
            _ => Ok(Task::Continue),
        }
    }

    /// Go on with what the cache has for an instruction.
    pub fn step_asked<R: BuildProgress>(
        &mut self,
        cached: Option<CachedLayer>,
        progress: &mut ProgressEmitter<R>,
        elapsed: Duration,
    ) -> (r: Result<Task, Error>)
        requires
            old(self).well_formed(),
            old(self).phase is Asking,
        ensures
            final(self).well_formed(),
            final(self).goes_on(old(self)),
            old(self).phase matches Phase::Asking(run, i, vertex, layer) && match cached {
                Some(c) => {
                    &&& r matches Ok(Task::Continue)
                    &&& final(self).phase matches Phase::Between(run2, i2) && i2 == i + 1 && run2@
                        == executor::after_cached(
                        run@,
                        layer.id@,
                        c.meta@,
                        stage::applied(
                            run@.state,
                            old(self).instructions()[i as int],
                            old(self).plan.global_args@,
                        ).args,
                        c.rootfs@,
                    )
                    &&& progress::emitted(
                        *old(progress),
                        seq![
                            BuildEventView::VertexDone {
                                id: vertex,
                                cached: true,
                                duration: executor::seconds(0),
                            },
                        ],
                        0,
                        *final(progress),
                    )
                },
                None => old(self).taken_up(
                    run,
                    i,
                    vertex,
                    layer,
                    elapsed,
                    *old(progress),
                    r,
                    final(self),
                    *final(progress),
                ),
            },
    {
        let mut phase = Phase::Failed;
        std::mem::swap(&mut phase, &mut self.phase);
        match phase {
            Phase::Asking(run, i, vertex, layer) => match cached {
                Some(c) => {
                    let n: usize = self.plan.stages[self.at].instructions.len();
                    assert(i < n);
                    let mut run = run;
                    let inst = &self.plan.stages[self.at].instructions[i];
                    run.restored(inst, &self.plan.global_args, layer, c, vertex, progress);
                    self.phase = Phase::Between(run, i + 1);
                    Ok(Task::Continue)
                },
                None => self.take_up(run, i, vertex, layer, progress, elapsed),
            },
            _ => Ok(Task::Continue),
        }
    }

    /// Go on once the root filesystem is copied.
    pub fn copied<R: BuildProgress>(
        &mut self,
        outcome: Result<(), Error>,
        progress: &mut ProgressEmitter<R>,
        elapsed: Duration,
    ) -> (r: Result<Task, Error>)
        requires
            old(self).well_formed(),
            old(self).phase is Copying,
        ensures
            final(self).well_formed(),
            final(self).goes_on(old(self)),
            old(self).phase matches Phase::Copying(run, i, vertex, layer) && match outcome {
                Err(e) => {
                    &&& r == Err::<Task, Error>(e)
                    &&& final(self).phase is Failed
                    &&& progress::emitted(
                        *old(progress),
                        failed_vertex(vertex, e@, elapsed),
                        0,
                        *final(progress),
                    )
                },
                Ok(_) => exists|copy: StageRun| #[trigger]
                    copy@ == executor::on_copy(run@) && old(self).handed_over(
                        copy,
                        i,
                        vertex,
                        layer,
                        elapsed,
                        *old(progress),
                        r,
                        final(self),
                        *final(progress),
                    ),
            },
    {
        let mut phase = Phase::Failed;
        std::mem::swap(&mut phase, &mut self.phase);
        match phase {
            Phase::Copying(run, i, vertex, layer) => match outcome {
                Err(e) => Err(fail_vertex(progress, vertex, e, elapsed)),
                Ok(_) => {
                    let mut run = run;
                    run.made_writable();
                    self.hand_over(run, i, vertex, layer, progress, elapsed)
                },
            },
            _ => Ok(Task::Continue),
        }
    }

    /// Go on once an instruction is carried out.
    pub fn worked<R: BuildProgress>(
        &mut self,
        outcome: Result<(), Error>,
        progress: &mut ProgressEmitter<R>,
        elapsed: Duration,
    ) -> (r: Result<Task, Error>)
        requires
            old(self).well_formed(),
            old(self).phase is Working,
        ensures
            final(self).well_formed(),
            final(self).goes_on(old(self)),
            old(self).phase matches Phase::Working(run, i, vertex, layer) && match outcome {
                Err(e) => {
                    &&& r == Err::<Task, Error>(e)
                    &&& final(self).phase is Failed
                    &&& progress::emitted(
                        *old(progress),
                        failed_vertex(vertex, e@, elapsed),
                        0,
                        *final(progress),
                    )
                },
                Ok(_) => {
                    &&& final(self).phase == Phase::Saving(run, i, vertex, layer)
                    &&& r matches Ok(Task::Save { id, parent, key, fs_changed }) && id@ == layer.id@
                        && parent@ == run@.parent_id && key@ == layer.key@ && fs_changed
                        == layer.fs_changed
                    &&& *final(progress) == *old(progress)
                },
            },
    {
        let mut phase = Phase::Failed;
        std::mem::swap(&mut phase, &mut self.phase);
        match phase {
            Phase::Working(run, i, vertex, layer) => match outcome {
                Err(e) => Err(fail_vertex(progress, vertex, e, elapsed)),
                Ok(_) => {
                    let task = Task::Save {
                        id: layer.id.clone(),
                        parent: run.parent_id.clone(),
                        key: layer.key.clone(),
                        fs_changed: layer.fs_changed,
                    };
                    self.phase = Phase::Saving(run, i, vertex, layer);
                    Ok(task)
                },
            },
            _ => Ok(Task::Continue),
        }
    }

    /// Go on once an instruction is stored in the cache.
    pub fn step_saved<R: BuildProgress>(
        &mut self,
        progress: &mut ProgressEmitter<R>,
        elapsed: Duration,
    ) -> (r: Task)
        requires
            old(self).well_formed(),
            old(self).phase is Saving,
        ensures
            final(self).well_formed(),
            final(self).goes_on(old(self)),
            r is Continue,
            old(self).phase matches Phase::Saving(run, i, vertex, layer) && {
                &&& final(self).phase matches Phase::Between(run2, i2) && i2 == i + 1 && run2@
                    == executor::after_built(run@, layer.id@)
                &&& progress::emitted(
                    *old(progress),
                    seq![
                        BuildEventView::VertexDone { id: vertex, cached: false, duration: elapsed },
                    ],
                    0,
                    *final(progress),
                )
            },
    {
        let mut phase = Phase::Failed;
        std::mem::swap(&mut phase, &mut self.phase);
        match phase {
            Phase::Saving(run, i, vertex, layer) => {
                let n: usize = self.plan.stages[self.at].instructions.len();
                assert(i < n);
                let mut run = run;
                run.finish_step(layer, vertex, progress, elapsed);
                self.phase = Phase::Between(run, i + 1);
            },
            _ => {},
        }
        Task::Continue
    }
}

/// A root filesystem inside the cache is never changed: what an instruction does to
/// the files of its stage, it does to the stage's own root filesystem.
pub proof fn shared_rootfs_is_not_changed(s: Solve)
    requires
        s.well_formed(),
    ensures
        s.phase matches Phase::Working(run, i, _, _) ==> cache::changes_filesystem(
            s.instructions()[i as int],
        ) ==> !run@.state.rootfs_shared && run@.state.rootfs == s.home().child("rootfs"@),
{
}

/// The cache is not asked: the instruction in work, if there is one, is handed over to
/// be carried out, and a `RUN` is handed to the backend.
pub open spec fn carries_out(s: Solve) -> bool {
    &&& !(s.phase is AskingBase)
    &&& !(s.phase is Asking)
    &&& s.in_work() matches Some((run, i, _)) ==> {
        let inst = s.instructions()[i as int];
        &&& run@.cache_busted
        &&& inst is Run ==> forall|state: StateView|
            #![trigger stage::work_of(s.host, state, inst, s.network)]
            stage::work_of(s.host, state, inst, s.network) matches Ok(w) ==> w is Run
    }
}

/// Without a cache, the cache is never asked: every instruction is carried out.
pub proof fn no_cache_is_not_asked(s: Solve)
    requires
        s.well_formed(),
        s.no_cache,
    ensures
        carries_out(s),
{
}

/// Without a cache, the exported layer is packed from the root filesystem that this
/// build has made, whatever blob an earlier build has left.
pub proof fn no_cache_packs_this_build(
    s: Solve,
    source: ExportSource,
    has_blob: bool,
    blob_path: Option<HostPath>,
)
    requires
        s.well_formed(),
        s.no_cache,
        s.phase matches Phase::Done(run) && export::source_is(source, run@, has_blob, blob_path),
    ensures
        s.phase matches Phase::Done(run) && (source matches ExportSource::Pack(p) && p@
            == run@.state.rootfs),
{
}

/// A build without the cache stores what it has made: in none of its states is the
/// cache asked, so every `RUN` goes to the backend; and with `entries` as the files and
/// directories of the root filesystem that it ends with, the layer that stands under a
/// tag afterwards unpacks to them, whatever an earlier build has left in the cache or
/// under the tag. A layer that stands there with the digest of the new one is taken to
/// be that layer. Links are not packed, so there are none.
pub proof fn no_cache_stores_this_build(
    s: Solve,
    source: ExportSource,
    has_blob: bool,
    blob_path: Option<HostPath>,
    machine: Host,
    entries: Seq<Entry>,
    packed: Result<Vec<u8>, Error>,
    files: Map<PathView, Seq<u8>>,
    image: PathView,
    platform: PlatformView,
    facts: TagFacts,
    config: Seq<char>,
    root: PathView,
)
    requires
        s.well_formed(),
        s.no_cache,
        s.phase matches Phase::Done(run) && export::source_is(source, run@, has_blob, blob_path),
        tree::distinct(entries),
        packing::packable(machine, entries),
        packing::linkless(entries),
        archive::packed_rootfs(packed, machine, entries),
        packed matches Ok(layer) ==> export::already_there(
            facts,
            digest::labelled_digest(layer@),
        ) ==> files.contains_key(store::blob_at(image, 0)) && files[store::blob_at(image, 0)]
            == layer@,
    ensures
        forall|t: Solve| #[trigger] t.well_formed() && t.same_build(&s) ==> carries_out(t),
        s.phase matches Phase::Done(run) && (source matches ExportSource::Pack(p) && p@
            == run@.state.rootfs),
        packed matches Ok(layer) && {
            let after = store::files_after(
                files,
                export::tag_steps(
                    image,
                    platform,
                    facts,
                    config,
                    ExportLayer::Bytes(layer),
                    digest::labelled_digest(layer@),
                ),
            );
            let listing = archive::tar_listing(after[store::blob_at(image, 0)]);
            &&& after.contains_key(store::blob_at(image, 0))
            &&& unpack::layer_fault(machine, listing) is None
            &&& packing::layer_applied(machine, Shape::Dir(Map::empty()), root, listing.0)
                == Shape::Dir(tree::shapes(entries))
        },
{
    assert forall|t: Solve| #[trigger] t.well_formed() && t.same_build(&s) implies carries_out(
        t,
    ) by {
        no_cache_is_not_asked(t);
    }
    no_cache_packs_this_build(s, source, has_blob, blob_path);
    packing::packed_tree_comes_back(machine, root, entries, packed);
    let layer = packed->Ok_0;
    let label = digest::labelled_digest(layer@);
    export::exported_layer_is_stored(
        files,
        image,
        platform,
        facts,
        config,
        ExportLayer::Bytes(layer),
        label,
        layer@,
    );
}

} // verus!
