//! The work of a `COPY` or `ADD`: remote sources, other sources, here-documents.

use vstd::prelude::*;

use crate::cache::{self, context_sources, Donor, Source, SourceView};
use crate::context::{self, copy_foreign, BuildContext};
use crate::copying::{
    self, add_remote, copy_dest_path, copy_sources, fetch_error, goes_into_dir, make_parent,
    write_heredocs, FetchFailure,
};
use crate::dockerfile::Heredoc;
use crate::error::{self, Error, ErrorView};
use crate::fs::{self, no_steps, FsOp, Step, StepView};
use crate::fsutil::{self, guest_to_host};
use crate::path::{HostPath, PathView};
use crate::tree::Node;
use crate::winpath::{self, Host};

verus! {

/// Where a transfer stands.
#[derive(Debug)]
pub enum TransferPhase {
    /// Whether the destination is a directory is awaited for this remote source.
    Url(usize),
    /// This remote source is fetched for this path.
    Fetching(usize, HostPath),
    /// This remote source is written to this path.
    Storing(usize, HostPath),
    /// The path of this source is awaited.
    Resolving(usize),
    /// Whether the destination is a directory is awaited for this source at this path.
    Source(usize, HostPath),
    /// What stands at the first path is awaited for this source; it goes to the second.
    Reading(usize, HostPath, HostPath),
    /// This source is copied.
    Copying(usize),
    /// Whether the destination is a directory is awaited for the here-documents.
    Documents,
    /// Nothing is left but the last steps.
    Finished,
    /// The transfer has failed.
    Failed,
}

/// A [`TransferPhase`] with its paths as views.
pub enum TransferPhaseView {
    Url(int),
    Fetching(int, PathView),
    Storing(int, PathView),
    Resolving(int),
    Source(int, PathView),
    Reading(int, PathView, PathView),
    Copying(int),
    Documents,
    Finished,
    Failed,
}

impl View for TransferPhase {
    type V = TransferPhaseView;

    open spec fn view(&self) -> TransferPhaseView {
        match self {
            TransferPhase::Url(i) => TransferPhaseView::Url(*i as int),
            TransferPhase::Fetching(i, p) => TransferPhaseView::Fetching(*i as int, p@),
            TransferPhase::Storing(i, p) => TransferPhaseView::Storing(*i as int, p@),
            TransferPhase::Resolving(i) => TransferPhaseView::Resolving(*i as int),
            TransferPhase::Source(i, p) => TransferPhaseView::Source(*i as int, p@),
            TransferPhase::Reading(i, p, q) => TransferPhaseView::Reading(*i as int, p@, q@),
            TransferPhase::Copying(i) => TransferPhaseView::Copying(*i as int),
            TransferPhase::Documents => TransferPhaseView::Documents,
            TransferPhase::Finished => TransferPhaseView::Finished,
            TransferPhase::Failed => TransferPhaseView::Failed,
        }
    }
}

/// What a transfer needs next.
#[derive(Debug)]
pub enum TransferTask {
    /// Find out whether the destination is a directory, then call
    /// [`Transfer::looked`].
    Look,
    /// Perform the steps and fetch the address, then call [`Transfer::fetched`].
    Fetch {
        /// Steps to perform first.
        steps: Vec<Step>,
        /// Address to fetch.
        url: String,
    },
    /// Perform the steps and write the data, then call [`Transfer::stored`].
    Store {
        /// Steps to perform first.
        steps: Vec<Step>,
        /// File to write.
        path: HostPath,
        /// What to write.
        data: Vec<u8>,
    },
    /// Find the path that this name in the build context leads to, then call
    /// [`Transfer::resolved`].
    Resolve(String),
    /// Perform the steps and read what stands at the path, then call
    /// [`Transfer::read`].
    Read {
        /// Steps to perform first.
        steps: Vec<Step>,
        /// Path to read.
        path: HostPath,
    },
    /// Perform the steps, each failure turned into [`copy_error`], then call
    /// [`Transfer::copied`].
    Copy(Vec<Step>),
    /// Perform the steps; the transfer fails with this error then.
    Fail {
        /// Steps to perform.
        steps: Vec<Step>,
        /// Why the transfer fails.
        error: Error,
    },
    /// Perform the steps; nothing is left then.
    Finish(Vec<Step>),
}

/// A [`TransferTask`] with its steps and texts as views.
pub enum TransferTaskView {
    Look,
    Fetch { steps: Seq<StepView>, url: Seq<char> },
    Store { steps: Seq<StepView>, path: PathView, data: Seq<u8> },
    Resolve(Seq<char>),
    Read { steps: Seq<StepView>, path: PathView },
    Copy(Seq<StepView>),
    Fail { steps: Seq<StepView>, error: ErrorView },
    Finish(Seq<StepView>),
}

impl View for TransferTask {
    type V = TransferTaskView;

    open spec fn view(&self) -> TransferTaskView {
        match self {
            TransferTask::Look => TransferTaskView::Look,
            TransferTask::Fetch { steps, url } => TransferTaskView::Fetch {
                steps: fs::step_views(steps@),
                url: url@,
            },
            TransferTask::Store { steps, path, data } => TransferTaskView::Store {
                steps: fs::step_views(steps@),
                path: path@,
                data: data@,
            },
            TransferTask::Resolve(name) => TransferTaskView::Resolve(name@),
            TransferTask::Read { steps, path } => TransferTaskView::Read {
                steps: fs::step_views(steps@),
                path: path@,
            },
            TransferTask::Copy(steps) => TransferTaskView::Copy(fs::step_views(steps@)),
            TransferTask::Fail { steps, error } => TransferTaskView::Fail {
                steps: fs::step_views(steps@),
                error: error@,
            },
            TransferTask::Finish(steps) => TransferTaskView::Finish(fs::step_views(steps@)),
        }
    }
}

/// What a `COPY` or `ADD` brings where.
#[derive(Debug)]
pub struct Transfer<'a> {
    /// Destination on the host.
    pub dest: HostPath,
    /// Absolute guest destination.
    pub dest_guest: String,
    /// Addresses to fetch.
    pub remote: Vec<String>,
    /// Other sources.
    pub sources: Vec<Source>,
    /// Number of sources of the instruction.
    pub total: usize,
    /// Here-documents of the instruction.
    pub heredocs: &'a Vec<Heredoc>,
    /// Where the transfer stands.
    pub phase: TransferPhase,
}

/// What a transfer brings where, with texts and paths as views.
#[verifier::ext_equal]
pub struct TransferPlan {
    pub dest: PathView,
    pub dest_guest: Seq<char>,
    pub remote: Seq<Seq<char>>,
    pub sources: Seq<SourceView>,
    pub total: nat,
    pub heredocs: Seq<Heredoc>,
}

/// Where a transfer stands behind its sources, and what it needs then: the
/// here-documents come last.
pub open spec fn at_documents(p: TransferPlan) -> (TransferPhaseView, TransferTaskView) {
    if p.heredocs.len() == 0 {
        (TransferPhaseView::Finished, TransferTaskView::Finish(Seq::empty()))
    } else {
        (TransferPhaseView::Documents, TransferTaskView::Look)
    }
}

/// Sources that are not fetched.
pub open spec fn none_remote(sources: Seq<SourceView>) -> bool {
    forall|i: int| 0 <= i < sources.len() ==> !(#[trigger] sources[i] is Url)
}

/// Where a transfer stands before the source with this number, which is not fetched,
/// and what it needs then.
pub open spec fn at_source(p: TransferPlan, i: int) -> (TransferPhaseView, TransferTaskView) {
    if i < p.sources.len() {
        match p.sources[i] {
            SourceView::Context(name) => (
                TransferPhaseView::Resolving(i),
                TransferTaskView::Resolve(name),
            ),
            SourceView::Stage(path) => (TransferPhaseView::Source(i, path), TransferTaskView::Look),
            SourceView::Url(_) => at_documents(p),
        }
    } else {
        at_documents(p)
    }
}

/// Where a transfer stands before the remote source with this number, and what it
/// needs then: the other sources come behind the last one.
pub open spec fn at_url(p: TransferPlan, i: int) -> (TransferPhaseView, TransferTaskView) {
    if i < p.remote.len() {
        (TransferPhaseView::Url(i), TransferTaskView::Look)
    } else {
        at_source(p, 0)
    }
}

/// What comes of knowing whether the destination is a directory.
pub open spec fn after_look(p: TransferPlan, phase: TransferPhaseView, is_dir: bool) -> Result<
    (TransferPhaseView, TransferTaskView),
    ErrorView,
> {
    match phase {
        TransferPhaseView::Url(i) => match copying::url_target(
            p.dest,
            p.dest_guest,
            p.total,
            is_dir,
            p.remote[i],
        ) {
            Ok((steps, path)) => Ok(
                (
                    TransferPhaseView::Fetching(i, path),
                    TransferTaskView::Fetch { steps, url: p.remote[i] },
                ),
            ),
            Err(e) => Err(e),
        },
        TransferPhaseView::Source(i, src) => {
            let (steps, target) = copying::copy_target(
                p.dest,
                copying::into_dir(p.dest_guest, p.sources.len() > 1, is_dir),
                src,
            );
            match target {
                Ok(path) => Ok(
                    (
                        TransferPhaseView::Reading(i, src, path),
                        TransferTaskView::Read { steps, path: src },
                    ),
                ),
                Err(error) => Ok(
                    (TransferPhaseView::Failed, TransferTaskView::Fail { steps, error }),
                ),
            }
        },
        _ => Ok(
            (
                TransferPhaseView::Finished,
                TransferTaskView::Finish(
                    copying::heredoc_steps(p.dest, p.dest_guest, is_dir, p.heredocs),
                ),
            ),
        ),
    }
}

/// Where the path `src` of a source lies in the context: nowhere unless it is a source
/// of the context.
pub open spec fn place_in(
    context: BuildContext,
    source: SourceView,
    src: PathView,
) -> Option<Seq<Seq<char>>> {
    match source {
        SourceView::Context(_) => context.place(src),
        _ => None,
    }
}

/// The failure of a step that copies files out of the build context.
pub fn copy_error(step: &Step, reason: Error) -> (r: Error)
    ensures
        match step.op {
            FsOp::Copy(a, b) => r@ == ErrorView::Other(
                context::copy_message(a@, b@, error::error_reason(reason@)),
            ),
            _ => r == reason,
        },
{
    match &step.op {
        FsOp::Copy(a, b) => context::copy_failed(a, b, reason.reason().as_str()),
        _ => reason,
    }
}

impl<'a> Transfer<'a> {
    /// What the transfer brings where; how far it has come is its phase.
    pub open spec fn plan(&self) -> TransferPlan {
        TransferPlan {
            dest: self.dest@,
            dest_guest: self.dest_guest@,
            remote: self.remote.deep_view(),
            sources: cache::source_views(self.sources@),
            total: self.total as nat,
            heredocs: self.heredocs@,
        }
    }

    /// Addresses are apart from other sources, and a source in hand is one of the
    /// transfer's.
    pub open spec fn well_formed(&self) -> bool {
        &&& none_remote(self.plan().sources)
        &&& match self.phase {
            TransferPhase::Url(i) => i < self.remote@.len(),
            TransferPhase::Fetching(i, _) => i < self.remote@.len(),
            TransferPhase::Storing(i, _) => i < self.remote@.len(),
            TransferPhase::Resolving(i) => i < self.sources@.len(),
            TransferPhase::Source(i, _) => i < self.sources@.len(),
            TransferPhase::Reading(i, _, _) => i < self.sources@.len(),
            TransferPhase::Copying(i) => i < self.sources@.len(),
            _ => true,
        }
    }

    /// How many tasks are left at most.
    pub open spec fn remaining(&self) -> int {
        let remote = 3 * self.remote@.len();
        let all = 4 * self.sources@.len() + 2;
        match self.phase {
            TransferPhase::Url(i) => all + remote - 3 * i,
            TransferPhase::Fetching(i, _) => all + remote - 3 * i - 1,
            TransferPhase::Storing(i, _) => all + remote - 3 * i - 2,
            TransferPhase::Resolving(i) => all - 4 * i,
            TransferPhase::Source(i, _) => all - 4 * i - 1,
            TransferPhase::Reading(i, _, _) => all - 4 * i - 2,
            TransferPhase::Copying(i) => all - 4 * i - 3,
            TransferPhase::Documents => 1,
            _ => 0,
        }
    }

    /// The parts besides the phase are the same.
    pub open spec fn same_parts(&self, other: Transfer) -> bool {
        &&& self.dest == other.dest
        &&& self.dest_guest == other.dest_guest
        &&& self.remote == other.remote
        &&& self.sources == other.sources
        &&& self.total == other.total
        &&& self.heredocs == other.heredocs
    }

    /// Go on behind the sources.
    fn go_documents(&mut self) -> (r: TransferTask)
        requires
            none_remote(old(self).plan().sources),
        ensures
            final(self).same_parts(*old(self)),
            final(self).well_formed(),
            final(self).remaining() <= 1,
            (final(self).phase@, r@) == at_documents(old(self).plan()),
    {
        if self.heredocs.len() == 0 {
            self.phase = TransferPhase::Finished;
            TransferTask::Finish(no_steps())
        } else {
            self.phase = TransferPhase::Documents;
            TransferTask::Look
        }
    }

    /// Go on with the source with this number.
    fn go_source(&mut self, i: usize) -> (r: TransferTask)
        requires
            i <= old(self).sources@.len(),
            none_remote(old(self).plan().sources),
        ensures
            final(self).same_parts(*old(self)),
            final(self).well_formed(),
            final(self).remaining() <= 4 * (old(self).sources@.len() - i) + 2,
            (final(self).phase@, r@) == at_source(old(self).plan(), i as int),
    {
        if i < self.sources.len() {
            assert(self.plan().sources[i as int] == self.sources@[i as int]@);
            match &self.sources[i] {
                Source::Context(name) => {
                    let name = name.clone();
                    self.phase = TransferPhase::Resolving(i);
                    TransferTask::Resolve(name)
                },
                Source::Stage(path) => {
                    let path = path.copy();
                    self.phase = TransferPhase::Source(i, path);
                    TransferTask::Look
                },
                Source::Url(_) => self.go_documents(),
            }
        } else {
            self.go_documents()
        }
    }

    /// Go on with the remote source with this number.
    fn go_url(&mut self, i: usize) -> (r: TransferTask)
        requires
            i <= old(self).remote@.len(),
            none_remote(old(self).plan().sources),
        ensures
            final(self).same_parts(*old(self)),
            final(self).well_formed(),
            final(self).remaining() <= 4 * old(self).sources@.len() + 2 + 3 * (
            old(self).remote@.len() - i),
            (final(self).phase@, r@) == at_url(old(self).plan(), i as int),
    {
        if i < self.remote.len() {
            self.phase = TransferPhase::Url(i);
            TransferTask::Look
        } else {
            self.go_source(0)
        }
    }

    /// Begin the work of a `COPY`.
    pub fn copy(
        host: Host,
        rootfs: &HostPath,
        from: &Option<String>,
        sources: &Vec<String>,
        dest_guest: String,
        heredocs: &'a Vec<Heredoc>,
        donors: &Vec<Donor>,
    ) -> (r: Result<(Self, TransferTask), Error>)
        ensures
            match copying::copy_places(
                host,
                from.deep_view(),
                sources.deep_view(),
                donors@,
            ) {
                Err(m) => r matches Err(e) && e@ == ErrorView::Other(m),
                Ok(places) => {
                    &&& r matches Ok((t, task))
                    &&& t.well_formed()
                    &&& t.plan() == (TransferPlan {
                        dest: winpath::pushed(
                            host,
                            rootfs@,
                            fsutil::without_leading(dest_guest@, '/'),
                        ),
                        dest_guest: dest_guest@,
                        remote: Seq::empty(),
                        sources: places,
                        total: sources@.len(),
                        heredocs: heredocs@,
                    })
                    &&& (t.phase@, task@) == at_url(t.plan(), 0)
                },
            },
    {
        let total = sources.len();
        match copy_sources(host, from, sources, donors) {
            Err(e) => Err(e),
            Ok(sources) => {
                let dest = guest_to_host(host, rootfs, dest_guest.as_str());
                let remote: Vec<String> = Vec::new();
                assert(remote.deep_view() =~= Seq::<Seq<char>>::empty());
                let mut t = Transfer {
                    dest,
                    dest_guest,
                    remote,
                    sources,
                    total,
                    heredocs,
                    phase: TransferPhase::Failed,
                };
                let task = t.go_url(0);
                Ok((t, task))
            },
        }
    }

    /// Begin the work of an `ADD`.
    pub fn add(
        host: Host,
        rootfs: &HostPath,
        remote: Vec<String>,
        local: &Vec<String>,
        total: usize,
        dest_guest: String,
        heredocs: &'a Vec<Heredoc>,
    ) -> (r: (Self, TransferTask))
        ensures
            r.0.well_formed(),
            r.0.plan() == (TransferPlan {
                dest: winpath::pushed(host, rootfs@, fsutil::without_leading(dest_guest@, '/')),
                dest_guest: dest_guest@,
                remote: remote.deep_view(),
                sources: local.deep_view().map_values(|s: Seq<char>| SourceView::Context(s)),
                total: total as nat,
                heredocs: heredocs@,
            }),
            (r.0.phase@, r.1@) == at_url(r.0.plan(), 0),
    {
        let dest = guest_to_host(host, rootfs, dest_guest.as_str());
        let mut t = Transfer {
            dest,
            dest_guest,
            remote,
            sources: context_sources(local),
            total,
            heredocs,
            phase: TransferPhase::Failed,
        };
        let task = t.go_url(0);
        (t, task)
    }

    /// The destination is a directory, or is none.
    pub fn looked(&mut self, is_dir: bool) -> (r: Result<TransferTask, Error>)
        requires
            old(self).well_formed(),
            old(self).phase is Url || old(self).phase is Source || old(self).phase is Documents,
        ensures
            final(self).same_parts(*old(self)),
            final(self).well_formed(),
            final(self).remaining() < old(self).remaining(),
            match after_look(old(self).plan(), old(self).phase@, is_dir) {
                Ok((phase, task)) => r matches Ok(t) && t@ == task && final(self).phase@ == phase,
                Err(e) => r matches Err(x) && x@ == e && final(self).phase is Failed,
            },
            // One of several sources goes into the destination under its own name.
            old(self).phase@ matches TransferPhaseView::Source(i, src)
                ==> old(self).plan().sources.len() > 1 && src.file_name() is Some
                ==> final(self).phase@ == TransferPhaseView::Reading(
                i,
                src,
                old(self).plan().dest.child(src.file_name()->0),
            ),
    {
        let mut phase = TransferPhase::Failed;
        std::mem::swap(&mut phase, &mut self.phase);
        match phase {
            TransferPhase::Url(i) => {
                let url = self.remote[i].clone();
                assert(self.remote.deep_view()[i as int] == url@);
                match add_remote(
                    &self.dest,
                    self.dest_guest.as_str(),
                    self.total,
                    is_dir,
                    url.as_str(),
                ) {
                    Ok((steps, path)) => {
                        self.phase = TransferPhase::Fetching(i, path);
                        Ok(TransferTask::Fetch { steps, url })
                    },
                    Err(e) => Err(e),
                }
            },
            TransferPhase::Source(i, src) => {
                let as_dir = goes_into_dir(
                    self.dest_guest.as_str(),
                    self.sources.len() > 1,
                    is_dir,
                );
                let target = copy_dest_path(&self.dest, as_dir, &src);
                match target.path {
                    Ok(path) => {
                        let task = TransferTask::Read { steps: target.prepare, path: src.copy() };
                        self.phase = TransferPhase::Reading(i, src, path);
                        Ok(task)
                    },
                    Err(error) => Ok(TransferTask::Fail { steps: target.prepare, error }),
                }
            },
            _ => {
                let steps = write_heredocs(
                    &self.dest,
                    self.heredocs,
                    self.dest_guest.as_str(),
                    is_dir,
                );
                self.phase = TransferPhase::Finished;
                Ok(TransferTask::Finish(steps))
            },
        }
    }

    /// The address in hand was fetched, or could not be.
    pub fn fetched(&mut self, outcome: Result<Vec<u8>, FetchFailure>) -> (r: Result<
        TransferTask,
        Error,
    >)
        requires
            old(self).well_formed(),
            old(self).phase is Fetching,
        ensures
            final(self).same_parts(*old(self)),
            final(self).well_formed(),
            final(self).remaining() < old(self).remaining(),
            old(self).phase@ matches TransferPhaseView::Fetching(i, path) && match outcome {
                Ok(data) => {
                    &&& r matches Ok(task) && task@ == (TransferTaskView::Store {
                        steps: copying::parent_steps(path),
                        path,
                        data: data@,
                    })
                    &&& final(self).phase@ == TransferPhaseView::Storing(i, path)
                },
                Err(f) => {
                    &&& r matches Err(e) && e@ == ErrorView::Other(
                        copying::fetch_message(old(self).plan().remote[i], f),
                    )
                    &&& final(self).phase is Failed
                },
            },
    {
        let mut phase = TransferPhase::Failed;
        std::mem::swap(&mut phase, &mut self.phase);
        match phase {
            TransferPhase::Fetching(i, path) => {
                assert(self.remote.deep_view()[i as int] == self.remote@[i as int]@);
                match outcome {
                    Ok(data) => {
                        let task = TransferTask::Store {
                            steps: make_parent(&path),
                            path: path.copy(),
                            data,
                        };
                        self.phase = TransferPhase::Storing(i, path);
                        Ok(task)
                    },
                    Err(f) => Err(fetch_error(self.remote[i].as_str(), &f)),
                }
            },
            _ => Ok(TransferTask::Look),
        }
    }

    /// The file in hand was written, or could not be for this reason.
    pub fn stored(&mut self, outcome: Result<(), String>) -> (r: Result<TransferTask, Error>)
        requires
            old(self).well_formed(),
            old(self).phase is Storing,
        ensures
            final(self).same_parts(*old(self)),
            final(self).well_formed(),
            final(self).remaining() < old(self).remaining(),
            old(self).phase@ matches TransferPhaseView::Storing(i, path) && match outcome {
                Ok(_) => r matches Ok(task) && (final(self).phase@, task@) == at_url(
                    old(self).plan(),
                    i + 1,
                ),
                Err(reason) => {
                    &&& r matches Err(e) && e@ == ErrorView::Other(
                        copying::write_message(path, reason@),
                    )
                    &&& final(self).phase is Failed
                },
            },
            // No address is passed over.
            old(self).phase@ matches TransferPhaseView::Storing(i, _) ==> outcome is Ok && i + 1
                < old(self).plan().remote.len() ==> final(self).phase@ == TransferPhaseView::Url(
                i + 1,
            ),
    {
        let mut phase = TransferPhase::Failed;
        std::mem::swap(&mut phase, &mut self.phase);
        match phase {
            TransferPhase::Storing(i, path) => match outcome {
                Ok(_) => {
                    assert(i < self.remote.len());
                    Ok(self.go_url(i + 1))
                },
                Err(reason) => {
                    Err(fetch_error(self.remote[i].as_str(), &FetchFailure::Write(path, reason)))
                },
            },
            _ => Ok(TransferTask::Look),
        }
    }

    /// The source in hand stands at this path, or is refused.
    pub fn resolved(&mut self, outcome: Result<HostPath, Error>) -> (r: Result<TransferTask, Error>)
        requires
            old(self).well_formed(),
            old(self).phase is Resolving,
        ensures
            final(self).same_parts(*old(self)),
            final(self).well_formed(),
            final(self).remaining() < old(self).remaining(),
            old(self).phase@ matches TransferPhaseView::Resolving(i) && match outcome {
                Ok(path) => {
                    &&& r matches Ok(task) && task@ is Look
                    &&& final(self).phase@ == TransferPhaseView::Source(i, path@)
                },
                Err(e) => r == Err::<TransferTask, Error>(e) && final(self).phase is Failed,
            },
    {
        let mut phase = TransferPhase::Failed;
        std::mem::swap(&mut phase, &mut self.phase);
        match phase {
            TransferPhase::Resolving(i) => match outcome {
                Ok(path) => {
                    self.phase = TransferPhase::Source(i, path);
                    Ok(TransferTask::Look)
                },
                Err(e) => Err(e),
            },
            _ => Ok(TransferTask::Look),
        }
    }

    /// This stands at the path of the source in hand. What the rules of `context`
    /// leave out of a source in it is not copied; they do not apply to other sources.
    pub fn read(&mut self, node: &Node, context: &BuildContext) -> (r: Result<TransferTask, Error>)
        requires
            old(self).well_formed(),
            old(self).phase is Reading,
        ensures
            final(self).same_parts(*old(self)),
            final(self).well_formed(),
            final(self).remaining() < old(self).remaining(),
            old(self).phase@ matches TransferPhaseView::Reading(i, src, path)
                && match context::copied_steps(
                context.rules(),
                place_in(*context, old(self).plan().sources[i], src),
                *node,
                src,
                path,
            ) {
                Ok(steps) => {
                    &&& r matches Ok(task) && task@ == TransferTaskView::Copy(steps)
                    &&& final(self).phase@ == TransferPhaseView::Copying(i)
                },
                Err(m) => {
                    &&& r matches Err(e) && e@ == ErrorView::Other(m)
                    &&& final(self).phase is Failed
                },
            },
    {
        let mut phase = TransferPhase::Failed;
        std::mem::swap(&mut phase, &mut self.phase);
        match phase {
            TransferPhase::Reading(i, src, path) => {
                assert(self.plan().sources[i as int] == self.sources@[i as int]@);
                let steps = match &self.sources[i] {
                    Source::Context(_) => context.copy_into(node, &src, &path),
                    _ => copy_foreign(node, &src, &path),
                };
                match steps {
                    Ok(steps) => {
                        self.phase = TransferPhase::Copying(i);
                        Ok(TransferTask::Copy(steps))
                    },
                    Err(e) => Err(e),
                }
            },
            _ => Ok(TransferTask::Look),
        }
    }

    /// The source in hand was copied, or could not be.
    pub fn copied(&mut self, outcome: Result<(), Error>) -> (r: Result<TransferTask, Error>)
        requires
            old(self).well_formed(),
            old(self).phase is Copying,
        ensures
            final(self).same_parts(*old(self)),
            final(self).well_formed(),
            final(self).remaining() < old(self).remaining(),
            old(self).phase@ matches TransferPhaseView::Copying(i) && match outcome {
                Ok(_) => r matches Ok(task) && (final(self).phase@, task@) == at_source(
                    old(self).plan(),
                    i + 1,
                ),
                Err(e) => r == Err::<TransferTask, Error>(e) && final(self).phase is Failed,
            },
            // No source is passed over.
            old(self).phase@ matches TransferPhaseView::Copying(i) ==> outcome is Ok && i + 1
                < old(self).plan().sources.len() ==> match final(self).phase@ {
                TransferPhaseView::Resolving(k) => k == i + 1,
                TransferPhaseView::Source(k, _) => k == i + 1,
                _ => false,
            },
    {
        let mut phase = TransferPhase::Failed;
        std::mem::swap(&mut phase, &mut self.phase);
        match phase {
            TransferPhase::Copying(i) => match outcome {
                Ok(_) => {
                    assert(i < self.sources.len());
                    Ok(self.go_source(i + 1))
                },
                Err(e) => Err(e),
            },
            _ => Ok(TransferTask::Look),
        }
    }
}

} // verus!
