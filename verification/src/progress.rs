//! Progress events emitted while pulling images and executing builds.

use std::time::Duration;

use vstd::prelude::*;

use crate::text::{self, chars_of, part, strip_prefix};

verus! {

/// Events matching Docker's pull progress stream.
#[derive(Debug, Clone)]
pub enum PullEvent {
    /// Printed by `docker run` when the image is not cached locally.
    UnableToFindLocally {
        /// Image reference the caller asked for.
        reference: String,
    },
    /// `{tag}: Pulling from {repository}`
    PullingFrom {
        /// Tag being pulled (`latest` if omitted).
        tag: String,
        /// Repository path without registry prefix handling.
        repository: String,
    },
    /// Layer status without a byte counter (e.g. "Pulling fs layer").
    LayerStatus {
        /// Short layer id (first 12 hex chars of the digest).
        id: String,
        /// Status text (`Pulling fs layer`, `Download complete`, ...).
        status: String,
    },
    /// Layer status with byte progress (e.g. "Downloading", "Extracting").
    LayerProgress {
        /// Short layer id (first 12 hex chars of the digest).
        id: String,
        /// Status text (`Downloading`, `Extracting`, ...).
        status: String,
        /// Bytes transferred so far.
        current: u64,
        /// Total layer size from the manifest.
        total: u64,
    },
    /// `Digest: sha256:...`
    Digest {
        /// Full manifest digest.
        digest: String,
    },
    /// `Status: Downloaded newer image for ...`
    Status {
        /// Human-readable status line.
        message: String,
    },
    /// Printed when unpacking cached layers into a rootfs (no registry pull).
    Unpacking {
        /// Image reference being unpacked.
        reference: String,
        /// Number of layer blobs to extract.
        layers: usize,
    },
}

/// A [`PullEvent`] with its texts as character sequences.
pub enum PullEventView {
    UnableToFindLocally { reference: Seq<char> },
    PullingFrom { tag: Seq<char>, repository: Seq<char> },
    LayerStatus { id: Seq<char>, status: Seq<char> },
    LayerProgress { id: Seq<char>, status: Seq<char>, current: u64, total: u64 },
    Digest { digest: Seq<char> },
    Status { message: Seq<char> },
    Unpacking { reference: Seq<char>, layers: usize },
}

impl View for PullEvent {
    type V = PullEventView;

    open spec fn view(&self) -> PullEventView {
        match self {
            PullEvent::UnableToFindLocally { reference } => PullEventView::UnableToFindLocally {
                reference: reference@,
            },
            PullEvent::PullingFrom { tag, repository } => PullEventView::PullingFrom {
                tag: tag@,
                repository: repository@,
            },
            PullEvent::LayerStatus { id, status } => PullEventView::LayerStatus {
                id: id@,
                status: status@,
            },
            PullEvent::LayerProgress { id, status, current, total } => {
                PullEventView::LayerProgress {
                    id: id@,
                    status: status@,
                    current: *current,
                    total: *total,
                }
            },
            PullEvent::Digest { digest } => PullEventView::Digest { digest: digest@ },
            PullEvent::Status { message } => PullEventView::Status { message: message@ },
            PullEvent::Unpacking { reference, layers } => PullEventView::Unpacking {
                reference: reference@,
                layers: *layers,
            },
        }
    }
}

/// Receives pull and unpack progress.
pub trait PullProgress: Sized {
    /// Whether a receiver in the state `pre` may be in the state `post` after it
    /// has handled `event`. A receiver that does not say so may be in any.
    open spec fn handled(pre: Self, event: PullEventView, post: Self) -> bool {
        true
    }

    /// Handle one progress event (layer download, extract, digest, ...).
    fn event(&mut self, event: PullEvent)
        ensures
            Self::handled(*old(self), event@, *final(self)),
    ;
}

/// Whether a receiver in the state `pre` may be in the state `post` after it has
/// handled `events` one after the other.
pub open spec fn pull_handled<P: PullProgress>(pre: P, events: Seq<PullEventView>, post: P) -> bool
    decreases events.len(),
{
    if events.len() == 0 {
        pre == post
    } else {
        exists|mid: P|
            pull_handled(pre, events.drop_last(), mid) && #[trigger] P::handled(
                mid,
                events.last(),
                post,
            )
    }
}

/// One more event is handled after those before it.
pub proof fn lemma_pull_handled_push<P: PullProgress>(
    pre: P,
    events: Seq<PullEventView>,
    mid: P,
    event: PullEventView,
    post: P,
)
    requires
        pull_handled(pre, events, mid),
        P::handled(mid, event, post),
    ensures
        pull_handled(pre, events.push(event), post),
{
    assert(events.push(event).drop_last() =~= events);
    assert(P::handled(mid, events.push(event).last(), post));
}

/// Hand one more event to a receiver.
pub(crate) fn report<P: PullProgress>(
    progress: &mut P,
    event: PullEvent,
    Ghost(start): Ghost<P>,
    Ghost(events): Ghost<Seq<PullEventView>>,
)
    requires
        pull_handled(start, events, *old(progress)),
    ensures
        pull_handled(start, events.push(event@), *final(progress)),
{
    let ghost before = *progress;
    progress.event(event);
    proof {
        lemma_pull_handled_push(start, events, before, event@, *progress);
    }
}

/// A single build progress event.
#[derive(Debug)]
pub enum BuildEvent {
    /// Build is starting.
    BuildStart {
        /// Builder name (`buildkit`).
        builder: String,
    },
    /// A new solve vertex / step began.
    VertexStart {
        /// Vertex id allocated for this build.
        id: u32,
        /// Display name, for example `[stage-0 2/5] RUN echo hi`.
        name: String,
    },
    /// Transient status for the active vertex.
    VertexStatus {
        /// Vertex this status belongs to.
        id: u32,
        /// Short status (`running`, `copying to /app`, ...).
        status: String,
    },
    /// A log line associated with a vertex (for example `RUN` output).
    VertexLog {
        /// Vertex this log belongs to.
        id: u32,
        /// One line of output, without a trailing newline.
        line: String,
    },
    /// Vertex finished successfully.
    VertexDone {
        /// Vertex that finished.
        id: u32,
        /// Whether the step was satisfied from the local layer cache.
        cached: bool,
        /// Wall time spent on this vertex.
        duration: Duration,
    },
    /// Vertex failed.
    VertexError {
        /// Vertex that failed.
        id: u32,
        /// Error message.
        error: String,
        /// Wall time spent before failure.
        duration: Duration,
    },
    /// Image export / tagging phase.
    Exporting,
    /// Build finished; image refs/ids for quiet mode and final display.
    Finished {
        /// Local image identifiers written to the store.
        image_ids: Vec<String>,
    },
}

/// A [`BuildEvent`] with its texts as character sequences.
pub enum BuildEventView {
    BuildStart { builder: Seq<char> },
    VertexStart { id: u32, name: Seq<char> },
    VertexStatus { id: u32, status: Seq<char> },
    VertexLog { id: u32, line: Seq<char> },
    VertexDone { id: u32, cached: bool, duration: Duration },
    VertexError { id: u32, error: Seq<char>, duration: Duration },
    Exporting,
    Finished { image_ids: Seq<Seq<char>> },
}

impl View for BuildEvent {
    type V = BuildEventView;

    open spec fn view(&self) -> BuildEventView {
        match self {
            BuildEvent::BuildStart { builder } => BuildEventView::BuildStart { builder: builder@ },
            BuildEvent::VertexStart { id, name } => BuildEventView::VertexStart {
                id: *id,
                name: name@,
            },
            BuildEvent::VertexStatus { id, status } => BuildEventView::VertexStatus {
                id: *id,
                status: status@,
            },
            BuildEvent::VertexLog { id, line } => BuildEventView::VertexLog {
                id: *id,
                line: line@,
            },
            BuildEvent::VertexDone { id, cached, duration } => BuildEventView::VertexDone {
                id: *id,
                cached: *cached,
                duration: *duration,
            },
            BuildEvent::VertexError { id, error, duration } => BuildEventView::VertexError {
                id: *id,
                error: error@,
                duration: *duration,
            },
            BuildEvent::Exporting => BuildEventView::Exporting,
            BuildEvent::Finished { image_ids } => BuildEventView::Finished {
                image_ids: image_ids.deep_view(),
            },
        }
    }
}

/// Receives build progress events (solve vertices, cache hits, export).
pub trait BuildProgress: Sized {
    /// Whether a receiver in the state `pre` may be in the state `post` after it
    /// has handled `event`. A receiver that does not say so may be in any.
    open spec fn handled(pre: Self, event: BuildEventView, post: Self) -> bool {
        true
    }

    /// Handle one build event.
    fn on_event(&mut self, event: BuildEvent)
        ensures
            Self::handled(*old(self), event@, *final(self)),
    ;
}

/// Whether a receiver in the state `pre` may be in the state `post` after it has
/// handled `events` one after the other.
pub open spec fn build_handled<R: BuildProgress>(
    pre: R,
    events: Seq<BuildEventView>,
    post: R,
) -> bool
    decreases events.len(),
{
    if events.len() == 0 {
        pre == post
    } else {
        exists|mid: R|
            build_handled(pre, events.drop_last(), mid) && #[trigger] R::handled(
                mid,
                events.last(),
                post,
            )
    }
}

/// One more event is handled after those before it.
pub proof fn lemma_build_handled_push<R: BuildProgress>(
    pre: R,
    events: Seq<BuildEventView>,
    mid: R,
    event: BuildEventView,
    post: R,
)
    requires
        build_handled(pre, events, mid),
        R::handled(mid, event, post),
    ensures
        build_handled(pre, events.push(event), post),
{
    assert(events.push(event).drop_last() =~= events);
    assert(R::handled(mid, events.push(event).last(), post));
}

/// Two runs of events in a row are one run.
pub proof fn lemma_build_handled_add<R: BuildProgress>(
    pre: R,
    first: Seq<BuildEventView>,
    mid: R,
    second: Seq<BuildEventView>,
    post: R,
)
    requires
        build_handled(pre, first, mid),
        build_handled(mid, second, post),
    ensures
        build_handled(pre, first + second, post),
    decreases second.len(),
{
    if second.len() == 0 {
        assert(first + second =~= first);
    } else {
        let rest = second.drop_last();
        let last = choose|m: R|
            build_handled(mid, rest, m) && #[trigger] R::handled(m, second.last(), post);
        lemma_build_handled_add(pre, first, mid, rest, last);
        lemma_build_handled_push(pre, first + rest, last, second.last(), post);
        assert((first + rest).push(second.last()) =~= first + second);
    }
}

/// Discard all progress events.
#[derive(Debug)]
pub struct NullProgress;

impl PullProgress for NullProgress {
    open spec fn handled(pre: Self, event: PullEventView, post: Self) -> bool {
        post == pre
    }

    fn event(&mut self, event: PullEvent) {
        let _ = event;
    }
}

impl BuildProgress for NullProgress {
    open spec fn handled(pre: Self, event: BuildEventView, post: Self) -> bool {
        post == pre
    }

    fn on_event(&mut self, event: BuildEvent) {
        let _ = event;
    }
}

/// Allocates vertex ids and emits events.
#[derive(Debug)]
pub struct ProgressEmitter<R: BuildProgress> {
    /// Receives the events.
    pub reporter: R,
    /// The id of the next vertex.
    pub next_id: u32,
}

/// Whether `events` are what was handed to the receiver between the two states
/// of an emitter, and `started` vertex ids were given out.
pub open spec fn emitted<R: BuildProgress>(
    pre: ProgressEmitter<R>,
    events: Seq<BuildEventView>,
    started: int,
    post: ProgressEmitter<R>,
) -> bool {
    &&& build_handled(pre.reporter, events, post.reporter)
    &&& post.next_id == pre.next_id + started
}

/// What was emitted in two runs in a row.
pub proof fn lemma_emitted_add<R: BuildProgress>(
    pre: ProgressEmitter<R>,
    first: Seq<BuildEventView>,
    a: int,
    mid: ProgressEmitter<R>,
    second: Seq<BuildEventView>,
    b: int,
    post: ProgressEmitter<R>,
)
    requires
        emitted(pre, first, a, mid),
        emitted(mid, second, b, post),
    ensures
        emitted(pre, first + second, a + b, post),
{
    lemma_build_handled_add(pre.reporter, first, mid.reporter, second, post.reporter);
}

impl<R: BuildProgress> ProgressEmitter<R> {
    /// An emitter that hands its events to `reporter` and gives out ids from 1 on.
    pub fn new(reporter: R) -> (r: Self)
        ensures
            r.reporter == reporter,
            r.next_id == 1,
    {
        ProgressEmitter { reporter, next_id: 1 }
    }

    /// Emit one event.
    pub fn emit(&mut self, event: BuildEvent)
        ensures
            emitted(*old(self), seq![event@], 0, *final(self)),
    {
        let ghost pre = self.reporter;
        self.reporter.on_event(event);
        proof {
            lemma_build_handled_push(pre, Seq::empty(), pre, event@, self.reporter);
            assert(Seq::<BuildEventView>::empty().push(event@) =~= seq![event@]);
        }
    }

    /// Start a vertex and return its id.
    pub fn start(&mut self, name: &str) -> (r: u32)
        requires
            old(self).next_id < u32::MAX,
        ensures
            r == old(self).next_id,
            emitted(
                *old(self),
                seq![BuildEventView::VertexStart { id: r, name: name@ }],
                1,
                *final(self),
            ),
    {
        let id: u32 = self.next_id;
        self.next_id = id + 1;
        self.emit(BuildEvent::VertexStart { id, name: name.to_owned() });
        id
    }

    /// Report a transient status of a vertex.
    pub fn status(&mut self, id: u32, status: &str)
        ensures
            emitted(
                *old(self),
                seq![BuildEventView::VertexStatus { id, status: status@ }],
                0,
                *final(self),
            ),
    {
        self.emit(BuildEvent::VertexStatus { id, status: status.to_owned() });
    }

    /// Report that a vertex was built.
    pub fn done(&mut self, id: u32, duration: Duration)
        ensures
            emitted(
                *old(self),
                seq![BuildEventView::VertexDone { id, cached: false, duration }],
                0,
                *final(self),
            ),
    {
        self.emit(BuildEvent::VertexDone { id, cached: false, duration });
    }

    /// Report that a vertex was satisfied from the cache.
    pub fn cached(&mut self, id: u32, duration: Duration)
        ensures
            emitted(
                *old(self),
                seq![BuildEventView::VertexDone { id, cached: true, duration }],
                0,
                *final(self),
            ),
    {
        self.emit(BuildEvent::VertexDone { id, cached: true, duration });
    }

    /// Report that a vertex failed.
    pub fn error(&mut self, id: u32, error: &str, duration: Duration)
        ensures
            emitted(
                *old(self),
                seq![BuildEventView::VertexError { id, error: error@, duration }],
                0,
                *final(self),
            ),
    {
        self.emit(BuildEvent::VertexError { id, error: error.to_owned(), duration });
    }
}

/// A digest without its algorithm.
pub open spec fn digest_hex(digest: Seq<char>) -> Seq<char> {
    match text::after_prefix(digest, "sha256:"@) {
        Some(h) => h,
        None => match text::after_prefix(digest, "sha512:"@) {
            Some(h) => h,
            None => digest,
        },
    }
}

/// The first `n` characters of a text, or all of them where there are fewer.
pub open spec fn front(s: Seq<char>, n: int) -> Seq<char> {
    if s.len() <= n {
        s
    } else {
        s.take(n)
    }
}

/// The first `n` characters of a text, or all of them where there are fewer.
pub fn take_front(s: &str, n: usize) -> (r: String)
    ensures
        r@ == front(s@, n as int),
{
    let v = chars_of(s);
    if v.len() <= n {
        s.to_owned()
    } else {
        assert(v@.subrange(0, n as int) =~= v@.take(n as int));
        part(&v, 0, n)
    }
}

/// Short layer id used by Docker (first 12 hex characters of the digest).
pub fn short_layer_id(digest: &str) -> (r: String)
    ensures
        r@ == front(digest_hex(digest@), 12),
{
    let hex = match strip_prefix(digest, "sha256:") {
        Some(h) => h,
        None => match strip_prefix(digest, "sha512:") {
            Some(h) => h,
            None => digest.to_owned(),
        },
    };
    take_front(hex.as_str(), 12)
}

} // verus!
