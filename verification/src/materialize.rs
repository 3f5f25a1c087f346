//! Expand cached layers into a root filesystem directory.

use vstd::prelude::*;
use vstd::utf8::*;

use crate::config::{ConfigOs, ImageConfig};
use crate::error::{self, Error, ErrorView};
use crate::fs::{self, no_steps, push_must, FsOp, FsOpView, Step, StepView};
use crate::path::{HostPath, PathView};
use crate::progress::{
    self, report, short_layer_id, PullEvent, PullEventView, PullProgress,
};
use crate::reference::{Reference, ReferenceView};
use crate::store;
use crate::text::{self, bytes_of, number, same_text, trim};

verus! {

broadcast use vstd::seq_lib::group_seq_properties;

/// Why an image for this operating system cannot be unpacked.
pub open spec fn unsupported(os: ConfigOs) -> Option<Seq<char>> {
    match os {
        ConfigOs::Windows => Some(
            "native Windows images are not supported; use a linux/* platform"@,
        ),
        ConfigOs::Darwin => Some("macOS images are not supported; use a linux/* platform"@),
        _ => None,
    }
}

/// Reject native Windows and macOS image configs; only Linux rootfs is unpacked.
pub fn check_runnable_platform(config: &ImageConfig) -> (r: Result<(), Error>)
    ensures
        match r {
            Ok(_) => unsupported(config.os) is None,
            Err(e) => unsupported(config.os) matches Some(m) && e@ == ErrorView::Other(m),
        },
{
    match config.os {
        ConfigOs::Windows => Err(
            Error::other("native Windows images are not supported; use a linux/* platform"),
        ),
        ConfigOs::Darwin => Err(
            Error::other("macOS images are not supported; use a linux/* platform"),
        ),
        _ => Ok(()),
    }
}

/// What stands at the destination.
#[derive(Debug)]
pub struct DestFacts {
    /// Something stands there.
    pub exists_already: bool,
    /// It is a directory.
    pub is_dir: bool,
    /// The fingerprint's file is there.
    pub stamp_is_file: bool,
    /// What the fingerprint's file holds; empty where it cannot be read.
    pub stamp: String,
}

/// Whether a destination already holds the content with this fingerprint.
pub open spec fn up_to_date(facts: DestFacts, stamp: Seq<char>) -> bool {
    facts.is_dir && facts.stamp_is_file && text::trimmed(facts.stamp@) == text::trimmed(stamp)
}

/// How a root filesystem is materialized.
#[derive(Debug)]
pub enum Start {
    /// The destination is up to date.
    Reuse,
    /// Perform the steps, then unpack every layer, then finish with this
    /// fingerprint.
    Unpack {
        /// Changes to make first.
        steps: Vec<Step>,
        /// Fingerprint of the content.
        stamp: String,
    },
}

/// The steps that give an empty destination.
pub open spec fn emptied_dest(dest: PathView, exists_already: bool) -> Seq<StepView> {
    (if exists_already {
        seq![fs::must(FsOpView::RemoveDirAll(dest))]
    } else {
        Seq::empty()
    }) + seq![fs::must(FsOpView::CreateDirAll(dest))]
}

/// The failure for an image that is not in the store.
pub open spec fn not_cached(reference: ReferenceView) -> ErrorView {
    ErrorView::Other("image "@ + reference.whole() + " is not cached; pull it first"@)
}

/// Start to expand an image into `dest`. `config` and `stamp` are what the store
/// says of the image where it is cached. A destination with the same fingerprint is
/// left as it is.
pub fn materialize_start(
    reference: &Reference,
    cached: bool,
    config: Result<ImageConfig, Error>,
    stamp: Result<String, Error>,
    dest: &HostPath,
    facts: &DestFacts,
) -> (r: Result<Start, Error>)
    ensures
        if !cached {
            r matches Err(e) && e@ == not_cached(reference@)
        } else {
            match config {
                Err(e) => r == Err::<Start, Error>(e),
                Ok(c) => match (unsupported(c.os), stamp) {
                    (Some(m), _) => r matches Err(e) && e@ == ErrorView::Other(m),
                    (None, Err(e)) => r == Err::<Start, Error>(e),
                    (None, Ok(s)) => if up_to_date(*facts, s@) {
                        r == Ok::<Start, Error>(Start::Reuse)
                    } else {
                        r matches Ok(Start::Unpack { steps, stamp: t }) && t == s
                            && fs::step_views(steps@) == emptied_dest(
                            dest@,
                            facts.exists_already,
                        )
                    },
                },
            }
        },
        // Only a stored image is expanded, and only a directory with a fingerprint is
        // left as it is.
        r is Ok ==> cached && config is Ok,
        r matches Ok(Start::Reuse) ==> facts.is_dir && facts.stamp_is_file,
{
    if !cached {
        let msg = "image ".to_owned().concat(reference.whole().as_str()).concat(
            " is not cached; pull it first",
        );
        return Err(Error::Other(msg));
    }
    let config = match config {
        Ok(c) => c,
        Err(e) => {
            return Err(e);
        },
    };
    match check_runnable_platform(&config) {
        Ok(_) => {},
        Err(e) => {
            return Err(e);
        },
    }
    let stamp = match stamp {
        Ok(s) => s,
        Err(e) => {
            return Err(e);
        },
    };
    if facts.is_dir && facts.stamp_is_file && same_text(
        trim(facts.stamp.as_str()).as_str(),
        trim(stamp.as_str()).as_str(),
    ) {
        return Ok(Start::Reuse);
    }
    let mut steps = no_steps();
    if facts.exists_already {
        push_must(&mut steps, FsOp::RemoveDirAll(dest.copy()));
    }
    push_must(&mut steps, FsOp::CreateDirAll(dest.copy()));
    assert(fs::step_views(steps@) =~= emptied_dest(dest@, facts.exists_already));
    Ok(Start::Unpack { steps, stamp })
}

/// `n` in decimal notation, with zeros in front up to `width` digits.
pub open spec fn zero_padded(n: nat, width: int) -> Seq<char> {
    let d = text::decimal(n);
    if d.len() >= width {
        d
    } else {
        Seq::new((width - d.len()) as nat, |i: int| '0') + d
    }
}

/// The short id under which a layer is reported: from its digest, or its number
/// where no digest is known.
pub open spec fn layer_label(digests: Seq<Seq<char>>, index: int) -> Seq<char> {
    if 0 <= index < digests.len() {
        progress::front(progress::digest_hex(digests[index]), 12)
    } else {
        zero_padded(index as nat, 12)
    }
}

/// The failure to apply a layer.
pub open spec fn unpack_error(index: nat, reason: ErrorView) -> ErrorView {
    ErrorView::Other(
        "failed to unpack layer "@ + text::decimal(index) + ": "@ + error::error_text(reason),
    )
}

/// The failure to resolve the links that were left.
pub open spec fn link_error(reason: ErrorView) -> ErrorView {
    ErrorView::Other("failed to finalize rootfs links: "@ + error::error_text(reason))
}

/// How the fingerprint of a destination is recorded.
pub open spec fn stamped(dest: PathView, stamp: Seq<char>) -> Seq<StepView> {
    seq![fs::must(FsOpView::Write(dest.child(".rootfs-stamp"@), encode_utf8(stamp)))]
}

/// The layers of an image that are unpacked in order, and how that is reported.
#[derive(Debug)]
pub struct Extraction {
    /// Reference of the image.
    pub reference: Reference,
    /// Number of layers.
    pub layers: usize,
    /// Digests of the layers, as far as they are known.
    pub digests: Vec<String>,
    /// Whether events are emitted.
    pub report: bool,
}

/// What is said of a layer while it is unpacked.
pub open spec fn extracting(index: nat, total: nat) -> Seq<char> {
    "Extracting ("@ + text::decimal(index + 1) + "/"@ + text::decimal(total) + ")"@
}

impl Extraction {
    /// What is reported before the first layer.
    pub open spec fn announcement(&self) -> Seq<PullEventView> {
        if self.report && self.layers > 0 {
            seq![
                PullEventView::Unpacking {
                    reference: self.reference@.whole(),
                    layers: self.layers,
                },
            ]
        } else {
            Seq::empty()
        }
    }

    /// What is reported before layer `index`.
    pub open spec fn begin_events(&self, index: usize, total: u64) -> Seq<PullEventView> {
        if self.report {
            seq![
                PullEventView::LayerProgress {
                    id: layer_label(self.digests.deep_view(), index as int),
                    status: extracting(index as nat, self.layers as nat),
                    current: 0,
                    total,
                },
            ]
        } else {
            Seq::empty()
        }
    }

    /// What is reported behind layer `index`.
    pub open spec fn done_events(&self, index: usize, total: u64) -> Seq<PullEventView> {
        if self.report {
            seq![
                PullEventView::LayerProgress {
                    id: layer_label(self.digests.deep_view(), index as int),
                    status: extracting(index as nat, self.layers as nat),
                    current: total,
                    total,
                },
                PullEventView::LayerStatus {
                    id: layer_label(self.digests.deep_view(), index as int),
                    status: "Pull complete"@,
                },
            ]
        } else {
            Seq::empty()
        }
    }

    /// The short id under which a layer is reported.
    pub fn layer_id(&self, index: usize) -> (r: String)
        ensures
            r@ == layer_label(self.digests.deep_view(), index as int),
    {
        if index < self.digests.len() {
            short_layer_id(self.digests[index].as_str())
        } else {
            let d = number(index as u64);
            let n: usize = text::chars_of(d.as_str()).len();
            let mut out = String::new();
            let mut pad: usize = n;
            assert(out@ =~= Seq::new(0, |i: int| '0'));
            while pad < 12
                invariant
                    n <= pad,
                    pad <= 12 || pad == n,
                    out@ == Seq::new((pad - n) as nat, |i: int| '0'),
                decreases 12 - pad,
            {
                out.push('0');
                pad += 1;
                assert(out@ =~= Seq::new((pad - n) as nat, |i: int| '0'));
            }
            let r = out.concat(d.as_str());
            assert(r@ =~= zero_padded(index as nat, 12));
            r
        }
    }

    /// Announce the layers.
    fn announce<P: PullProgress>(&self, progress: &mut P)
        ensures
            progress::pull_handled(*old(progress), self.announcement(), *final(progress)),
    {
        let ghost start = *progress;
        let ghost none = Seq::<PullEventView>::empty();
        if self.report && self.layers > 0 {
            let e = PullEvent::Unpacking { reference: self.reference.whole(), layers: self.layers };
            let ghost v = e@;
            report(progress, e, Ghost(start), Ghost(none));
            assert(none.push(v) =~= seq![v]);
        }
    }

    /// What is said of layer `index` while it is unpacked.
    fn status(&self, index: usize) -> (r: String)
        requires
            index < self.layers,
        ensures
            r@ == extracting(index as nat, self.layers as nat),
    {
        "Extracting (".to_owned().concat(number(index as u64 + 1).as_str()).concat("/").concat(
            number(self.layers as u64).as_str(),
        ).concat(")")
    }

    /// Report that layer `index` of `total` bytes is about to be unpacked.
    fn layer_begin<P: PullProgress>(&self, progress: &mut P, index: usize, total: u64)
        requires
            index < self.layers,
        ensures
            progress::pull_handled(
                *old(progress),
                self.begin_events(index, total),
                *final(progress),
            ),
    {
        let ghost start = *progress;
        let ghost none = Seq::<PullEventView>::empty();
        if self.report {
            let e = PullEvent::LayerProgress {
                id: self.layer_id(index),
                status: self.status(index),
                current: 0,
                total,
            };
            let ghost v = e@;
            report(progress, e, Ghost(start), Ghost(none));
            assert(none.push(v) =~= seq![v]);
        }
    }

    /// Report that layer `index` of `total` bytes was unpacked.
    fn layer_done<P: PullProgress>(&self, progress: &mut P, index: usize, total: u64)
        requires
            index < self.layers,
        ensures
            progress::pull_handled(
                *old(progress),
                self.done_events(index, total),
                *final(progress),
            ),
    {
        let ghost start = *progress;
        let ghost none = Seq::<PullEventView>::empty();
        if self.report {
            let a = PullEvent::LayerProgress {
                id: self.layer_id(index),
                status: self.status(index),
                current: total,
                total,
            };
            let b = PullEvent::LayerStatus {
                id: self.layer_id(index),
                status: "Pull complete".to_owned(),
            };
            let ghost va = a@;
            let ghost vb = b@;
            report(progress, a, Ghost(start), Ghost(none));
            report(progress, b, Ghost(start), Ghost(none.push(va)));
            assert(none.push(va).push(vb) =~= seq![va, vb]);
        }
    }

    /// The failure to unpack layer `index`.
    fn layer_failed(&self, index: usize, reason: &Error) -> (r: Error)
        ensures
            r@ == unpack_error(index as nat, reason@),
    {
        Error::Other(
            "failed to unpack layer ".to_owned().concat(number(index as u64).as_str()).concat(
                ": ",
            ).concat(reason.message().as_str()),
        )
    }
}

/// The failure to resolve the links that were left.
fn finalize_failed(reason: &Error) -> (r: Error)
    ensures
        r@ == link_error(reason@),
{
    Error::Other(
        "failed to finalize rootfs links: ".to_owned().concat(reason.message().as_str()),
    )
}

/// Where the fingerprint of a materialized root filesystem stands.
pub fn stamp_path(dest: &HostPath) -> (r: HostPath)
    ensures
        r@ == dest@.child(".rootfs-stamp"@),
{
    dest.join(".rootfs-stamp")
}

/// Finish a materialized root filesystem: its fingerprint is written last.
fn materialize_end(dest: &HostPath, stamp: &str) -> (r: Vec<Step>)
    ensures
        fs::step_views(r@) == stamped(dest@, stamp@),
{
    let mut steps = no_steps();
    push_must(&mut steps, FsOp::Write(stamp_path(dest), bytes_of(stamp)));
    assert(fs::step_views(steps@) =~= stamped(dest@, stamp@));
    steps
}

/// What is to be done next for a destination.
#[derive(Debug)]
pub enum UnpackTask {
    /// Find out the size of this layer.
    Measure(usize),
    /// Read this layer and apply it.
    Unpack(usize),
    /// Resolve the links that were left.
    Finalize,
    /// Carry out these last steps.
    Finish(Vec<Step>),
}

/// How far a destination is filled.
#[derive(Debug, Clone, Copy, PartialEq, Eq, Structural)]
pub enum UnpackPhase {
    /// The size of this layer is awaited.
    Measuring(usize),
    /// This layer, of so many bytes, is unpacked.
    Unpacking(usize, u64),
    /// The links that were left are resolved.
    Finalizing,
    /// Nothing is left but the last steps.
    Finished,
}

/// Why a layer is not in the destination.
#[derive(Debug)]
pub enum LayerFailure {
    /// It could not be read.
    Read(Error),
    /// It could not be applied.
    Apply(Error),
}

/// Where the run stands once `index` of `layers` layers are unpacked.
pub open spec fn phase_behind(index: int, layers: usize) -> UnpackPhase {
    if index < layers {
        UnpackPhase::Measuring(index as usize)
    } else {
        UnpackPhase::Finalizing
    }
}

/// What a phase waits for, the last steps aside.
pub open spec fn awaits(phase: UnpackPhase, task: UnpackTask) -> bool {
    match phase {
        UnpackPhase::Measuring(i) => task == UnpackTask::Measure(i),
        UnpackPhase::Unpacking(i, _) => task == UnpackTask::Unpack(i),
        UnpackPhase::Finalizing => task is Finalize,
        UnpackPhase::Finished => task is Finish,
    }
}

/// The layers of an image on their way into a destination: one after the other from
/// the lowest to the highest, then the links that were left, then the fingerprint.
#[derive(Debug)]
pub struct MaterializeRun {
    /// The layers.
    pub image: Extraction,
    /// Destination.
    pub dest: HostPath,
    /// Fingerprint of the image.
    pub stamp: String,
    /// How far the destination is filled.
    pub phase: UnpackPhase,
}

impl MaterializeRun {
    /// A layer in hand is one of the image.
    pub open spec fn well_formed(&self) -> bool {
        match self.phase {
            UnpackPhase::Measuring(i) => i < self.image.layers,
            UnpackPhase::Unpacking(i, _) => i < self.image.layers,
            _ => true,
        }
    }

    /// How many layers are in the destination.
    pub open spec fn done(&self) -> int {
        match self.phase {
            UnpackPhase::Measuring(i) => i as int,
            UnpackPhase::Unpacking(i, _) => i as int,
            _ => self.image.layers as int,
        }
    }

    /// The image, the destination and the fingerprint are the same.
    pub open spec fn same_target(&self, other: MaterializeRun) -> bool {
        &&& self.image == other.image
        &&& self.dest == other.dest
        &&& self.stamp == other.stamp
    }

    /// The task that the run waits for behind `index` layers.
    fn behind(&mut self, index: usize) -> (r: UnpackTask)
        requires
            index <= old(self).image.layers,
        ensures
            final(self).same_target(*old(self)),
            final(self).well_formed(),
            final(self).phase == phase_behind(index as int, old(self).image.layers),
            final(self).done() == index,
            awaits(final(self).phase, r),
    {
        if index < self.image.layers {
            self.phase = UnpackPhase::Measuring(index);
            UnpackTask::Measure(index)
        } else {
            self.phase = UnpackPhase::Finalizing;
            UnpackTask::Finalize
        }
    }

    /// Begin with the lowest layer of `image`.
    pub fn begin<P: PullProgress>(
        image: Extraction,
        dest: HostPath,
        stamp: String,
        progress: &mut P,
    ) -> (r: (Self, UnpackTask))
        ensures
            r.0.image == image,
            r.0.dest == dest,
            r.0.stamp == stamp,
            r.0.well_formed(),
            r.0.phase == phase_behind(0, image.layers),
            r.0.done() == 0,
            awaits(r.0.phase, r.1),
            progress::pull_handled(*old(progress), image.announcement(), *final(progress)),
    {
        image.announce(progress);
        let mut run = MaterializeRun { image, dest, stamp, phase: UnpackPhase::Finalizing };
        let task = run.behind(0);
        (run, task)
    }

    /// The layer in hand has `total` bytes.
    pub fn measured<P: PullProgress>(&mut self, total: u64, progress: &mut P) -> (r: UnpackTask)
        requires
            old(self).well_formed(),
            old(self).phase is Measuring,
        ensures
            final(self).same_target(*old(self)),
            final(self).well_formed(),
            final(self).phase == UnpackPhase::Unpacking(old(self).phase->Measuring_0, total),
            awaits(final(self).phase, r),
            progress::pull_handled(
                *old(progress),
                old(self).image.begin_events(old(self).phase->Measuring_0, total),
                *final(progress),
            ),
    {
        match self.phase {
            UnpackPhase::Measuring(index) => {
                self.image.layer_begin(progress, index, total);
                self.phase = UnpackPhase::Unpacking(index, total);
                UnpackTask::Unpack(index)
            },
            _ => UnpackTask::Finalize,
        }
    }

    /// The layer in hand was unpacked, or could not be.
    pub fn unpacked<P: PullProgress>(
        &mut self,
        outcome: Result<(), LayerFailure>,
        progress: &mut P,
    ) -> (r: Result<UnpackTask, Error>)
        requires
            old(self).well_formed(),
            old(self).phase is Unpacking,
        ensures
            final(self).same_target(*old(self)),
            final(self).well_formed(),
            ({
                let index = old(self).phase->Unpacking_0;
                match outcome {
                    Ok(_) => {
                        &&& r matches Ok(task) && awaits(final(self).phase, task)
                        &&& final(self).phase == phase_behind(index + 1, old(self).image.layers)
                        &&& final(self).done() == old(self).done() + 1
                        &&& progress::pull_handled(
                            *old(progress),
                            old(self).image.done_events(index, old(self).phase->Unpacking_1),
                            *final(progress),
                        )
                    },
                    Err(f) => {
                        &&& final(self).phase == old(self).phase
                        &&& *final(progress) == *old(progress)
                        &&& match f {
                            LayerFailure::Read(e) => r == Err::<UnpackTask, Error>(e),
                            LayerFailure::Apply(e) => r matches Err(x) && x@ == unpack_error(
                                index as nat,
                                e@,
                            ),
                        }
                    },
                }
            }),
    {
        match self.phase {
            UnpackPhase::Unpacking(index, total) => match outcome {
                Ok(_) => {
                    self.image.layer_done(progress, index, total);
                    Ok(self.behind(index + 1))
                },
                Err(LayerFailure::Read(e)) => Err(e),
                Err(LayerFailure::Apply(e)) => Err(self.image.layer_failed(index, &e)),
            },
            _ => Ok(UnpackTask::Finalize),
        }
    }

    /// The links that were left are resolved, or could not be. Only then the
    /// fingerprint is written, so that a destination with a fingerprint is complete.
    pub fn finalized(&mut self, outcome: Result<(), Error>) -> (r: Result<UnpackTask, Error>)
        requires
            old(self).phase is Finalizing,
        ensures
            final(self).same_target(*old(self)),
            final(self).well_formed(),
            final(self).done() == old(self).image.layers,
            match outcome {
                Ok(_) => {
                    &&& r matches Ok(UnpackTask::Finish(steps)) && fs::step_views(steps@)
                        == stamped(old(self).dest@, old(self).stamp@)
                    &&& final(self).phase is Finished
                },
                Err(e) => {
                    &&& r matches Err(x) && x@ == link_error(e@)
                    &&& final(self).phase == old(self).phase
                },
            },
    {
        match outcome {
            Ok(_) => {
                self.phase = UnpackPhase::Finished;
                Ok(UnpackTask::Finish(materialize_end(&self.dest, self.stamp.as_str())))
            },
            Err(e) => Err(finalize_failed(&e)),
        }
    }
}

// ---------------------------------------------------------------------------
// Laws
// ---------------------------------------------------------------------------

/// The fingerprint of an image with a digest lists that digest and its layers.
proof fn lemma_stamp_lines(digest: Seq<char>, layers: Seq<Seq<char>>)
    ensures
        store::stamp(digest, layers) == store::digest_lines(seq![digest] + layers),
{
    let all = seq![digest] + layers;
    if layers.len() == 0 {
        assert(all =~= seq![digest]);
    } else {
        lemma_joined_after(digest, layers);
        assert(store::stamp(digest, layers) =~= store::digest_lines(all));
    }
}

/// Joining with one more part at the front.
proof fn lemma_joined_after(first: Seq<char>, parts: Seq<Seq<char>>)
    requires
        parts.len() > 0,
    ensures
        text::joined(seq![first] + parts, "\n"@) == first + "\n"@ + text::joined(parts, "\n"@),
    decreases parts.len(),
{
    let all = seq![first] + parts;
    assert(all.last() == parts.last());
    if parts.len() == 1 {
        assert(all.drop_last() =~= seq![first]);
        assert(text::joined(seq![first], "\n"@) == first);
        assert(text::joined(all, "\n"@) =~= first + "\n"@ + parts[0]);
    } else {
        lemma_joined_after(first, parts.drop_last());
        assert(all.drop_last() =~= seq![first] + parts.drop_last());
        assert(text::joined(all, "\n"@) =~= first + "\n"@ + text::joined(parts, "\n"@));
    }
}

/// Joined digests begin and end with characters of digests.
proof fn lemma_joined_ends(parts: Seq<Seq<char>>)
    requires
        parts.len() > 0,
        forall|i: int| 0 <= i < parts.len() ==> store::on_a_line(#[trigger] parts[i]),
    ensures
        text::joined(parts, "\n"@).len() > 0,
        !text::white(text::joined(parts, "\n"@)[0]),
        !text::white(text::joined(parts, "\n"@).last()),
    decreases parts.len(),
{
    let last = parts[parts.len() - 1];
    assert(store::on_a_line(last));
    text::lemma_trimmed_ends(last);
    if parts.len() > 1 {
        let rest = parts.drop_last();
        assert forall|i: int| 0 <= i < rest.len() implies store::on_a_line(#[trigger] rest[i]) by {
            assert(rest[i] == parts[i]);
        }
        lemma_joined_ends(rest);
    }
}

/// Trimming a list of digests takes off the last line feed.
proof fn lemma_lines_trimmed(parts: Seq<Seq<char>>)
    requires
        parts.len() > 0,
        forall|i: int| 0 <= i < parts.len() ==> store::on_a_line(#[trigger] parts[i]),
    ensures
        text::trimmed(store::digest_lines(parts)) == text::joined(parts, "\n"@),
{
    let body = text::joined(parts, "\n"@);
    let whole = store::digest_lines(parts);
    reveal_strlit("\n");
    lemma_joined_ends(parts);
    assert(text::white('\n'));
    assert(whole[0] == body[0]);
    assert(text::trimmed_start(whole) == whole);
    assert(whole.last() == '\n');
    assert(whole.drop_last() =~= body);
    assert(text::trimmed_end(body) == body);
    assert(text::trimmed_end(whole) == text::trimmed_end(whole.drop_last()));
}

/// A materialized root filesystem is taken for up to date only where it came from
/// the same content: fingerprints agree exactly where the digest and all layers do.
pub proof fn fingerprint_tells_images_apart(
    a: Seq<char>,
    a_layers: Seq<Seq<char>>,
    b: Seq<char>,
    b_layers: Seq<Seq<char>>,
)
    requires
        store::on_a_line(a),
        store::on_a_line(b),
        forall|i: int| 0 <= i < a_layers.len() ==> store::on_a_line(#[trigger] a_layers[i]),
        forall|i: int| 0 <= i < b_layers.len() ==> store::on_a_line(#[trigger] b_layers[i]),
    ensures
        text::trimmed(store::stamp(a, a_layers)) == text::trimmed(
            store::stamp(b, b_layers),
        ) <==> (a == b && a_layers == b_layers),
{
    let x = seq![a] + a_layers;
    let y = seq![b] + b_layers;
    lemma_stamp_lines(a, a_layers);
    lemma_stamp_lines(b, b_layers);
    assert forall|i: int| 0 <= i < x.len() implies store::on_a_line(#[trigger] x[i]) by {
        if i > 0 {
            assert(x[i] == a_layers[i - 1]);
        }
    }
    assert forall|i: int| 0 <= i < y.len() implies store::on_a_line(#[trigger] y[i]) by {
        if i > 0 {
            assert(y[i] == b_layers[i - 1]);
        }
    }
    lemma_lines_trimmed(x);
    lemma_lines_trimmed(y);
    if text::trimmed(store::stamp(a, a_layers)) == text::trimmed(
        store::stamp(b, b_layers),
    ) {
        reveal_strlit("\n");
        assert("\n"@ =~= seq!['\n']);
        assert forall|i: int| 0 <= i < x.len() implies !(#[trigger] x[i]).contains('\n') by {
            assert(store::on_a_line(x[i]));
        }
        assert forall|i: int| 0 <= i < y.len() implies !(#[trigger] y[i]).contains('\n') by {
            assert(store::on_a_line(y[i]));
        }
        text::lemma_split_joined(x, '\n');
        text::lemma_split_joined(y, '\n');
        assert(x == y);
        assert(x[0] == y[0]);
        assert(a_layers =~= x.skip(1));
        assert(b_layers =~= y.skip(1));
    }
}

} // verus!
