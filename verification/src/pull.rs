//! Pull images from OCI registries into a local store.

use vstd::prelude::*;
use vstd::utf8::*;

use crate::config::{self, parse_config, stored_config, ConfigView, FileView, ImageConfig};
use crate::error::{Error, ErrorView};
use crate::fs::{self, no_steps, push_must, FsOp, FsOpView, Step, StepView};
use crate::layer_cache;
use crate::path::{HostPath, PathView};
use crate::platform::{Platform, PlatformView};
use crate::progress::{
    self, report, short_layer_id, PullEvent, PullEventView, PullProgress,
};
use crate::reference::Reference;
use crate::store::{self, LayerView, StoredView};
use crate::text::{self, bytes_of, copy_bytes, join, lines, number, same_text, trim};

verus! {

broadcast use vstd::seq_lib::group_seq_properties;

/// A layer as a manifest describes it.
#[derive(Debug)]
pub struct Descriptor {
    /// Media type of the blob.
    pub media_type: String,
    /// Digest of the blob.
    pub digest: String,
    /// Size of the blob in bytes.
    pub size: i64,
}

/// What the registry says of an image.
#[derive(Debug)]
pub struct Manifest {
    /// Layers in order.
    pub layers: Vec<Descriptor>,
    /// Digest of the manifest; empty where the registry gave none.
    pub digest: String,
}

/// A pulled image stored in the local image cache.
#[derive(Debug)]
pub struct PulledImage {
    /// Parsed reference that was pulled.
    pub reference: Reference,
    /// Platform selected from the image index.
    pub platform: Platform,
    /// Image config from the registry (or the local cache on an up-to-date hit).
    pub config: ImageConfig,
    /// Directory under the store that holds `config.json`, `digest`, and layers.
    pub cache_dir: HostPath,
    /// Full layer digests in manifest order (for unpack progress).
    pub layer_digests: Vec<String>,
    /// Manifest digest when the registry returned one.
    pub digest: Option<String>,
    /// `false` when the local cache already matched the registry digest
    /// (Docker `--pull=always` "Image is up to date" path).
    pub updated: bool,
}

/// The digests of the layers, in order.
pub open spec fn layer_digests_of(layers: Seq<Descriptor>) -> Seq<Seq<char>> {
    layers.map_values(|d: Descriptor| d.digest@)
}

/// A digest, unless it is empty.
pub open spec fn some_digest(digest: Seq<char>) -> Option<Seq<char>> {
    if digest.len() == 0 {
        None
    } else {
        Some(digest)
    }
}

/// Whether an image is what was asked for and what the manifest says.
pub open spec fn pulled_is(
    r: PulledImage,
    reference: Reference,
    platform: Platform,
    cache_dir: HostPath,
    manifest: Manifest,
    updated: bool,
) -> bool {
    &&& r.reference@ == reference@
    &&& r.platform@ == platform@
    &&& r.cache_dir@ == cache_dir@
    &&& r.layer_digests.deep_view() == layer_digests_of(manifest.layers@)
    &&& r.digest.deep_view() == some_digest(manifest.digest@)
    &&& r.updated == updated
}

/// Accepted OCI and Docker layer media types.
pub open spec fn accepted_media_type(t: Seq<char>) -> bool {
    ||| t == "application/vnd.oci.image.layer.v1.tar+gzip"@
    ||| t == "application/vnd.docker.image.rootfs.diff.tar.gzip"@
}

/// The first media type that is not accepted.
pub open spec fn unaccepted(layers: Seq<Descriptor>) -> Option<Seq<char>>
    decreases layers.len(),
{
    if layers.len() == 0 {
        None
    } else if !accepted_media_type(layers[0].media_type@) {
        Some(layers[0].media_type@)
    } else {
        unaccepted(layers.skip(1))
    }
}

/// Why the layers of a manifest cannot be pulled.
pub open spec fn layers_refused(layers: Seq<Descriptor>) -> Option<Seq<char>> {
    if layers.len() == 0 {
        Some("image manifest has no layers"@)
    } else {
        match unaccepted(layers) {
            Some(t) => Some("incompatible layer media type: "@ + t),
            None => None,
        }
    }
}

/// Reject a manifest without layers or with layers of another kind.
pub fn validate_layer_media_types(layers: &Vec<Descriptor>) -> (r: Result<(), Error>)
    ensures
        match r {
            Ok(_) => layers_refused(layers@) is None,
            Err(e) => layers_refused(layers@) matches Some(m) && e@ == ErrorView::Other(m),
        },
{
    if layers.len() == 0 {
        return Err(Error::other("image manifest has no layers"));
    }
    assert(layers@.skip(0) =~= layers@);
    for i in 0..layers.len()
        invariant
            layers@.len() > 0,
            unaccepted(layers@) == unaccepted(layers@.skip(i as int)),
    {
        let t = layers[i].media_type.as_str();
        assert(layers@.skip(i as int)[0] == layers@[i as int]);
        assert(layers@.skip(i as int).skip(1) =~= layers@.skip(i + 1));
        if !(same_text(t, "application/vnd.oci.image.layer.v1.tar+gzip") || same_text(
            t,
            "application/vnd.docker.image.rootfs.diff.tar.gzip",
        )) {
            return Err(Error::Other("incompatible layer media type: ".to_owned().concat(t)));
        }
    }
    Ok(())
}

/// The tag of a reference, or the default one.
pub open spec fn tag_or_latest(tag: Option<Seq<char>>) -> Seq<char> {
    match tag {
        Some(t) => t,
        None => "latest"@,
    }
}

/// The tag and the repository that a pull announces.
pub fn pulling_from_parts(reference: &Reference) -> (r: (String, String))
    ensures
        r.0@ == tag_or_latest(reference@.tag),
        r.1@ == reference@.repository,
{
    let tag = match &reference.tag {
        Some(t) => t.clone(),
        None => "latest".to_owned(),
    };
    (tag, reference.repository.clone())
}

/// What comes before a pull: the directory of the image is created.
pub fn pull_prepare(cache_dir: &HostPath) -> (r: Vec<Step>)
    ensures
        fs::step_views(r@) == seq![fs::must(FsOpView::CreateDirAll(cache_dir@))],
{
    let mut steps = no_steps();
    push_must(&mut steps, FsOp::CreateDirAll(cache_dir.copy()));
    assert(fs::step_views(steps@) =~= seq![fs::must(FsOpView::CreateDirAll(cache_dir@))]);
    steps
}

/// Announce a pull.
pub fn pull_start<P: PullProgress>(reference: &Reference, progress: &mut P)
    ensures
        progress::pull_handled(
            *old(progress),
            seq![
                PullEventView::PullingFrom {
                    tag: tag_or_latest(reference@.tag),
                    repository: reference@.repository,
                },
            ],
            *final(progress),
        ),
{
    let ghost start = *progress;
    let ghost none = Seq::<PullEventView>::empty();
    let (tag, repository) = pulling_from_parts(reference);
    let e = PullEvent::PullingFrom { tag, repository };
    let ghost v = e@;
    report(progress, e, Ghost(start), Ghost(none));
    assert(none.push(v) =~= seq![v]);
}

/// What the directory of a pulled image holds.
#[derive(Debug)]
pub struct CacheFacts {
    /// Contents of the digest file, where it can be read.
    pub digest: Option<String>,
    /// The config is a file.
    pub config_is_file: bool,
    /// Contents of the list of layer digests, where it can be read.
    pub digests: Option<String>,
    /// Which of the layer blobs are files, in order.
    pub blobs: Vec<bool>,
}

/// Whether a directory holds the image with this digest and these layers.
pub open spec fn cache_matches(f: CacheFacts, digest: Seq<char>, layers: Seq<Seq<char>>) -> bool {
    &&& digest.len() > 0
    &&& f.digest matches Some(d) && text::trimmed(d@) == text::trimmed(digest)
    &&& f.config_is_file
    &&& f.digests matches Some(t) && layer_cache::nonempty(text::lines_of(t@)) == layers
    &&& f.blobs@.len() >= layers.len()
    &&& forall|i: int| 0 <= i < layers.len() ==> #[trigger] f.blobs@[i]
}

/// The texts that are not empty.
fn keep_nonempty(list: Vec<String>) -> (r: Vec<String>)
    ensures
        r.deep_view() == layer_cache::nonempty(list.deep_view()),
{
    let mut out: Vec<String> = Vec::new();
    let ghost all = list.deep_view();
    assert(out.deep_view() =~= layer_cache::nonempty(all.take(0)));
    for i in 0..list.len()
        invariant
            all == list.deep_view(),
            out.deep_view() == layer_cache::nonempty(all.take(i as int)),
    {
        let ghost seen = out.deep_view();
        assert(all.take(i + 1).drop_last() =~= all.take(i as int));
        if !list[i].as_str().is_empty() {
            out.push(list[i].clone());
            assert(out.deep_view() =~= seen.push(all[i as int]));
        }
    }
    assert(all.take(all.len() as int) =~= all);
    out
}

/// Whether the directory of an image holds what the registry has.
pub fn layers_cache_matches(f: &CacheFacts, digest: &str, layer_digests: &Vec<String>) -> (r: bool)
    ensures
        r == cache_matches(*f, digest@, layer_digests.deep_view()),
{
    if digest.is_empty() {
        return false;
    }
    match &f.digest {
        None => {
            return false;
        },
        Some(local) => {
            if !same_text(trim(local.as_str()).as_str(), trim(digest).as_str()) {
                return false;
            }
        },
    }
    if !f.config_is_file {
        return false;
    }
    let stored = match &f.digests {
        None => {
            return false;
        },
        Some(t) => keep_nonempty(lines(t.as_str())),
    };
    let ghost a = stored.deep_view();
    let ghost b = layer_digests.deep_view();
    if stored.len() != layer_digests.len() {
        assert(a.len() != b.len());
        return false;
    }
    if f.blobs.len() < layer_digests.len() {
        return false;
    }
    for i in 0..layer_digests.len()
        invariant
            a == stored.deep_view(),
            b == layer_digests.deep_view(),
            a.len() == b.len(),
            f.digests matches Some(t) && layer_cache::nonempty(text::lines_of(t@)) == a,
            f.blobs@.len() >= b.len(),
            forall|k: int| 0 <= k < i ==> #[trigger] a[k] == b[k],
            forall|k: int| 0 <= k < i ==> #[trigger] f.blobs@[k],
    {
        if !same_text(stored[i].as_str(), layer_digests[i].as_str()) {
            assert(a[i as int] != b[i as int]);
            return false;
        }
        assert(a[i as int] == b[i as int]);
        if !f.blobs[i] {
            return false;
        }
    }
    assert(a =~= b);
    true
}

/// What is read in a config, which errors call `what`.
pub open spec fn config_in(what: Seq<char>, json: Seq<char>) -> Result<ConfigView, ErrorView> {
    match config::oci_config(json) {
        Ok(c) => Ok(c),
        Err(m) => Err(config::config_error(what, m)),
    }
}

/// The config of an image that is up to date: the stored one, else the one that the
/// registry sent.
pub open spec fn cached_config(file: Option<Seq<char>>, config_blob: Seq<char>) -> Result<
    ConfigView,
    ErrorView,
> {
    match file {
        Some(s) => config_in("cached image config"@, s),
        None => config_in("image config"@, config_blob),
    }
}

/// The config of an image that is up to date: the stored one, else the one that the
/// registry sent.
pub fn read_cached_config(file: Option<String>, config_blob: &str) -> (r: Result<ImageConfig, Error>)
    ensures
        match cached_config(file.deep_view(), config_blob@) {
            Ok(v) => r matches Ok(c) && c@ == v,
            Err(v) => r matches Err(e) && e@ == v,
        },
{
    match file {
        Some(s) => parse_config("cached image config", s.as_str()),
        None => parse_config("image config", config_blob),
    }
}

/// The digests of the layers, in order.
fn digests_of(layers: &Vec<Descriptor>) -> (r: Vec<String>)
    ensures
        r.deep_view() == layer_digests_of(layers@),
{
    let mut out: Vec<String> = Vec::new();
    for i in 0..layers.len()
        invariant
            out.deep_view() == layer_digests_of(layers@.take(i as int)),
    {
        let ghost seen = out.deep_view();
        out.push(layers[i].digest.clone());
        assert(out.deep_view() =~= seen.push(layers@[i as int].digest@));
        assert(out.deep_view() =~= layer_digests_of(layers@.take(i + 1)));
    }
    assert(layers@.take(layers@.len() as int) =~= layers@);
    out
}

/// A pulled image.
fn pulled_image(
    reference: &Reference,
    platform: &Platform,
    cache_dir: &HostPath,
    manifest: &Manifest,
    config: ImageConfig,
    updated: bool,
) -> (r: PulledImage)
    ensures
        pulled_is(r, *reference, *platform, *cache_dir, *manifest, updated),
        r.config == config,
{
    let digest = if manifest.digest.as_str().is_empty() {
        None
    } else {
        Some(manifest.digest.clone())
    };
    PulledImage {
        reference: reference.copy(),
        platform: platform.copy(),
        config,
        cache_dir: cache_dir.copy(),
        layer_digests: digests_of(&manifest.layers),
        digest,
        updated,
    }
}

/// How a pull goes on once the manifest is there.
#[derive(Debug)]
pub enum PullPlan {
    /// The local copy is up to date.
    UpToDate(PulledImage),
    /// Perform the steps, then download every layer.
    Download {
        /// Changes to make first.
        steps: Vec<Step>,
    },
}

/// The steps that give an empty directory for layers.
pub open spec fn fresh_layers(image: PathView, exists_already: bool) -> Seq<StepView> {
    (if exists_already {
        seq![fs::must(FsOpView::RemoveDirAll(image.child("layers"@)))]
    } else {
        Seq::empty()
    }) + seq![fs::must(FsOpView::CreateDirAll(image.child("layers"@)))]
}

/// Decide how a pull goes on once the manifest is there. An up-to-date copy is not
/// downloaded again. `cached` is the text of the stored config, where it can be read,
/// and `config_blob` the config that the registry sent.
pub fn manifest_received(
    reference: &Reference,
    platform: &Platform,
    cache_dir: &HostPath,
    manifest: &Manifest,
    facts: &CacheFacts,
    layers_dir_exists: bool,
    cached: Option<String>,
    config_blob: &str,
) -> (r: Result<PullPlan, Error>)
    ensures
        match layers_refused(manifest.layers@) {
            Some(m) => r matches Err(e) && e@ == ErrorView::Other(m),
            None => if cache_matches(
                *facts,
                manifest.digest@,
                layer_digests_of(manifest.layers@),
            ) {
                match cached_config(cached.deep_view(), config_blob@) {
                    Err(v) => r matches Err(e) && e@ == v,
                    Ok(c) => r matches Ok(PullPlan::UpToDate(p)) && p.config@ == c && pulled_is(
                        p,
                        *reference,
                        *platform,
                        *cache_dir,
                        *manifest,
                        false,
                    ),
                }
            } else {
                match config_in("image config"@, config_blob@) {
                    Err(v) => r matches Err(e) && e@ == v,
                    Ok(_) => r matches Ok(PullPlan::Download { steps }) && fs::step_views(steps@)
                        == fresh_layers(cache_dir@, layers_dir_exists),
                }
            },
        },
        // An image that is up to date is the one that the manifest speaks of.
        r matches Ok(PullPlan::UpToDate(p)) ==> facts.config_is_file && !p.updated
            && p.layer_digests@.len() == manifest.layers@.len() && manifest.digest@.len() > 0,
{
    match validate_layer_media_types(&manifest.layers) {
        Ok(_) => {},
        Err(e) => {
            return Err(e);
        },
    }
    let digests = digests_of(&manifest.layers);
    if layers_cache_matches(facts, manifest.digest.as_str(), &digests) {
        let config = match read_cached_config(cached, config_blob) {
            Ok(c) => c,
            Err(e) => {
                return Err(e);
            },
        };
        return Ok(
            PullPlan::UpToDate(
                pulled_image(reference, platform, cache_dir, manifest, config, false),
            ),
        );
    }
    match parse_config("image config", config_blob) {
        Ok(_) => {},
        Err(e) => {
            return Err(e);
        },
    }
    let layers_dir = cache_dir.join("layers");
    let mut steps = no_steps();
    if layers_dir_exists {
        push_must(&mut steps, FsOp::RemoveDirAll(layers_dir.copy()));
    }
    push_must(&mut steps, FsOp::CreateDirAll(layers_dir));
    assert(fs::step_views(steps@) =~= fresh_layers(cache_dir@, layers_dir_exists));
    Ok(PullPlan::Download { steps })
}

/// The least time between two reports of how much of a layer is there, in
/// milliseconds.
pub open spec fn min_interval() -> int {
    50
}

/// The download of one layer.
#[derive(Debug)]
pub struct LayerDownload {
    /// Short id of the layer.
    pub id: String,
    /// Size that the manifest gives.
    pub total: u64,
    /// What has come so far.
    pub data: Vec<u8>,
}

/// The report of how much of a layer is there.
pub open spec fn downloading(id: Seq<char>, current: u64, total: u64) -> PullEventView {
    PullEventView::LayerProgress { id, status: "Downloading"@, current, total }
}

/// A report on a layer.
pub open spec fn layer_status(id: Seq<char>, status: Seq<char>) -> PullEventView {
    PullEventView::LayerStatus { id, status }
}

impl LayerDownload {
    /// Begin to download a layer.
    pub fn start<P: PullProgress>(layer: &Descriptor, progress: &mut P) -> (r: Self)
        ensures
            r.id@ == progress::front(progress::digest_hex(layer.digest@), 12),
            r.total == (if layer.size < 0 {
                0
            } else {
                layer.size as int
            }),
            r.data@.len() == 0,
            progress::pull_handled(
                *old(progress),
                seq![
                    layer_status(r.id@, "Pulling fs layer"@),
                    layer_status(r.id@, "Downloading"@),
                ],
                *final(progress),
            ),
    {
        let ghost start = *progress;
        let ghost none = Seq::<PullEventView>::empty();
        let id = short_layer_id(layer.digest.as_str());
        let total: u64 = if layer.size < 0 {
            0
        } else {
            layer.size as u64
        };
        let a = PullEvent::LayerStatus { id: id.clone(), status: "Pulling fs layer".to_owned() };
        let b = PullEvent::LayerStatus { id: id.clone(), status: "Downloading".to_owned() };
        let ghost va = a@;
        let ghost vb = b@;
        report(progress, a, Ghost(start), Ghost(none));
        report(progress, b, Ghost(start), Ghost(none.push(va)));
        assert(none.push(va).push(vb) =~= seq![va, vb]);
        LayerDownload { id, total, data: Vec::new() }
    }

    /// Take over a chunk, and report how much is there unless the last report came a
    /// moment ago. `since_last` is the time since then in milliseconds, if there was
    /// one. The result says whether a report was made.
    pub fn chunk<P: PullProgress>(
        &mut self,
        chunk: &Vec<u8>,
        since_last: Option<u64>,
        progress: &mut P,
    ) -> (r: bool)
        ensures
            final(self).id == old(self).id,
            final(self).total == old(self).total,
            final(self).data@ == old(self).data@ + chunk@,
            r == (match since_last {
                None => true,
                Some(ms) => ms >= min_interval(),
            }),
            progress::pull_handled(
                *old(progress),
                if r {
                    seq![
                        downloading(
                            old(self).id@,
                            (old(self).data@ + chunk@).len() as u64,
                            old(self).total,
                        ),
                    ]
                } else {
                    Seq::empty()
                },
                *final(progress),
            ),
    {
        let ghost start = *progress;
        let ghost none = Seq::<PullEventView>::empty();
        let ghost had = self.data@;
        let mut more = copy_bytes(chunk);
        self.data.append(&mut more);
        assert(self.data@ =~= had + chunk@);
        let due = match since_last {
            None => true,
            Some(ms) => ms >= 50,
        };
        if due {
            let e = PullEvent::LayerProgress {
                id: self.id.clone(),
                status: "Downloading".to_owned(),
                current: self.data.len() as u64,
                total: self.total,
            };
            let ghost v = e@;
            report(progress, e, Ghost(start), Ghost(none));
            assert(none.push(v) =~= seq![v]);
        }
        due
    }

    /// Report that a layer is complete, and hand its bytes over.
    pub fn finish<P: PullProgress>(self, progress: &mut P) -> (r: Vec<u8>)
        ensures
            r@ == self.data@,
            progress::pull_handled(
                *old(progress),
                if self.total > 0 {
                    seq![
                        downloading(self.id@, self.data@.len() as u64, self.total),
                        layer_status(self.id@, "Download complete"@),
                    ]
                } else {
                    seq![layer_status(self.id@, "Download complete"@)]
                },
                *final(progress),
            ),
    {
        let ghost start = *progress;
        let ghost none = Seq::<PullEventView>::empty();
        let ghost mut seen = none;
        if self.total > 0 {
            let a = PullEvent::LayerProgress {
                id: self.id.clone(),
                status: "Downloading".to_owned(),
                current: self.data.len() as u64,
                total: self.total,
            };
            let ghost va = a@;
            report(progress, a, Ghost(start), Ghost(none));
            proof {
                seen = none.push(va);
            }
        }
        let b = PullEvent::LayerStatus {
            id: self.id.clone(),
            status: "Download complete".to_owned(),
        };
        let ghost vb = b@;
        report(progress, b, Ghost(start), Ghost(seen));
        proof {
            if self.total > 0 {
                assert(seen.push(vb) =~= seq![
                    downloading(self.id@, self.data@.len() as u64, self.total),
                    layer_status(self.id@, "Download complete"@),
                ]);
            } else {
                assert(seen.push(vb) =~= seq![layer_status(self.id@, "Download complete"@)]);
            }
        }
        self.data
    }

    /// The failure of a download.
    pub fn failed(&self, reason: &str) -> (r: Error)
        ensures
            r@ == ErrorView::Other(
                "failed to download layer "@ + self.id@ + ": "@ + reason@,
            ),
    {
        Error::Other(
            "failed to download layer ".to_owned().concat(self.id.as_str()).concat(": ").concat(
                reason,
            ),
        )
    }
}

/// The layers by their index in the manifest.
pub open spec fn by_index(n: nat, downloaded: Seq<(usize, Vec<u8>)>) -> Seq<Seq<u8>>
    decreases downloaded.len(),
{
    if downloaded.len() == 0 {
        Seq::new(n, |i: int| Seq::<u8>::empty())
    } else {
        by_index(n, downloaded.drop_last()).update(
            downloaded.last().0 as int,
            downloaded.last().1@,
        )
    }
}

/// The bytes of several blobs.
pub open spec fn blob_views(blobs: Seq<Vec<u8>>) -> Seq<Seq<u8>> {
    blobs.map_values(|b: Vec<u8>| b@)
}

/// There are as many layers as were downloaded.
proof fn lemma_by_index_len(n: nat, downloaded: Seq<(usize, Vec<u8>)>)
    requires
        forall|i: int| 0 <= i < downloaded.len() ==> (#[trigger] downloaded[i]).0 < n,
    ensures
        by_index(n, downloaded).len() == n,
    decreases downloaded.len(),
{
    if downloaded.len() > 0 {
        let rest = downloaded.drop_last();
        assert forall|i: int| 0 <= i < rest.len() implies (#[trigger] rest[i]).0 < n by {
            assert(rest[i] == downloaded[i]);
        }
        lemma_by_index_len(n, rest);
        assert(downloaded[downloaded.len() - 1].0 < n);
    }
}

/// Put the layers, which come in any order with their index in the manifest, in
/// manifest order.
pub fn order_layers(downloaded: Vec<(usize, Vec<u8>)>) -> (r: Vec<Vec<u8>>)
    requires
        forall|k: int|
            0 <= k < downloaded@.len() ==> (#[trigger] downloaded@[k]).0 < downloaded@.len(),
    ensures
        blob_views(r@) == by_index(downloaded@.len(), downloaded@),
{
    let n: usize = downloaded.len();
    let ghost all = downloaded@;
    let mut ordered: Vec<Vec<u8>> = Vec::new();
    for i in 0..n
        invariant
            ordered@.len() == i,
            forall|k: int| 0 <= k < i ==> (#[trigger] ordered@[k])@.len() == 0,
    {
        ordered.push(Vec::new());
    }
    assert(blob_views(ordered@) =~= Seq::new(n as nat, |i: int| Seq::<u8>::empty())) by {
        assert forall|k: int| 0 <= k < n implies #[trigger] blob_views(ordered@)[k] =~= Seq::<
            u8,
        >::empty() by {
            assert(ordered@[k]@.len() == 0);
        }
    }
    for i in 0..n
        invariant
            all == downloaded@,
            n == all.len(),
            ordered@.len() == n,
            forall|k: int| 0 <= k < all.len() ==> (#[trigger] all[k]).0 < all.len(),
            blob_views(ordered@) == by_index(n as nat, all.take(i as int)),
    {
        assert(all.take(i + 1).drop_last() =~= all.take(i as int));
        let index: usize = downloaded[i].0;
        assert(all[i as int].0 < all.len());
        let ghost before = blob_views(ordered@);
        ordered.set(index, copy_bytes(&downloaded[i].1));
        assert(blob_views(ordered@) =~= before.update(index as int, all[i as int].1@));
    }
    assert(all.take(all.len() as int) =~= all);
    ordered
}

/// Blobs as layers without a digest of their own.
pub open spec fn as_layers(blobs: Seq<Seq<u8>>) -> Seq<LayerView> {
    blobs.map_values(|b: Seq<u8>| LayerView { digest: None, data: b })
}

/// Writing a pulled image into its directory.
pub open spec fn pulled_steps(
    image: PathView,
    p: PlatformView,
    blobs: Seq<Seq<u8>>,
    digests: Seq<Seq<char>>,
    config: Seq<char>,
    digest: Seq<char>,
) -> Seq<StepView> {
    store::write_blobs(image, as_layers(blobs)) + seq![
        store::write_text(
            image.child("layers"@).child("digests"@),
            store::digest_lines(digests),
        ),
        store::write_text(image.child("config.json"@), config),
        store::write_text(image.child("platform"@), store::platform_text(p)),
    ] + store::write_digest(image, some_digest(digest))
}

/// Write the layers of a pulled image, then what describes it.
pub fn write_pulled(
    cache_dir: &HostPath,
    platform: &Platform,
    layers: &Vec<Vec<u8>>,
    digests: &Vec<String>,
    config: &str,
    digest: &str,
) -> (r: Vec<Step>)
    ensures
        fs::step_views(r@) == pulled_steps(
            cache_dir@,
            platform@,
            blob_views(layers@),
            digests.deep_view(),
            config@,
            digest@,
        ),
{
    let layers_dir = cache_dir.join("layers");
    let mut steps = no_steps();
    let ghost all = as_layers(blob_views(layers@));
    assert(store::write_blobs(cache_dir@, all.take(0)) =~= Seq::<StepView>::empty());
    for i in 0..layers.len()
        invariant
            all == as_layers(blob_views(layers@)),
            layers_dir@ == cache_dir@.child("layers"@),
            fs::step_views(steps@) == store::write_blobs(cache_dir@, all.take(i as int)),
    {
        assert(all.take(i + 1).drop_last() =~= all.take(i as int));
        assert(all.take(i + 1).last() == (LayerView { digest: None, data: layers@[i as int]@ }));
        let name = number(i as u64).concat(".tar.gz");
        push_must(
            &mut steps,
            FsOp::Write(layers_dir.join(name.as_str()), copy_bytes(&layers[i])),
        );
    }
    assert(all.take(all.len() as int) =~= all);
    push_must(
        &mut steps,
        FsOp::Write(
            layers_dir.join("digests"),
            bytes_of(join(digests, "\n").concat("\n").as_str()),
        ),
    );
    push_must(&mut steps, FsOp::Write(cache_dir.join("config.json"), bytes_of(config)));
    let named = platform.os.clone().concat("/").concat(platform.architecture.as_str());
    push_must(&mut steps, FsOp::Write(cache_dir.join("platform"), bytes_of(named.as_str())));
    if !digest.is_empty() {
        push_must(&mut steps, FsOp::Write(cache_dir.join("digest"), bytes_of(digest)));
    }
    assert(fs::step_views(steps@) =~= pulled_steps(
        cache_dir@,
        platform@,
        blob_views(layers@),
        digests.deep_view(),
        config@,
        digest@,
    ));
    steps
}

/// Store the layers of a pulled image and what the registry said of it; the config
/// is stored in the layout that [`stored_config`] gives it.
pub fn pull_end(
    reference: &Reference,
    platform: &Platform,
    cache_dir: &HostPath,
    manifest: &Manifest,
    config_blob: &str,
    layers: &Vec<Vec<u8>>,
) -> (r: Result<(Vec<Step>, PulledImage), Error>)
    ensures
        r is Ok <==> config::oci_config(config_blob@) is Ok,
        match r {
            Ok((steps, p)) => {
                &&& config::oci_config(config_blob@) == Ok::<ConfigView, Seq<char>>(p.config@)
                &&& pulled_is(p, *reference, *platform, *cache_dir, *manifest, true)
                &&& exists|json: Seq<char>|
                    #![trigger config::config_file(json)]
                    fs::step_views(steps@) == pulled_steps(
                        cache_dir@,
                        platform@,
                        blob_views(layers@),
                        layer_digests_of(manifest.layers@),
                        json,
                        manifest.digest@,
                    ) && (config::config_file(config_blob@) matches Ok(c) && config::config_file(
                        json,
                    ) == Ok::<FileView, Seq<char>>(config::compact_file(c)))
            },
            Err(e) => config::oci_config(config_blob@) matches Err(m) && e@
                == config::config_error("image config"@, m),
        },
{
    let config = match parse_config("image config", config_blob) {
        Ok(c) => c,
        Err(e) => {
            return Err(e);
        },
    };
    match stored_config(config_blob) {
        Ok(json) => {
            let digests = digests_of(&manifest.layers);
            let steps = write_pulled(
                cache_dir,
                platform,
                layers,
                &digests,
                json.as_str(),
                manifest.digest.as_str(),
            );
            let image = pulled_image(reference, platform, cache_dir, manifest, config, true);
            assert(config::config_file(json@) is Ok);
            Ok((steps, image))
        },
        Err(e) => Err(e),
    }
}

/// The last line of a pull.
pub open spec fn pull_message(reference: Seq<char>, updated: bool) -> Seq<char> {
    if updated {
        "Downloaded newer image for "@ + reference
    } else {
        "Image is up to date for "@ + reference
    }
}

/// Emit the final Docker pull footer (`Digest` and `Status`).
pub fn finish_pull_progress<P: PullProgress>(
    reference: &str,
    digest: Option<&str>,
    updated: bool,
    progress: &mut P,
)
    ensures
        progress::pull_handled(
            *old(progress),
            match digest {
                Some(d) => seq![
                    PullEventView::Digest { digest: d@ },
                    PullEventView::Status { message: pull_message(reference@, updated) },
                ],
                None => seq![
                    PullEventView::Status { message: pull_message(reference@, updated) },
                ],
            },
            *final(progress),
        ),
{
    let ghost start = *progress;
    let ghost none = Seq::<PullEventView>::empty();
    let ghost mut seen = none;
    if let Some(d) = digest {
        let e = PullEvent::Digest { digest: d.to_owned() };
        let ghost v = e@;
        report(progress, e, Ghost(start), Ghost(none));
        proof {
            seen = none.push(v);
        }
    }
    let message = if updated {
        "Downloaded newer image for ".to_owned().concat(reference)
    } else {
        "Image is up to date for ".to_owned().concat(reference)
    };
    let e = PullEvent::Status { message };
    let ghost v = e@;
    report(progress, e, Ghost(start), Ghost(seen));
    proof {
        match digest {
            Some(d) => {
                assert(seen.push(v) =~= seq![
                    PullEventView::Digest { digest: d@ },
                    PullEventView::Status { message: pull_message(reference@, updated) },
                ]);
            },
            None => {
                assert(seen.push(v) =~= seq![
                    PullEventView::Status { message: pull_message(reference@, updated) },
                ]);
            },
        }
    }
}

/// Whether an image has to be pulled.
pub fn needs_pull(force_pull: bool, cached: bool) -> (r: bool)
    ensures
        r == (force_pull || !cached),
{
    force_pull || !cached
}

/// Decide whether an image has to be pulled before it is unpacked, and announce where
/// it is missing if that is asked for.
pub fn ensure_start<P: PullProgress>(
    image: &str,
    force_pull: bool,
    cached: bool,
    announce_missing: bool,
    progress: &mut P,
) -> (r: bool)
    ensures
        r == (force_pull || !cached),
        progress::pull_handled(
            *old(progress),
            if announce_missing && !cached {
                seq![PullEventView::UnableToFindLocally { reference: image@ }]
            } else {
                Seq::empty()
            },
            *final(progress),
        ),
{
    let ghost start = *progress;
    let ghost none = Seq::<PullEventView>::empty();
    let pull = needs_pull(force_pull, cached);
    if pull && announce_missing && !cached {
        let e = PullEvent::UnableToFindLocally { reference: image.to_owned() };
        let ghost v = e@;
        report(progress, e, Ghost(start), Ghost(none));
        assert(none.push(v) =~= seq![v]);
    }
    pull
}

// ---------------------------------------------------------------------------
// Laws
// ---------------------------------------------------------------------------

/// Whatever the order in which layers come, each is stored under its own index.
pub proof fn layers_keep_manifest_order(downloaded: Seq<(usize, Vec<u8>)>, k: int)
    requires
        0 <= k < downloaded.len(),
        forall|i: int| 0 <= i < downloaded.len() ==> (#[trigger] downloaded[i]).0 < downloaded.len(),
        forall|i: int, j: int|
            0 <= i < j < downloaded.len() ==> (#[trigger] downloaded[i]).0 != (
            #[trigger] downloaded[j]).0,
    ensures
        by_index(downloaded.len(), downloaded)[downloaded[k].0 as int] == downloaded[k].1@,
{
    lemma_by_index_at(downloaded.len(), downloaded, k);
}

proof fn lemma_by_index_at(n: nat, downloaded: Seq<(usize, Vec<u8>)>, k: int)
    requires
        0 <= k < downloaded.len() <= n,
        forall|i: int| 0 <= i < downloaded.len() ==> (#[trigger] downloaded[i]).0 < n,
        forall|i: int, j: int|
            0 <= i < j < downloaded.len() ==> (#[trigger] downloaded[i]).0 != (
            #[trigger] downloaded[j]).0,
    ensures
        by_index(n, downloaded)[downloaded[k].0 as int] == downloaded[k].1@,
    decreases downloaded.len(),
{
    let rest = downloaded.drop_last();
    assert forall|i: int| 0 <= i < rest.len() implies (#[trigger] rest[i]).0 < n by {
        assert(rest[i] == downloaded[i]);
    }
    lemma_by_index_len(n, rest);
    assert(downloaded.last() == downloaded[downloaded.len() - 1]);
    if k < rest.len() {
        assert forall|i: int, j: int| 0 <= i < j < rest.len() implies (#[trigger] rest[i]).0 != (
        #[trigger] rest[j]).0 by {
            assert(rest[i] == downloaded[i]);
            assert(rest[j] == downloaded[j]);
        }
        lemma_by_index_at(n, rest, k);
        assert(rest[k] == downloaded[k]);
        assert(downloaded[k].0 != downloaded[downloaded.len() - 1].0);
    }
}

/// Lines that are not empty stay.
proof fn lemma_nonempty(list: Seq<Seq<char>>)
    requires
        forall|i: int| 0 <= i < list.len() ==> store::on_a_line(#[trigger] list[i]),
    ensures
        layer_cache::nonempty(list) == list,
    decreases list.len(),
{
    if list.len() > 0 {
        let rest = list.drop_last();
        assert forall|i: int| 0 <= i < rest.len() implies store::on_a_line(#[trigger] rest[i]) by {
            assert(rest[i] == list[i]);
        }
        lemma_nonempty(rest);
        assert(store::on_a_line(list[list.len() - 1]));
        assert(rest.push(list.last()) =~= list);
    } else {
        assert(layer_cache::nonempty(list) =~= list);
    }
}

/// An image that was pulled is up to date: pulling it again while the registry has
/// the same image downloads nothing.
pub proof fn pulled_image_is_up_to_date(
    facts: CacheFacts,
    digest: Seq<char>,
    digests: Seq<Seq<char>>,
)
    requires
        digest.len() > 0,
        digests.len() > 0,
        forall|i: int| 0 <= i < digests.len() ==> store::on_a_line(#[trigger] digests[i]),
        facts.digest.deep_view() == Some(digest),
        facts.config_is_file,
        facts.digests.deep_view() == Some(store::digest_lines(digests)),
        facts.blobs@.len() == digests.len(),
        forall|i: int| 0 <= i < digests.len() ==> #[trigger] facts.blobs@[i],
    ensures
        cache_matches(facts, digest, digests),
{
    store::lemma_digest_lines(digests);
    lemma_nonempty(digests);
}

/// What is pulled is what is read: once the steps of a pull are done, the file of each
/// layer holds the blob that was downloaded for it, and the config, the layer digests
/// and the digest of the manifest stand in their files.
pub proof fn pulled_image_is_read_back(
    files: Map<PathView, Seq<u8>>,
    image: PathView,
    p: PlatformView,
    blobs: Seq<Seq<u8>>,
    digests: Seq<Seq<char>>,
    config: Seq<char>,
    digest: Seq<char>,
)
    requires
        blobs.len() == digests.len(),
        digests.len() > 0,
    ensures
        ({
            let after = store::files_after(
                files,
                pulled_steps(image, p, blobs, digests, config, digest),
            );
            let list = image.child("layers"@).child("digests"@);
            &&& forall|i: int|
                0 <= i < blobs.len() ==> after.contains_key(store::blob_at(image, i as nat))
                    && after[#[trigger] store::blob_at(image, i as nat)] == blobs[i]
            &&& after.contains_key(image.child("config.json"@))
            &&& after[image.child("config.json"@)] == encode_utf8(config)
            &&& digest.len() > 0 ==> {
                &&& after.contains_key(image.child("digest"@))
                &&& after[image.child("digest"@)] == encode_utf8(digest)
            }
            &&& after.contains_key(list)
            &&& after[list] == encode_utf8(store::digest_lines(digests))
        }),
{
    let layers = Seq::new(
        blobs.len(),
        |i: int| LayerView { digest: Some(digests[i]), data: blobs[i] },
    );
    let x = StoredView { digest: some_digest(digest), config, layers };
    let steps = pulled_steps(image, p, blobs, digests, config, digest);
    lemma_same_blobs(image, as_layers(blobs), layers);
    lemma_all_digests(layers, digests);
    let make = seq![fs::must(FsOpView::CreateDirAll(image.child("layers"@)))];
    assert(store::put_steps(image, p, false, x) =~= make + steps);
    store::lemma_files_add(files, make, steps);
    assert(store::files_after(files, make) == files) by {
        assert(make.drop_last() =~= Seq::<StepView>::empty());
        assert(store::files_after(files, Seq::<StepView>::empty()) == files);
    }
    store::put_image_is_read_back(files, image, p, false, x);
    assert forall|i: int| 0 <= i < blobs.len() implies store::files_after(
        files,
        steps,
    )[#[trigger] store::blob_at(image, i as nat)] == blobs[i] by {
        assert(x.layers[i].data == blobs[i]);
    }
}

/// Which files are written for layers depends on their data alone.
proof fn lemma_same_blobs(image: PathView, a: Seq<LayerView>, b: Seq<LayerView>)
    requires
        a.len() == b.len(),
        forall|i: int| 0 <= i < a.len() ==> (#[trigger] a[i]).data == b[i].data,
    ensures
        store::write_blobs(image, a) == store::write_blobs(image, b),
    decreases a.len(),
{
    if a.len() > 0 {
        lemma_same_blobs(image, a.drop_last(), b.drop_last());
        assert(a[a.len() - 1].data == b.last().data);
    }
}

/// Layers that all have a digest have these digests.
proof fn lemma_all_digests(layers: Seq<LayerView>, digests: Seq<Seq<char>>)
    requires
        layers.len() == digests.len(),
        forall|i: int| 0 <= i < layers.len() ==> (#[trigger] layers[i]).digest == Some(digests[i]),
    ensures
        store::all_digests(layers) == Some(digests),
    decreases layers.len(),
{
    if layers.len() == 0 {
        assert(digests =~= Seq::empty());
    } else {
        lemma_all_digests(layers.drop_last(), digests.drop_last());
        assert(layers[layers.len() - 1].digest == Some(digests.last()));
        assert(digests =~= digests.drop_last().push(digests.last()));
    }
}

} // verus!
