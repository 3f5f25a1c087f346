//! Export a built rootfs into the local image store.

use std::time::Duration;

use vstd::prelude::*;
use vstd::utf8::encode_utf8;

use crate::config::{self, export_config, BaseConfig, FileView};
use crate::digest::{self, digest_label};
use crate::error::{self, Error, ErrorView};
use crate::executor::{self, RunView, StageRun};
use crate::fs::{self, no_steps, push_must, FsOp, Step, StepView};
use crate::meta::{ImageMeta, MetaView};
use crate::path::{HostPath, PathView};
use crate::platform::{Platform, PlatformView};
use crate::progress::{self, BuildEvent, BuildEventView, BuildProgress, ProgressEmitter};
use crate::reference::{self, parse_reference, Reference, ReferenceView};
use crate::request::BuildResult;
use crate::store::{self, has_digest, LayerView, LocalImageStore, StoredImage, StoredLayer, StoredView};
use crate::text::{self, bytes_of, copy_bytes, join};
use crate::vars;

verus! {

broadcast use vstd::seq_lib::group_seq_properties;

/// Working directory for an in-progress build under the data root.
pub fn work_dir(build_root: &HostPath, id: &str) -> (r: HostPath)
    ensures
        r@ == build_root@.child(id@),
{
    build_root.join(id)
}

// ---------------------------------------------------------------------------
// Where the exported layer comes from
// ---------------------------------------------------------------------------

/// Where the layer of an exported image comes from.
#[derive(Debug)]
pub enum ExportSource {
    /// The packed blob of the build cache, by its path.
    Blob(HostPath),
    /// The packed blob of the build cache, which has to be read.
    Read,
    /// This root filesystem has to be packed.
    Pack(HostPath),
}

/// Where the layer of an exported image comes from: the build cache where the last
/// step came from it and it holds a packed blob, else the root filesystem of the
/// stage.
pub open spec fn source_is(
    r: ExportSource,
    run: RunView,
    has_blob: bool,
    blob_path: Option<HostPath>,
) -> bool {
    if run.built || !has_blob {
        r matches ExportSource::Pack(p) && p@ == run.state.rootfs
    } else {
        match blob_path {
            Some(p) => r matches ExportSource::Blob(q) && q@ == p@,
            None => r is Read,
        }
    }
}

/// Start the export; the result is its vertex.
pub fn export_start<R: BuildProgress>(progress: &mut ProgressEmitter<R>) -> (r: u32)
    requires
        old(progress).next_id < u32::MAX,
    ensures
        r == old(progress).next_id,
        progress::emitted(
            *old(progress),
            seq![BuildEventView::VertexStart { id: r, name: "[internal] exporting to image"@ }],
            1,
            *final(progress),
        ),
{
    progress.start("[internal] exporting to image")
}

/// Decide where the layer comes from, and report where it has to be packed.
pub fn export_source<R: BuildProgress>(
    progress: &mut ProgressEmitter<R>,
    id: u32,
    run: &StageRun,
    has_blob: bool,
    blob_path: Option<HostPath>,
) -> (r: ExportSource)
    ensures
        source_is(r, run@, has_blob, blob_path),
        progress::emitted(
            *old(progress),
            if has_blob && !run@.built {
                Seq::empty()
            } else {
                seq![BuildEventView::VertexStatus { id, status: "exporting layers"@ }]
            },
            0,
            *final(progress),
        ),
{
    if has_blob && !run.built {
        match blob_path {
            Some(p) => ExportSource::Blob(p),
            None => ExportSource::Read,
        }
    } else {
        progress.status(id, "exporting layers");
        ExportSource::Pack(run.state.rootfs.copy())
    }
}

/// The layer of an exported image.
#[derive(Debug)]
pub enum ExportLayer {
    /// The packed bytes.
    Bytes(Vec<u8>),
    /// A file with the packed bytes, and their digest.
    File(HostPath, String),
}

impl ExportLayer {
    /// The digest of the layer.
    pub open spec fn digest_text(&self) -> Seq<char> {
        match self {
            ExportLayer::Bytes(b) => digest::labelled_digest(b@),
            ExportLayer::File(_, d) => d@,
        }
    }

    /// The digest of the layer.
    pub fn digest(&self) -> (r: String)
        ensures
            r@ == self.digest_text(),
    {
        match self {
            ExportLayer::Bytes(b) => digest_label(b.as_slice()),
            ExportLayer::File(_, d) => d.clone(),
        }
    }
}

/// What is said while the tags are written.
pub open spec fn naming(tags: Seq<Seq<char>>) -> Seq<char> {
    "naming to "@ + text::joined(tags, ", "@)
}

/// Report that the layer is there and the tags are about to be written, or that the
/// layer could not be had.
pub fn layer_ready<R: BuildProgress>(
    progress: &mut ProgressEmitter<R>,
    id: u32,
    tags: &Vec<String>,
    layer: Result<ExportLayer, Error>,
    elapsed: Duration,
) -> (r: Result<ExportLayer, Error>)
    ensures
        r == layer,
        progress::emitted(
            *old(progress),
            seq![
                match layer {
                    Ok(_) => BuildEventView::VertexStatus { id, status: naming(tags.deep_view()) },
                    Err(e) => BuildEventView::VertexError {
                        id,
                        error: error::error_text(e@),
                        duration: elapsed,
                    },
                },
            ],
            0,
            *final(progress),
        ),
{
    match layer {
        Ok(l) => {
            progress.status(id, "naming to ".to_owned().concat(join(tags, ", ").as_str()).as_str());
            Ok(l)
        },
        Err(e) => {
            progress.error(id, e.message().as_str(), elapsed);
            Err(e)
        },
    }
}

// ---------------------------------------------------------------------------
// Writing the tags
// ---------------------------------------------------------------------------

/// What the store says about a tag that is about to be written.
#[derive(Debug)]
pub struct TagFacts {
    /// Digest that is stored under the tag.
    pub stored_digest: Option<String>,
    /// The first layer is stored under the tag.
    pub first_layer: bool,
    /// The directory of the image exists.
    pub exists_already: bool,
}

/// An export of one layer under several tags.
#[derive(Debug)]
pub struct ExportRun {
    /// Tags to write.
    pub tags: Vec<String>,
    /// Platform of the image.
    pub platform: Platform,
    /// Config file of the image.
    pub config: String,
    /// Layer of the image.
    pub layer: ExportLayer,
    /// Digest of the layer.
    pub digest: String,
    /// References that were written.
    pub written: Vec<Reference>,
}

/// Whether an image with this digest stands under a tag already.
pub open spec fn already_there(facts: TagFacts, digest: Seq<char>) -> bool {
    store::same_digest(facts.stored_digest.deep_view(), digest) && facts.first_layer
}

/// Writing one tag. Where the layer stands there already, the config alone is written.
pub open spec fn tag_steps(
    image: PathView,
    platform: PlatformView,
    facts: TagFacts,
    config: Seq<char>,
    layer: ExportLayer,
    digest: Seq<char>,
) -> Seq<StepView> {
    if already_there(facts, digest) {
        seq![store::write_text(image.child("config.json"@), config)]
    } else {
        match layer {
            ExportLayer::Bytes(b) => store::put_steps(
                image,
                platform,
                facts.exists_already,
                StoredView {
                    digest: Some(digest),
                    config,
                    layers: seq![LayerView { digest: Some(digest), data: b@ }],
                },
            ),
            ExportLayer::File(path, _) => store::put_file_steps(
                image,
                platform,
                facts.exists_already,
                digest,
                config,
                path@,
            ),
        }
    }
}

/// What a tag is taken for.
pub open spec fn tag_reference(tag: Seq<char>) -> Result<ReferenceView, ErrorView> {
    reference::reference_outcome(
        reference::without_scheme(tag),
        reference::oci_reference(reference::without_scheme(tag)),
    )
}

impl ExportRun {
    /// An export of `layer` with this config under `tags`, of which there must be one.
    pub fn new(
        layer: ExportLayer,
        meta: &ImageMeta,
        tags: &Vec<String>,
        platform: &Platform,
        history_comment: &str,
    ) -> (r: Result<Self, Error>)
        ensures
            if tags@.len() == 0 {
                r matches Err(e) && e@ == ErrorView::Other("build requires at least one tag"@)
            } else {
                &&& r matches Ok(x)
                &&& x.tags.deep_view() == tags.deep_view()
                &&& x.platform@ == platform@
                &&& config::config_file(x.config@) == Ok::<FileView, Seq<char>>(
                    config::exported_file(meta@, platform@, history_comment@),
                )
                &&& x.layer == layer
                &&& x.digest@ == layer.digest_text()
                &&& x.written@.len() == 0
            },
    {
        if tags.len() == 0 {
            return Err(Error::other("build requires at least one tag"));
        }
        match export_config(meta, platform, history_comment) {
            Ok(config) => {
                let digest = layer.digest();
                Ok(
                    ExportRun {
                        tags: tags.clone(),
                        platform: platform.copy(),
                        config,
                        layer,
                        digest,
                        written: Vec::new(),
                    },
                )
            },
            Err(e) => Err(e),
        }
    }

    /// The reference of the next tag, if one is left.
    pub fn next(&self) -> (r: Result<Option<Reference>, Error>)
        ensures
            if self.written@.len() >= self.tags@.len() {
                r == Ok::<Option<Reference>, Error>(None)
            } else {
                match tag_reference(self.tags@[self.written@.len() as int]@) {
                    Ok(v) => r matches Ok(Some(x)) && x@ == v,
                    Err(v) => r matches Err(e) && e@ == v,
                }
            },
    {
        let n: usize = self.written.len();
        if n >= self.tags.len() {
            return Ok(None);
        }
        match parse_reference(self.tags[n].as_str()) {
            Ok(x) => Ok(Some(x)),
            Err(e) => Err(e),
        }
    }

    /// Write the next tag; where the same layer stands there already, only its config.
    pub fn put(&mut self, store: &LocalImageStore, reference: Reference, facts: &TagFacts) -> (r: Vec<
        Step,
    >)
        ensures
            final(self).tags == old(self).tags,
            final(self).platform == old(self).platform,
            final(self).config == old(self).config,
            final(self).layer == old(self).layer,
            final(self).digest == old(self).digest,
            final(self).written@ == old(self).written@.push(reference),
            fs::step_views(r@) == tag_steps(
                store::image_at(store.at(), reference@, old(self).platform@),
                old(self).platform@,
                *facts,
                old(self).config@,
                old(self).layer,
                old(self).digest@,
            ),
    {
        let steps = if has_digest(&facts.stored_digest, facts.first_layer, self.digest.as_str()) {
            let image = store.image_dir(&reference, &self.platform);
            let file = image.join("config.json");
            let mut steps = no_steps();
            push_must(&mut steps, FsOp::Write(file, bytes_of(self.config.as_str())));
            assert(fs::step_views(steps@) =~= seq![
                store::write_text(image@.child("config.json"@), self.config@),
            ]);
            steps
        } else {
            match &self.layer {
                ExportLayer::Bytes(b) => {
                    let layers = vec![
                        StoredLayer { digest: Some(self.digest.clone()), data: copy_bytes(b) },
                    ];
                    let image = StoredImage {
                        digest: Some(self.digest.clone()),
                        config: self.config.clone(),
                        layers,
                    };
                    assert(image@.layers =~= seq![
                        LayerView { digest: Some(self.digest@), data: b@ },
                    ]);
                    store.put_image(&reference, &self.platform, facts.exists_already, &image)
                },
                ExportLayer::File(path, _) => store.put_image_layer_file(
                    &reference,
                    &self.platform,
                    facts.exists_already,
                    self.digest.as_str(),
                    self.config.as_str(),
                    path,
                ),
            }
        };
        self.written.push(reference);
        steps
    }
}

/// The identifiers under which an image was written.
pub open spec fn image_ids(refs: Seq<Reference>) -> Seq<Seq<char>> {
    refs.map_values(|r: Reference| r@.whole())
}

/// Report the end of the export.
pub fn export_done<R: BuildProgress>(
    progress: &mut ProgressEmitter<R>,
    id: u32,
    elapsed: Duration,
)
    ensures
        progress::emitted(
            *old(progress),
            seq![BuildEventView::VertexDone { id, cached: false, duration: elapsed }],
            0,
            *final(progress),
        ),
{
    progress.done(id, elapsed);
}

/// Report the end of the build and give its result.
pub fn build_finished<R: BuildProgress>(
    progress: &mut ProgressEmitter<R>,
    tags: Vec<String>,
    refs: &Vec<Reference>,
) -> (r: BuildResult)
    ensures
        r.tags == tags,
        r.image_ids.deep_view() == image_ids(refs@),
        progress::emitted(
            *old(progress),
            seq![BuildEventView::Finished { image_ids: image_ids(refs@) }],
            0,
            *final(progress),
        ),
{
    let mut ids: Vec<String> = Vec::new();
    for i in 0..refs.len()
        invariant
            ids.deep_view() == image_ids(refs@.take(i as int)),
    {
        let ghost seen = ids.deep_view();
        ids.push(refs[i].whole());
        assert(ids.deep_view() =~= seen.push(refs@[i as int]@.whole()));
        assert(ids.deep_view() =~= image_ids(refs@.take(i + 1)));
    }
    assert(refs@.take(refs@.len() as int) =~= refs@);
    progress.emit(BuildEvent::Finished { image_ids: ids.clone() });
    BuildResult { tags, image_ids: ids }
}

// ---------------------------------------------------------------------------
// Laws
// ---------------------------------------------------------------------------

/// What is exported behind a step that was carried out is packed from the root
/// filesystem of this build, whatever blob the cache holds for the layer.
pub proof fn built_step_is_packed(
    run: RunView,
    layer_id: Seq<char>,
    source: ExportSource,
    has_blob: bool,
    blob_path: Option<HostPath>,
)
    requires
        source_is(source, executor::after_built(run, layer_id), has_blob, blob_path),
    ensures
        source matches ExportSource::Pack(p) && p@ == run.state.rootfs,
{
}

/// A layer that was written under a tag is not written there again: the second export
/// writes the config and nothing else.
pub proof fn exporting_twice_writes_the_layer_once(
    image: PathView,
    platform: PlatformView,
    facts: TagFacts,
    config: Seq<char>,
    layer: ExportLayer,
    digest: Seq<char>,
)
    requires
        text::trimmed(digest).len() > 0,
        facts.stored_digest.deep_view() == store::digest_in(Some(digest)),
        facts.first_layer,
    ensures
        tag_steps(image, platform, facts, config, layer, digest) == seq![
            store::write_text(image.child("config.json"@), config),
        ],
{
    let once = text::trimmed(digest);
    text::lemma_trimmed_ends(digest);
    text::lemma_trimmed_kept(once);
}

/// The config of an export is stored under every tag, whether or not the layer stands
/// there already; where it does, no other file changes.
pub proof fn exported_config_is_stored(
    files: Map<PathView, Seq<u8>>,
    image: PathView,
    platform: PlatformView,
    facts: TagFacts,
    config: Seq<char>,
    layer: ExportLayer,
    digest: Seq<char>,
)
    requires
        layer matches ExportLayer::File(path, _) ==> files.contains_key(path@) && !path@.within(
            image,
        ),
    ensures
        ({
            let file = image.child("config.json"@);
            let after = store::files_after(
                files,
                tag_steps(image, platform, facts, config, layer, digest),
            );
            &&& after.contains_key(file)
            &&& after[file] == encode_utf8(config)
            &&& already_there(facts, digest) ==> after == files.insert(file, encode_utf8(config))
        }),
{
    if already_there(facts, digest) {
        let step = store::write_text(image.child("config.json"@), config);
        assert(seq![step].drop_last() =~= Seq::<StepView>::empty());
        assert(store::files_after(files, seq![step].drop_last()) == files);
    } else {
        match layer {
            ExportLayer::Bytes(b) => {
                store::put_image_is_read_back(
                    files,
                    image,
                    platform,
                    facts.exists_already,
                    StoredView {
                        digest: Some(digest),
                        config,
                        layers: seq![LayerView { digest: Some(digest), data: b@ }],
                    },
                );
            },
            ExportLayer::File(path, _) => {
                store::put_layer_file_is_read_back(
                    files,
                    image,
                    platform,
                    facts.exists_already,
                    digest,
                    config,
                    path@,
                );
            },
        }
    }
}

/// The layer of an export stands under every tag: where it is not there yet it is
/// written, else it stays.
pub proof fn exported_layer_is_stored(
    files: Map<PathView, Seq<u8>>,
    image: PathView,
    platform: PlatformView,
    facts: TagFacts,
    config: Seq<char>,
    layer: ExportLayer,
    digest: Seq<char>,
    data: Seq<u8>,
)
    requires
        match layer {
            ExportLayer::Bytes(b) => b@ == data,
            ExportLayer::File(path, _) => {
                &&& files.contains_key(path@)
                &&& files[path@] == data
                &&& !path@.within(image)
            },
        },
        already_there(facts, digest) ==> files.contains_key(store::blob_at(image, 0))
            && files[store::blob_at(image, 0)] == data,
    ensures
        ({
            let after = store::files_after(
                files,
                tag_steps(image, platform, facts, config, layer, digest),
            );
            &&& after.contains_key(store::blob_at(image, 0))
            &&& after[store::blob_at(image, 0)] == data
        }),
{
    if already_there(facts, digest) {
        exported_config_is_stored(files, image, platform, facts, config, layer, digest);
        let blob = store::blob_at(image, 0);
        assert(blob.parts.len() == image.parts.len() + 2);
        assert(image.child("config.json"@).parts.len() == image.parts.len() + 1);
    } else {
        match layer {
            ExportLayer::Bytes(b) => {
                let x = StoredView {
                    digest: Some(digest),
                    config,
                    layers: seq![LayerView { digest: Some(digest), data: b@ }],
                };
                store::put_image_is_read_back(files, image, platform, facts.exists_already, x);
                assert(x.layers[0].data == data);
                assert(store::blob_at(image, 0int as nat) == store::blob_at(image, 0));
            },
            ExportLayer::File(path, _) => {
                store::put_layer_file_is_read_back(
                    files,
                    image,
                    platform,
                    facts.exists_already,
                    digest,
                    config,
                    path@,
                );
            },
        }
    }
}

/// An exported image can be built on: a stage that starts from it has the
/// environment, the working directory, the user, the entry point, the command and
/// the labels that were exported. An entry point or a command without any words
/// counts as none.
pub proof fn exported_image_is_a_base(meta: MetaView, base: BaseConfig)
    requires
        config::exported(meta).config == Some(base@),
        meta.env.len() > 0,
        meta.working_dir.len() > 0,
    ensures
        executor::base_meta(Some(base)).env == meta.env,
        executor::base_meta(Some(base)).working_dir == meta.working_dir,
        executor::base_meta(Some(base)).user == meta.user,
        executor::base_meta(Some(base)).entrypoint == config::some_nonempty(meta.entrypoint),
        executor::base_meta(Some(base)).cmd == config::some_nonempty(meta.cmd),
        vars::map_of(executor::base_meta(Some(base)).labels) == vars::map_of(meta.labels),
{
    let c = config::exported(meta).config->0;
    assert(c.env == Some(meta.env));
    assert(base@.env == Some(meta.env));
    assert(base@.labels == c.labels);
    if meta.labels.len() == 0 {
        assert(base.labels is None);
        assert(vars::map_of(meta.labels) =~= vars::map_of(Seq::empty()));
    } else {
        assert(base.labels is Some);
    }
}

} // verus!
