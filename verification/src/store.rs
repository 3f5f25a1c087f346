//! Storage for pulled and exported image configs and layer blobs.

use std::collections::hash_map::DefaultHasher;
use std::hash::Hasher;

use vstd::bytes::*;
use vstd::prelude::*;
use vstd::std_specs::hash::*;
use vstd::utf8::*;

use crate::config::{self, compact_config, parse_config, ConfigView, FileView, ImageConfig};
use crate::digest;
use crate::error::Error;
use crate::fs::{self, is_dir, is_file, no_steps, push_must, FsMetadata, FsOp, FsOpView, Step, StepView};
use crate::path::{HostPath, PathView};
use crate::platform::{Platform, PlatformView};
use crate::reference::{Reference, ReferenceView};
use crate::text::{self, bytes_of, copy_bytes, ends_with, join, lines, number, same_text, trim};

verus! {

broadcast use vstd::seq_lib::group_seq_properties;

/// An image to persist: config plus ordered layer blobs.
#[derive(Debug, Clone)]
pub struct StoredImage {
    /// Manifest digest (pull) or packed-layer digest (export).
    pub digest: Option<String>,
    /// OCI image config, as its file holds it.
    pub config: String,
    /// Layer blobs in manifest or export order.
    pub layers: Vec<StoredLayer>,
}

/// One compressed layer blob (`application/vnd.oci.image.layer.v1.tar+gzip`).
#[derive(Debug, Clone)]
pub struct StoredLayer {
    /// OCI compressed-layer digest (`sha256:...`) when known.
    pub digest: Option<String>,
    /// Gzip-compressed tar bytes.
    pub data: Vec<u8>,
}

/// A [`StoredLayer`] with its texts as character sequences.
pub struct LayerView {
    pub digest: Option<Seq<char>>,
    pub data: Seq<u8>,
}

/// A [`StoredImage`] with its texts as character sequences.
pub struct StoredView {
    pub digest: Option<Seq<char>>,
    pub config: Seq<char>,
    pub layers: Seq<LayerView>,
}

impl View for StoredLayer {
    type V = LayerView;

    open spec fn view(&self) -> LayerView {
        LayerView { digest: self.digest.deep_view(), data: self.data@ }
    }
}

impl View for StoredImage {
    type V = StoredView;

    open spec fn view(&self) -> StoredView {
        StoredView {
            digest: self.digest.deep_view(),
            config: self.config@,
            layers: self.layers@.map_values(|l: StoredLayer| l@),
        }
    }
}

/// Images under one directory.
///
/// ```text
/// <root>/
///   images/<sanitized-ref>_<os>_<arch>/
///     config.json
///     digest
///     layers/
///   overlay2/  # instruction cache
///   work/      # temporary build directories
/// ```
#[derive(Debug, Clone)]
pub struct LocalImageStore {
    root: HostPath,
}

// ---------------------------------------------------------------------------
// Where things are
// ---------------------------------------------------------------------------

/// `c`, or an underscore where it is neither an ASCII letter nor a digit.
pub open spec fn safe_char(c: char) -> char {
    if text::ascii_alnum(c) {
        c
    } else {
        '_'
    }
}

/// The directory name of an image.
pub open spec fn sanitized(reference: ReferenceView, platform: PlatformView) -> Seq<char> {
    reference.whole().map_values(|c: char| safe_char(c)) + "_"@ + platform.os + "_"@
        + platform.architecture
}

/// The directory of an image's config, digest and layers.
pub open spec fn image_at(root: PathView, r: ReferenceView, p: PlatformView) -> PathView {
    root.child("images"@).child(sanitized(r, p))
}

/// The file of a layer blob.
pub open spec fn blob_at(image: PathView, index: nat) -> PathView {
    image.child("layers"@).child(text::decimal(index) + ".tar.gz"@)
}

/// The directory name of an image: its reference with every character but ASCII
/// letters and digits replaced, then its platform.
pub fn sanitize(reference: &Reference, platform: &Platform) -> (r: String)
    ensures
        r@ == sanitized(reference@, platform@),
{
    let v = text::chars_of(reference.whole().as_str());
    let mut base = String::new();
    let ghost all = reference@.whole();
    assert(base@ =~= all.take(0).map_values(|c: char| safe_char(c)));
    for i in 0..v.len()
        invariant
            v@ == all,
            base@ == all.take(i as int).map_values(|c: char| safe_char(c)),
    {
        let ghost seen = base@;
        let c: char = v[i];
        if text::is_ascii_alnum(c) {
            base.push(c);
        } else {
            base.push('_');
        }
        assert(base@ =~= seen.push(safe_char(all[i as int])));
        assert(base@ =~= all.take(i + 1).map_values(|c: char| safe_char(c)));
    }
    assert(all.take(all.len() as int) =~= all);
    base.concat("_").concat(platform.os.as_str()).concat("_").concat(
        platform.architecture.as_str(),
    )
}

/// Operating systems with a data directory of their own.
#[derive(Debug, Clone, Copy, PartialEq, Eq, Structural)]
pub enum HostOs {
    /// Linux.
    Linux,
    /// Apple macOS.
    Macos,
    /// Microsoft Windows.
    Windows,
    /// Anything else.
    Other,
}

/// What a machine says about places for Docker's data.
#[derive(Debug)]
pub struct DataRootFacts {
    /// Operating system.
    pub os: HostOs,
    /// `DOCKER_DATA_ROOT`, where it is set. An empty path counts as unset.
    pub docker_data_root: Option<HostPath>,
    /// The process runs as root.
    pub is_root: bool,
    /// The user's directory for local data, where the user has one.
    pub data_local: Option<HostPath>,
    /// `/var/lib/docker` is a directory.
    pub system_dir_exists: bool,
    /// The data distribution is there under `\\wsl$`.
    pub wsl_exists: bool,
    /// The data distribution is there under `\\wsl.localhost`.
    pub wsl_localhost_exists: bool,
    /// `ProgramData`, where it is set.
    pub program_data: Option<HostPath>,
}

/// The data directory of the whole system.
pub open spec fn system_dir() -> PathView {
    PathView { anchor: "/"@, parts: seq!["var"@, "lib"@, "docker"@] }
}

/// The data directory of the user.
pub open spec fn user_dir(data_local: Option<HostPath>) -> PathView {
    match data_local {
        Some(d) => d@.child("docker"@),
        None => system_dir(),
    }
}

/// The path is empty.
pub open spec fn is_empty_path(p: PathView) -> bool {
    p.anchor.len() == 0 && p.parts.len() == 0
}

/// Docker's data directory on a machine.
pub open spec fn data_root(f: DataRootFacts) -> PathView {
    match f.docker_data_root {
        Some(d) if !is_empty_path(d@) => d@,
        _ => match f.os {
            HostOs::Linux => if f.is_root {
                system_dir()
            } else {
                user_dir(f.data_local)
            },
            HostOs::Macos => if f.system_dir_exists {
                system_dir()
            } else {
                user_dir(f.data_local)
            },
            HostOs::Windows => if f.wsl_exists {
                PathView {
                    anchor: "\\\\wsl$\\docker-desktop-data\\"@,
                    parts: seq!["data"@, "docker"@],
                }
            } else if f.wsl_localhost_exists {
                PathView {
                    anchor: "\\\\wsl.localhost\\docker-desktop-data\\"@,
                    parts: seq!["data"@, "docker"@],
                }
            } else {
                match f.program_data {
                    Some(d) => d@.child("Docker"@),
                    None => PathView { anchor: "C:\\"@, parts: seq!["ProgramData"@, "Docker"@] },
                }
            },
            HostOs::Other => system_dir(),
        },
    }
}

/// A path from its anchor and two components.
fn path_of(anchor: &str, a: &str, b: &str) -> (r: HostPath)
    ensures
        r@ == (PathView { anchor: anchor@, parts: seq![a@, b@] }),
{
    let parts = vec![a.to_owned(), b.to_owned()];
    assert(parts.deep_view() =~= seq![a@, b@]);
    HostPath { anchor: anchor.to_owned(), parts }
}

/// The data directory of the whole system.
fn system_data() -> (r: HostPath)
    ensures
        r@ == system_dir(),
{
    let r = path_of("/", "var", "lib").join("docker");
    assert(r@.parts =~= system_dir().parts);
    r
}

/// The data directory of the user.
fn data_local_docker(data_local: &Option<HostPath>) -> (r: HostPath)
    ensures
        r@ == user_dir(*data_local),
{
    match data_local {
        Some(d) => d.join("docker"),
        None => system_data(),
    }
}

/// Docker's data directory on a machine.
fn docker_data_root(f: &DataRootFacts) -> (r: HostPath)
    ensures
        r@ == data_root(*f),
{
    if let Some(d) = &f.docker_data_root {
        assert(d@.parts.len() == d.parts@.len());
        if !(d.anchor.as_str().is_empty() && d.parts.len() == 0) {
            return d.copy();
        }
    }
    match f.os {
        HostOs::Linux => if f.is_root {
            system_data()
        } else {
            data_local_docker(&f.data_local)
        },
        HostOs::Macos => if f.system_dir_exists {
            system_data()
        } else {
            data_local_docker(&f.data_local)
        },
        HostOs::Windows => if f.wsl_exists {
            path_of("\\\\wsl$\\docker-desktop-data\\", "data", "docker")
        } else if f.wsl_localhost_exists {
            path_of("\\\\wsl.localhost\\docker-desktop-data\\", "data", "docker")
        } else {
            match &f.program_data {
                Some(d) => d.join("Docker"),
                None => path_of("C:\\", "ProgramData", "Docker"),
            }
        },
        HostOs::Other => system_data(),
    }
}

// ---------------------------------------------------------------------------
// What the files say
// ---------------------------------------------------------------------------

/// The digest that a digest file holds.
pub open spec fn digest_in(file: Option<Seq<char>>) -> Option<Seq<char>> {
    match file {
        Some(s) if text::trimmed(s).len() > 0 => Some(text::trimmed(s)),
        _ => None,
    }
}

/// The lines of `list` without surrounding whitespace and without empty ones.
pub open spec fn nonblank(list: Seq<Seq<char>>) -> Seq<Seq<char>>
    decreases list.len(),
{
    if list.len() == 0 {
        Seq::empty()
    } else if text::trimmed(list.last()).len() == 0 {
        nonblank(list.drop_last())
    } else {
        nonblank(list.drop_last()).push(text::trimmed(list.last()))
    }
}

/// The digests that a list of layer digests holds.
pub open spec fn digests_in(file: Option<Seq<char>>) -> Seq<Seq<char>> {
    match file {
        Some(s) => nonblank(text::lines_of(s)),
        None => Seq::empty(),
    }
}

/// The number of layer blobs among the names of a directory.
pub open spec fn blobs_among(names: Seq<Seq<char>>) -> nat
    decreases names.len(),
{
    if names.len() == 0 {
        0
    } else if text::has_suffix(names.last(), ".tar.gz"@) {
        blobs_among(names.drop_last()) + 1
    } else {
        blobs_among(names.drop_last())
    }
}

/// What a file holds, where it could be read.
pub open spec fn file_text(r: Result<String, Error>) -> Option<Seq<char>> {
    match r {
        Ok(s) => Some(s@),
        Err(_) => None,
    }
}

/// What the store says of an image, as far as the choice to reuse it needs.
#[derive(Debug)]
pub struct StoreFacts {
    /// Stored digest.
    pub digest: Option<String>,
    /// The config is there.
    pub cached: bool,
    /// Stored layer digests.
    pub layer_digests: Vec<String>,
    /// Which of the layer blobs are there, in order.
    pub layers: Vec<bool>,
}

/// Whether what is stored is the image with this digest and these layers.
pub open spec fn is_stored(facts: StoreFacts, digest: Seq<char>, layers: Seq<Seq<char>>) -> bool {
    &&& digest.len() > 0
    &&& facts.digest matches Some(d) && text::trimmed(d@) == text::trimmed(digest)
    &&& facts.cached
    &&& facts.layer_digests.deep_view() == layers
    &&& facts.layers@.len() >= layers.len()
    &&& forall|i: int| 0 <= i < layers.len() ==> #[trigger] facts.layers@[i]
}

/// The fingerprint of stored content that has a digest: the digest with the layer
/// digests.
pub open spec fn stamp(digest: Seq<char>, layers: Seq<Seq<char>>) -> Seq<char> {
    if layers.len() > 0 {
        digest + "\n"@ + text::joined(layers, "\n"@) + "\n"@
    } else {
        digest + "\n"@
    }
}

/// What is hashed of stored content that has no digest: the config with a byte that
/// no text holds behind it, then the number and the size of each layer.
pub open spec fn hashed(config: Seq<char>, sizes: Seq<u64>) -> Seq<Seq<u8>>
    decreases sizes.len(),
{
    if sizes.len() == 0 {
        seq![encode_utf8(config), seq![0xffu8]]
    } else {
        hashed(config, sizes.drop_last()).push(
            spec_u64_to_le_bytes((sizes.len() - 1) as u64),
        ).push(spec_u64_to_le_bytes(sizes.last()))
    }
}

/// The fingerprint of stored content that has no digest: a hash of the config and the
/// sizes of the layers.
pub open spec fn hash_stamp(config: Seq<char>, sizes: Seq<u64>) -> Seq<char> {
    digest::hex_padded(DefaultHasher::spec_finish(hashed(config, sizes)) as nat, 16)
}

/// A line for each layer digest.
pub open spec fn digest_lines(digests: Seq<Seq<char>>) -> Seq<char> {
    text::joined(digests, "\n"@) + "\n"@
}

/// The layer digests of an image, where every layer has one.
pub open spec fn all_digests(layers: Seq<LayerView>) -> Option<Seq<Seq<char>>>
    decreases layers.len(),
{
    if layers.len() == 0 {
        Some(Seq::empty())
    } else {
        match (all_digests(layers.drop_last()), layers.last().digest) {
            (Some(before), Some(d)) => Some(before.push(d)),
            _ => None,
        }
    }
}

/// Writing the layer blobs, in order.
pub open spec fn write_blobs(image: PathView, layers: Seq<LayerView>) -> Seq<StepView>
    decreases layers.len(),
{
    if layers.len() == 0 {
        Seq::empty()
    } else {
        write_blobs(image, layers.drop_last()).push(
            fs::must(
                FsOpView::Write(
                    blob_at(image, (layers.len() - 1) as nat),
                    layers.last().data,
                ),
            ),
        )
    }
}

/// Replacing a directory by one with an empty directory for layers.
pub open spec fn fresh_dir(image: PathView, exists_already: bool) -> Seq<StepView> {
    (if exists_already {
        seq![fs::must(FsOpView::RemoveDirAll(image))]
    } else {
        Seq::empty()
    }) + seq![fs::must(FsOpView::CreateDirAll(image.child("layers"@)))]
}

/// The step that writes a text.
pub open spec fn write_text(path: PathView, content: Seq<char>) -> StepView {
    fs::must(FsOpView::Write(path, encode_utf8(content)))
}

/// The platform as its file names it.
pub open spec fn platform_text(p: PlatformView) -> Seq<char> {
    p.os + "/"@ + p.architecture
}

/// Writing the list of layer digests, where every layer has one.
pub open spec fn write_digests(image: PathView, layers: Seq<LayerView>) -> Seq<StepView> {
    match all_digests(layers) {
        Some(d) if d.len() > 0 => seq![
            write_text(image.child("layers"@).child("digests"@), digest_lines(d)),
        ],
        _ => Seq::empty(),
    }
}

/// Writing the digest of an image, where it has one.
pub open spec fn write_digest(image: PathView, digest: Option<Seq<char>>) -> Seq<StepView> {
    match digest {
        Some(d) if d.len() > 0 => seq![write_text(image.child("digest"@), d)],
        _ => Seq::empty(),
    }
}

/// Persisting an image in place of any previous copy.
pub open spec fn put_steps(
    image: PathView,
    p: PlatformView,
    exists_already: bool,
    x: StoredView,
) -> Seq<StepView> {
    fresh_dir(image, exists_already) + write_blobs(image, x.layers) + write_digests(
        image,
        x.layers,
    ) + seq![
        write_text(image.child("config.json"@), x.config),
        write_text(image.child("platform"@), platform_text(p)),
    ] + write_digest(image, x.digest)
}

/// Persisting an image whose only layer is copied from a file.
pub open spec fn put_file_steps(
    image: PathView,
    p: PlatformView,
    exists_already: bool,
    digest: Seq<char>,
    config: Seq<char>,
    layer: PathView,
) -> Seq<StepView> {
    fresh_dir(image, exists_already) + seq![
        fs::must(FsOpView::Copy(layer, blob_at(image, 0))),
        write_text(image.child("layers"@).child("digests"@), digest + "\n"@),
        write_text(image.child("config.json"@), config),
        write_text(image.child("platform"@), platform_text(p)),
        write_text(image.child("digest"@), digest),
    ]
}

/// The trimmed lines that are not empty.
fn keep_nonblank(list: Vec<String>) -> (r: Vec<String>)
    ensures
        r.deep_view() == nonblank(list.deep_view()),
{
    let mut out: Vec<String> = Vec::new();
    let ghost all = list.deep_view();
    assert(out.deep_view() =~= nonblank(all.take(0)));
    for i in 0..list.len()
        invariant
            all == list.deep_view(),
            out.deep_view() == nonblank(all.take(i as int)),
    {
        let ghost seen = out.deep_view();
        assert(all.take(i + 1).drop_last() =~= all.take(i as int));
        let line = trim(list[i].as_str());
        if !line.as_str().is_empty() {
            out.push(line);
            assert(out.deep_view() =~= seen.push(text::trimmed(all[i as int])));
        }
    }
    assert(all.take(all.len() as int) =~= all);
    out
}

impl LocalImageStore {
    /// The data directory.
    pub closed spec fn at(&self) -> PathView {
        self.root@
    }

    /// Use `root` as the data directory. The path is not created until a write.
    pub fn new(root: HostPath) -> (r: Self)
        ensures
            r.at() == root@,
    {
        LocalImageStore { root }
    }

    /// Docker's data-root on a machine (parent of `overlay2/`).
    ///
    /// Honors `DOCKER_DATA_ROOT` when set. Otherwise:
    ///
    /// - **Linux**: `/var/lib/docker` when running as root, else the user's
    ///   directory for local data (rootless)
    /// - **macOS**: `/var/lib/docker` (Docker Desktop's Linux VM); if that
    ///   directory is missing, the user's directory for local data
    /// - **Windows**: the WSL distribution with Docker Desktop's data when it is
    ///   present, else `%ProgramData%\Docker`
    pub fn default_root(facts: &DataRootFacts) -> (r: HostPath)
        ensures
            r@ == data_root(*facts),
    {
        docker_data_root(facts)
    }

    /// Host directory for the instruction cache and temporary build work.
    pub fn root(&self) -> (r: &HostPath)
        ensures
            r@ == self.at(),
    {
        &self.root
    }

    /// Directory that stores config, digest, and layer blobs for this image.
    pub fn image_dir(&self, reference: &Reference, platform: &Platform) -> (r: HostPath)
        ensures
            r@ == image_at(self.at(), reference@, platform@),
    {
        self.root.join("images").join(sanitize(reference, platform).as_str())
    }

    /// Directory reserved for unpacked OCI runtime bundles of this image.
    pub fn bundle_dir(&self, reference: &Reference, platform: &Platform) -> (r: HostPath)
        ensures
            r@ == self.at().child("bundles"@).child(sanitized(reference@, platform@)),
    {
        self.root.join("bundles").join(sanitize(reference, platform).as_str())
    }

    /// Directory of the layer blobs of this image.
    pub fn layers_dir(&self, reference: &Reference, platform: &Platform) -> (r: HostPath)
        ensures
            r@ == image_at(self.at(), reference@, platform@).child("layers"@),
    {
        self.image_dir(reference, platform).join("layers")
    }

    /// File of layer blob `index` (0-based, manifest order).
    pub fn layer_path(&self, reference: &Reference, platform: &Platform, index: usize) -> (r:
        HostPath)
        ensures
            r@ == blob_at(image_at(self.at(), reference@, platform@), index as nat),
    {
        self.layers_dir(reference, platform).join(
            number(index as u64).concat(".tar.gz").as_str(),
        )
    }

    /// File of the image config.
    pub fn config_path(&self, reference: &Reference, platform: &Platform) -> (r: HostPath)
        ensures
            r@ == image_at(self.at(), reference@, platform@).child("config.json"@),
    {
        self.image_dir(reference, platform).join("config.json")
    }

    /// File of the image digest.
    pub fn digest_path(&self, reference: &Reference, platform: &Platform) -> (r: HostPath)
        ensures
            r@ == image_at(self.at(), reference@, platform@).child("digest"@),
    {
        self.image_dir(reference, platform).join("digest")
    }

    /// File of the layer digests.
    pub fn digests_path(&self, reference: &Reference, platform: &Platform) -> (r: HostPath)
        ensures
            r@ == image_at(self.at(), reference@, platform@).child("layers"@).child("digests"@),
    {
        self.layers_dir(reference, platform).join("digests")
    }

    /// Plan how an image is persisted in place of any previous copy.
    pub fn put_image(
        &self,
        reference: &Reference,
        platform: &Platform,
        exists_already: bool,
        image: &StoredImage,
    ) -> (r: Vec<Step>)
        ensures
            fs::step_views(r@) == put_steps(
                image_at(self.at(), reference@, platform@),
                platform@,
                exists_already,
                image@,
            ),
    {
        let dir = self.image_dir(reference, platform);
        let layers_dir = dir.join("layers");
        let mut steps = no_steps();
        if exists_already {
            push_must(&mut steps, FsOp::RemoveDirAll(dir.copy()));
        }
        push_must(&mut steps, FsOp::CreateDirAll(layers_dir.copy()));
        let ghost head = fresh_dir(dir@, exists_already);
        assert(fs::step_views(steps@) =~= head);
        let mut digest_lines: Vec<String> = Vec::new();
        let mut every = true;
        let ghost all = image@.layers;
        assert(digest_lines.deep_view() =~= Seq::<Seq<char>>::empty());
        assert(head + write_blobs(dir@, all.take(0)) =~= head);
        for index in 0..image.layers.len()
            invariant
                all == image@.layers,
                all.len() == image.layers@.len(),
                layers_dir@ == dir@.child("layers"@),
                every ==> all_digests(all.take(index as int)) == Some(digest_lines.deep_view()),
                !every ==> all_digests(all.take(index as int)) is None,
                fs::step_views(steps@) == head + write_blobs(dir@, all.take(index as int)),
        {
            let ghost now = all.take(index + 1);
            assert(now.drop_last() =~= all.take(index as int));
            assert(now.last() == image.layers@[index as int]@);
            let layer = &image.layers[index];
            let name = number(index as u64).concat(".tar.gz");
            push_must(
                &mut steps,
                FsOp::Write(layers_dir.join(name.as_str()), copy_bytes(&layer.data)),
            );
            assert(fs::step_views(steps@) =~= head + write_blobs(dir@, now));
            let ghost seen = digest_lines.deep_view();
            match &layer.digest {
                Some(d) => {
                    digest_lines.push(d.clone());
                    assert(digest_lines.deep_view() =~= seen.push(d@));
                },
                None => {
                    every = false;
                },
            }
        }
        assert(all.take(all.len() as int) =~= all);
        if every && digest_lines.len() > 0 {
            push_must(
                &mut steps,
                FsOp::Write(
                    layers_dir.join("digests"),
                    bytes_of(join(&digest_lines, "\n").concat("\n").as_str()),
                ),
            );
        }
        push_must(&mut steps, FsOp::Write(dir.join("config.json"), bytes_of(image.config.as_str())));
        push_must(
            &mut steps,
            FsOp::Write(dir.join("platform"), bytes_of(platform_name(platform).as_str())),
        );
        if let Some(d) = &image.digest {
            if !d.as_str().is_empty() {
                push_must(&mut steps, FsOp::Write(dir.join("digest"), bytes_of(d.as_str())));
            }
        }
        assert(fs::step_views(steps@) =~= put_steps(dir@, platform@, exists_already, image@));
        steps
    }

    /// Plan how an image with a single layer is persisted by copying the layer's
    /// file, in place of any previous copy.
    pub fn put_image_layer_file(
        &self,
        reference: &Reference,
        platform: &Platform,
        exists_already: bool,
        digest: &str,
        config: &str,
        layer_path: &HostPath,
    ) -> (r: Vec<Step>)
        ensures
            fs::step_views(r@) == put_file_steps(
                image_at(self.at(), reference@, platform@),
                platform@,
                exists_already,
                digest@,
                config@,
                layer_path@,
            ),
    {
        let dir = self.image_dir(reference, platform);
        let layers_dir = dir.join("layers");
        let mut steps = no_steps();
        if exists_already {
            push_must(&mut steps, FsOp::RemoveDirAll(dir.copy()));
        }
        push_must(&mut steps, FsOp::CreateDirAll(layers_dir.copy()));
        push_must(&mut steps, FsOp::Copy(layer_path.copy(), self.layer_path(reference, platform, 0)));
        push_must(
            &mut steps,
            FsOp::Write(
                layers_dir.join("digests"),
                bytes_of(digest.to_owned().concat("\n").as_str()),
            ),
        );
        push_must(&mut steps, FsOp::Write(dir.join("config.json"), bytes_of(config)));
        push_must(
            &mut steps,
            FsOp::Write(dir.join("platform"), bytes_of(platform_name(platform).as_str())),
        );
        push_must(&mut steps, FsOp::Write(dir.join("digest"), bytes_of(digest)));
        assert(fs::step_views(steps@) =~= put_file_steps(
            dir@,
            platform@,
            exists_already,
            digest@,
            config@,
            layer_path@,
        ));
        steps
    }
}

/// The platform as its file names it.
fn platform_name(platform: &Platform) -> (r: String)
    ensures
        r@ == platform_text(platform@),
{
    platform.os.clone().concat("/").concat(platform.architecture.as_str())
}

/// Manifest digest (pull) or layer digest (export), if stored; `file` is what reading
/// the digest file gave.
pub fn image_digest(file: &Result<String, Error>) -> (r: Option<String>)
    ensures
        r.deep_view() == digest_in(file_text(*file)),
{
    match file {
        Ok(s) => {
            let t = trim(s.as_str());
            if t.as_str().is_empty() {
                None
            } else {
                Some(t)
            }
        },
        Err(_) => None,
    }
}

/// Image config; `file` is what reading the config file gave.
pub fn image_config(file: Result<String, Error>) -> (r: Result<ImageConfig, Error>)
    ensures
        match file {
            Err(e) => r == Err::<ImageConfig, Error>(e),
            Ok(s) => match r {
                Ok(c) => config::oci_config(s@) == Ok::<ConfigView, Seq<char>>(c@),
                Err(e) => config::oci_config(s@) matches Err(m) && e@ == config::config_error(
                    "cached image config"@,
                    m,
                ),
            },
        },
{
    match file {
        Ok(s) => parse_config("cached image config", s.as_str()),
        Err(e) => Err(e),
    }
}

/// Layer digests in manifest order, when the store recorded them; `file` is what
/// reading their file gave.
pub fn layer_digests(file: &Result<String, Error>) -> (r: Vec<String>)
    ensures
        r.deep_view() == digests_in(file_text(*file)),
{
    match file {
        Ok(s) => keep_nonblank(lines(s.as_str())),
        Err(_) => {
            let none: Vec<String> = Vec::new();
            assert(none.deep_view() =~= Seq::<Seq<char>>::empty());
            none
        },
    }
}

/// Number of stored layer blobs; `names` is what listing their directory gave.
pub fn layer_count(names: &Result<Vec<String>, Error>) -> (r: usize)
    ensures
        r == (match names {
            Ok(n) => blobs_among(n.deep_view()),
            Err(_) => 0,
        }),
{
    match names {
        Ok(names) => {
            let mut count: usize = 0;
            let ghost all = names.deep_view();
            for i in 0..names.len()
                invariant
                    all == names.deep_view(),
                    count <= i,
                    count == blobs_among(all.take(i as int)),
            {
                assert(all.take(i + 1).drop_last() =~= all.take(i as int));
                if ends_with(names[i].as_str(), ".tar.gz") {
                    count += 1;
                }
            }
            assert(all.take(all.len() as int) =~= all);
            count
        },
        Err(_) => 0,
    }
}

/// Whether the stored digest and layer blobs match `digest` and `layer_digests`.
pub fn layers_match(facts: &StoreFacts, digest: &str, layer_digests: &Vec<String>) -> (r: bool)
    ensures
        r == is_stored(*facts, digest@, layer_digests.deep_view()),
{
    if digest.is_empty() {
        return false;
    }
    match &facts.digest {
        None => {
            return false;
        },
        Some(local) => {
            if !same_text(trim(local.as_str()).as_str(), trim(digest).as_str()) || !facts.cached {
                return false;
            }
        },
    }
    let ghost a = facts.layer_digests.deep_view();
    let ghost b = layer_digests.deep_view();
    if facts.layer_digests.len() != layer_digests.len() {
        assert(a.len() != b.len());
        return false;
    }
    if facts.layers.len() < layer_digests.len() {
        return false;
    }
    for i in 0..layer_digests.len()
        invariant
            a == facts.layer_digests.deep_view(),
            b == layer_digests.deep_view(),
            a.len() == b.len(),
            facts.layers@.len() >= b.len(),
            forall|k: int| 0 <= k < i ==> #[trigger] a[k] == b[k],
            forall|k: int| 0 <= k < i ==> #[trigger] facts.layers@[k],
    {
        if !same_text(facts.layer_digests[i].as_str(), layer_digests[i].as_str()) {
            assert(a[i as int] != b[i as int]);
            return false;
        }
        assert(a[i as int] == b[i as int]);
        if !facts.layers[i] {
            return false;
        }
    }
    assert(a =~= b);
    true
}

/// Whether config and layers of an image are present, by the metadata of its config
/// file and of the directory of its layers.
pub fn is_cached(config: &Result<FsMetadata, Error>, layers: &Result<FsMetadata, Error>) -> (r: bool)
    ensures
        r == ((config matches Ok(c) && c.file()) && (layers matches Ok(l) && l.dir())),
{
    is_file(config) && is_dir(layers)
}

/// Whether a stored digest is `digest`.
pub open spec fn same_digest(stored: Option<Seq<char>>, digest: Seq<char>) -> bool {
    stored matches Some(d) && text::trimmed(d) == text::trimmed(digest)
}

/// Whether a tagged image already stores `digest` and at least one layer.
pub fn has_digest(stored: &Option<String>, first_layer: bool, digest: &str) -> (r: bool)
    ensures
        r == (same_digest(stored.deep_view(), digest@) && first_layer),
{
    match stored {
        Some(d) => same_text(trim(d.as_str()).as_str(), trim(digest).as_str()) && first_layer,
        None => false,
    }
}

/// The hash that stands for a config and the sizes of the layers.
pub fn content_hash(config: &str, sizes: &Vec<u64>) -> (r: u64)
    ensures
        r == DefaultHasher::spec_finish(hashed(config@, sizes@)),
{
    let mut hasher = DefaultHasher::new();
    let text = bytes_of(config);
    hasher.write(text.as_slice());
    let end: Vec<u8> = vec![0xff];
    hasher.write(end.as_slice());
    assert(end@ =~= seq![0xffu8]);
    assert(sizes@.take(0) =~= Seq::empty());
    assert(hasher@ =~= hashed(config@, sizes@.take(0)));
    for i in 0..sizes.len()
        invariant
            hasher@ == hashed(config@, sizes@.take(i as int)),
    {
        let number = u64_to_le_bytes(i as u64);
        hasher.write(number.as_slice());
        let size = u64_to_le_bytes(sizes[i]);
        hasher.write(size.as_slice());
        assert(sizes@.take(i + 1).drop_last() =~= sizes@.take(i as int));
    }
    assert(sizes@.take(sizes@.len() as int) =~= sizes@);
    hasher.finish()
}

/// Fingerprint of stored content, used to reuse a materialized rootfs. Without a
/// digest it is a hash of the config, which is what reading the config file gave, and
/// of the sizes of the layers. Which of the texts for one config is hashed is left
/// open: the order of the sets and maps in it is arbitrary.
pub fn content_stamp(
    stored: &Option<String>,
    layers: &Vec<String>,
    config: Result<String, Error>,
    sizes: &Vec<u64>,
) -> (r: Result<String, Error>)
    ensures
        match (stored.deep_view(), config) {
            (Some(d), _) => r matches Ok(s) && s@ == stamp(d, layers.deep_view()),
            (None, Err(e)) => r == Err::<String, Error>(e),
            (None, Ok(file)) => match config::config_file(file@) {
                Err(m) => r matches Err(e) && e@ == config::config_error(
                    "cached image config"@,
                    m,
                ),
                Ok(c) => r matches Ok(s) && exists|json: Seq<char>|
                    #![trigger config::config_file(json)]
                    config::config_file(json) == Ok::<FileView, Seq<char>>(
                        config::compact_file(c),
                    ) && s@ == hash_stamp(json, sizes@),
            },
        },
{
    match stored {
        Some(d) => {
            if layers.len() > 0 {
                Ok(d.clone().concat("\n").concat(join(layers, "\n").as_str()).concat("\n"))
            } else {
                Ok(d.clone().concat("\n"))
            }
        },
        None => match config {
            Ok(file) => match compact_config("cached image config", file.as_str()) {
                Ok(json) => {
                    let r = digest::hex_number(content_hash(json.as_str(), sizes));
                    assert(config::config_file(json@) is Ok);
                    Ok(r)
                },
                Err(e) => Err(e),
            },
            Err(e) => Err(e),
        },
    }
}

// ---------------------------------------------------------------------------
// Laws
// ---------------------------------------------------------------------------

/// A digest that stands on a line of its own.
pub open spec fn on_a_line(d: Seq<char>) -> bool {
    d.len() > 0 && text::trimmed(d) == d && !d.contains('\n')
}

/// Lines that each hold a digest are read as those digests.
proof fn lemma_nonblank(list: Seq<Seq<char>>)
    requires
        forall|i: int| 0 <= i < list.len() ==> on_a_line(#[trigger] list[i]),
    ensures
        nonblank(list) == list,
    decreases list.len(),
{
    if list.len() > 0 {
        let rest = list.drop_last();
        assert forall|i: int| 0 <= i < rest.len() implies on_a_line(#[trigger] rest[i]) by {
            assert(rest[i] == list[i]);
        }
        lemma_nonblank(rest);
        assert(on_a_line(list[list.len() - 1]));
        assert(rest.push(list.last()) =~= list);
    } else {
        assert(nonblank(list) =~= list);
    }
}

/// The lines of a list of digests are the digests.
pub proof fn lemma_digest_lines(digests: Seq<Seq<char>>)
    requires
        digests.len() > 0,
        forall|i: int| 0 <= i < digests.len() ==> on_a_line(#[trigger] digests[i]),
    ensures
        text::lines_of(digest_lines(digests)) == digests,
{
    reveal_strlit("\n");
    assert("\n"@ =~= seq!['\n']);
    let body = text::joined(digests, "\n"@);
    let file = digest_lines(digests);
    text::lemma_split_joined(digests, '\n');
    assert(file.drop_last() =~= body);
    assert(file.last() == '\n');
    let none = Seq::<char>::empty();
    let all = text::split_at_char(file, '\n');
    assert(all =~= digests.push(none));
    assert(all.drop_last() =~= digests);
    assert forall|i: int| 0 <= i < digests.len() implies text::line_body(#[trigger] digests[i])
        == digests[i] by {
        let d = digests[i];
        assert(on_a_line(d));
        text::lemma_trimmed_ends(d);
    }
    assert(digests.map_values(|l: Seq<char>| text::line_body(l)) =~= digests);
    assert(text::lines_of(file) =~= digests);
}

/// The layer digests that are stored are the ones that are read.
pub proof fn layer_digests_come_back(digests: Seq<Seq<char>>)
    requires
        digests.len() > 0,
        forall|i: int| 0 <= i < digests.len() ==> on_a_line(#[trigger] digests[i]),
    ensures
        digests_in(Some(digest_lines(digests))) == digests,
{
    lemma_digest_lines(digests);
    lemma_nonblank(digests);
}

/// An image that was stored with its digest and its layers is found to be stored.
pub proof fn stored_image_is_found(
    facts: StoreFacts,
    digest: Seq<char>,
    digests: Seq<Seq<char>>,
)
    requires
        digest.len() > 0,
        text::trimmed(digest).len() > 0,
        digests.len() > 0,
        forall|i: int| 0 <= i < digests.len() ==> on_a_line(#[trigger] digests[i]),
        facts.digest.deep_view() == digest_in(Some(digest)),
        facts.cached,
        facts.layer_digests.deep_view() == digests_in(Some(digest_lines(digests))),
        facts.layers@.len() == digests.len(),
        forall|i: int| 0 <= i < digests.len() ==> #[trigger] facts.layers@[i],
    ensures
        is_stored(facts, digest, digests),
        same_digest(facts.digest.deep_view(), digest),
{
    layer_digests_come_back(digests);
    let once = text::trimmed(digest);
    assert(text::trimmed(once) == once) by {
        text::lemma_trimmed_ends(digest);
        text::lemma_trimmed_kept(once);
    }
}

/// The files of a machine after one step.
pub open spec fn files_after_one(files: Map<PathView, Seq<u8>>, op: FsOpView) -> Map<
    PathView,
    Seq<u8>,
> {
    match op {
        FsOpView::Write(p, data) => files.insert(p, data),
        FsOpView::Copy(from, to) => files.insert(to, files[from]),
        FsOpView::RemoveDirAll(dir) => files.restrict(
            Set::new(|p: PathView| !p.within(dir)),
        ),
        _ => files,
    }
}

/// The files of a machine after several steps in a row.
pub open spec fn files_after(files: Map<PathView, Seq<u8>>, steps: Seq<StepView>) -> Map<
    PathView,
    Seq<u8>,
>
    decreases steps.len(),
{
    if steps.len() == 0 {
        files
    } else {
        files_after_one(files_after(files, steps.drop_last()), steps.last().op)
    }
}

/// Steps in two lists in a row.
pub proof fn lemma_files_add(files: Map<PathView, Seq<u8>>, a: Seq<StepView>, b: Seq<StepView>)
    ensures
        files_after(files, a + b) == files_after(files_after(files, a), b),
    decreases b.len(),
{
    if b.len() == 0 {
        assert(a + b =~= a);
    } else {
        assert((a + b).drop_last() =~= a + b.drop_last());
        lemma_files_add(files, a, b.drop_last());
    }
}

/// A write puts its data to its path and leaves every other file alone.
proof fn lemma_files_write(files: Map<PathView, Seq<u8>>, path: PathView, content: Seq<char>)
    ensures
        files_after(files, seq![write_text(path, content)]) == files.insert(
            path,
            encode_utf8(content),
        ),
{
    assert(seq![write_text(path, content)].drop_last() =~= Seq::<StepView>::empty());
    assert(files_after(files, Seq::<StepView>::empty()) == files);
}

/// The blobs stand where they were written, and nothing else changed.
proof fn lemma_blobs_written(files: Map<PathView, Seq<u8>>, image: PathView, layers: Seq<LayerView>)
    ensures
        ({
            let after = files_after(files, write_blobs(image, layers));
            &&& forall|i: int|
                0 <= i < layers.len() ==> after.contains_key(blob_at(image, i as nat))
                    && after[#[trigger] blob_at(image, i as nat)] == layers[i].data
            &&& forall|p: PathView|
                #![trigger after.contains_key(p)]
                (forall|i: int| 0 <= i < layers.len() ==> p != #[trigger] blob_at(image, i as nat))
                    ==> after.contains_key(p) == files.contains_key(p)
            &&& forall|p: PathView|
                #![trigger after[p]]
                (forall|i: int| 0 <= i < layers.len() ==> p != #[trigger] blob_at(image, i as nat))
                    ==> after[p] == files[p]
        }),
    decreases layers.len(),
{
    if layers.len() > 0 {
        let rest = layers.drop_last();
        lemma_blobs_written(files, image, rest);
        let before = files_after(files, write_blobs(image, rest));
        let n = (layers.len() - 1) as nat;
        let path = blob_at(image, n);
        let steps = write_blobs(image, layers);
        assert(steps.drop_last() =~= write_blobs(image, rest));
        let after = files_after(files, steps);
        assert(after == before.insert(path, layers.last().data));
        assert forall|i: int| 0 <= i < layers.len() implies after.contains_key(
            blob_at(image, i as nat),
        ) && after[#[trigger] blob_at(image, i as nat)] == layers[i].data by {
            if i < n {
                lemma_blob_names(image, i as nat, n);
                assert(rest[i] == layers[i]);
            }
        }
        assert forall|p: PathView|
            (forall|i: int| 0 <= i < layers.len() ==> p != #[trigger] blob_at(
                image,
                i as nat,
            )) implies after.contains_key(p) == files.contains_key(p) && after[p] == files[p] by {
            assert(p != path);
            assert(after.contains_key(p) == before.contains_key(p));
            assert(after[p] == before[p]);
        }
    }
}

/// A number is written in one way only.
proof fn lemma_decimal_injective(a: nat, b: nat)
    requires
        text::decimal(a) == text::decimal(b),
    ensures
        a == b,
    decreases a,
{
    let s = text::decimal(a);
    let t = text::decimal(b);
    assert(s.len() > 0 && s.last() == text::digit((a % 10) as int)) by {
        if a < 10 {
            assert(a % 10 == a);
        }
    }
    assert(t.len() > 0 && t.last() == text::digit((b % 10) as int)) by {
        if b < 10 {
            assert(b % 10 == b);
        }
    }
    let x = (a % 10) as int;
    let y = (b % 10) as int;
    assert(0 <= x < 10 && 0 <= y < 10);
    assert(text::digit(x) == text::digit(y));
    assert(x == y);
    if a >= 10 && b >= 10 {
        assert(s.drop_last() =~= text::decimal(a / 10));
        assert(t.drop_last() =~= text::decimal(b / 10));
        lemma_decimal_injective(a / 10, b / 10);
    } else if a >= 10 {
        lemma_decimal_nonempty(a / 10);
        assert(s.len() > 1);
        assert(t.len() == 1);
    } else if b >= 10 {
        lemma_decimal_nonempty(b / 10);
        assert(t.len() > 1);
        assert(s.len() == 1);
    }
}

/// A number has at least one digit.
proof fn lemma_decimal_nonempty(n: nat)
    ensures
        text::decimal(n).len() > 0,
{
}

/// Different layers have different files.
proof fn lemma_blob_names(image: PathView, i: nat, j: nat)
    requires
        i != j,
    ensures
        blob_at(image, i) != blob_at(image, j),
{
    let a = text::decimal(i) + ".tar.gz"@;
    let b = text::decimal(j) + ".tar.gz"@;
    if blob_at(image, i) == blob_at(image, j) {
        assert(blob_at(image, i).parts.last() == a);
        assert(blob_at(image, j).parts.last() == b);
        assert(text::decimal(i).len() == text::decimal(j).len());
        assert(text::decimal(i) =~= a.take(text::decimal(i).len() as int));
        assert(text::decimal(j) =~= b.take(text::decimal(j).len() as int));
        lemma_decimal_injective(i, j);
    }
}

/// No layer has the file of the layer digests.
proof fn lemma_blob_is_no_list(image: PathView, i: nat)
    ensures
        blob_at(image, i) != image.child("layers"@).child("digests"@),
{
    reveal_strlit(".tar.gz");
    reveal_strlit("digests");
    let a = text::decimal(i) + ".tar.gz"@;
    if blob_at(image, i) == image.child("layers"@).child("digests"@) {
        assert(blob_at(image, i).parts.last() == a);
        assert(image.child("layers"@).child("digests"@).parts.last() == "digests"@);
        assert(a.last() == 'z');
        assert("digests"@.last() == 's');
    }
}

/// A file in the directory of an image is none in the directory of its layers.
proof fn lemma_depth(image: PathView, name: Seq<char>, other: Seq<char>)
    ensures
        image.child(name) != image.child("layers"@).child(other),
{
    assert(image.child(name).parts.len() == image.parts.len() + 1);
    assert(image.child("layers"@).child(other).parts.len() == image.parts.len() + 2);
}

/// Two files of one directory differ by their names.
proof fn lemma_names_differ(dir: PathView, a: Seq<char>, b: Seq<char>)
    requires
        a != b,
    ensures
        dir.child(a) != dir.child(b),
{
    assert(dir.child(a).parts.last() == a);
    assert(dir.child(b).parts.last() == b);
}

/// What is stored is what is read: after an image was put, the file of each layer
/// holds the data of that layer, and the config and the digest stand in their files.
pub proof fn put_image_is_read_back(
    files: Map<PathView, Seq<u8>>,
    image: PathView,
    p: PlatformView,
    exists_already: bool,
    x: StoredView,
)
    ensures
        ({
            let after = files_after(files, put_steps(image, p, exists_already, x));
            &&& forall|i: int|
                0 <= i < x.layers.len() ==> after.contains_key(blob_at(image, i as nat))
                    && after[#[trigger] blob_at(image, i as nat)] == x.layers[i].data
            &&& after.contains_key(image.child("config.json"@))
            &&& after[image.child("config.json"@)] == encode_utf8(x.config)
            &&& x.digest matches Some(d) ==> d.len() > 0 ==> {
                &&& after.contains_key(image.child("digest"@))
                &&& after[image.child("digest"@)] == encode_utf8(d)
            }
            &&& all_digests(x.layers) matches Some(d) ==> d.len() > 0 ==> {
                let list = image.child("layers"@).child("digests"@);
                &&& after.contains_key(list)
                &&& after[list] == encode_utf8(digest_lines(d))
            }
        }),
{
    let head = fresh_dir(image, exists_already);
    let blobs = write_blobs(image, x.layers);
    let list = image.child("layers"@).child("digests"@);
    let config = image.child("config.json"@);
    let platform = image.child("platform"@);
    let digest = image.child("digest"@);
    let lists = write_digests(image, x.layers);
    let middle = seq![
        write_text(config, x.config),
        write_text(platform, platform_text(p)),
    ];
    let last = write_digest(image, x.digest);
    let f0 = files_after(files, head);
    lemma_files_add(files, head, blobs);
    let f1 = files_after(f0, blobs);
    lemma_blobs_written(f0, image, x.layers);
    lemma_files_add(files, head + blobs, lists);
    let f2 = files_after(f1, lists);
    match all_digests(x.layers) {
        Some(d) if d.len() > 0 => {
            lemma_files_write(f1, list, digest_lines(d));
        },
        _ => {},
    }
    lemma_files_add(files, head + blobs + lists, middle);
    let f3 = files_after(f2, middle);
    assert(f3 == f2.insert(config, encode_utf8(x.config)).insert(
        platform,
        encode_utf8(platform_text(p)),
    )) by {
        let a = seq![write_text(config, x.config)];
        let b = seq![write_text(platform, platform_text(p))];
        assert(middle =~= a + b);
        lemma_files_add(f2, a, b);
        lemma_files_write(f2, config, x.config);
        lemma_files_write(files_after(f2, a), platform, platform_text(p));
    }
    lemma_files_add(files, head + blobs + lists + middle, last);
    match x.digest {
        Some(d) if d.len() > 0 => {
            lemma_files_write(f3, digest, d);
        },
        _ => {},
    }
    lemma_file_names(image);
    let after = files_after(files, put_steps(image, p, exists_already, x));
    assert forall|i: int| 0 <= i < x.layers.len() implies after.contains_key(
        blob_at(image, i as nat),
    ) && after[#[trigger] blob_at(image, i as nat)] == x.layers[i].data by {
        let name = text::decimal(i as nat) + ".tar.gz"@;
        lemma_blob_is_no_list(image, i as nat);
        lemma_depth(image, "config.json"@, name);
        lemma_depth(image, "platform"@, name);
        lemma_depth(image, "digest"@, name);
    }
}

/// What is stored from a file is what is read: the file of the only layer holds what
/// the packed file held, and the config, the digest and the list of layer digests
/// stand in their files. A packed file inside the directory of the image would be
/// removed before it is copied.
pub proof fn put_layer_file_is_read_back(
    files: Map<PathView, Seq<u8>>,
    image: PathView,
    p: PlatformView,
    exists_already: bool,
    digest: Seq<char>,
    config: Seq<char>,
    layer: PathView,
)
    requires
        files.contains_key(layer),
        !layer.within(image),
    ensures
        ({
            let after = files_after(
                files,
                put_file_steps(image, p, exists_already, digest, config, layer),
            );
            let list = image.child("layers"@).child("digests"@);
            &&& after.contains_key(blob_at(image, 0))
            &&& after[blob_at(image, 0)] == files[layer]
            &&& after.contains_key(image.child("config.json"@))
            &&& after[image.child("config.json"@)] == encode_utf8(config)
            &&& after.contains_key(image.child("digest"@))
            &&& after[image.child("digest"@)] == encode_utf8(digest)
            &&& after.contains_key(list)
            &&& after[list] == encode_utf8(digest_lines(seq![digest]))
        }),
{
    let data = files[layer];
    let x = StoredView {
        digest: Some(digest),
        config,
        layers: seq![LayerView { digest: Some(digest), data }],
    };
    let list = image.child("layers"@).child("digests"@);
    let head = fresh_dir(image, exists_already);
    let f0 = files_after(files, head);
    assert(f0.contains_key(layer) && f0[layer] == data) by {
        lemma_fresh_dir_keeps(files, image, exists_already, layer);
    }
    let copy = seq![fs::must(FsOpView::Copy(layer, blob_at(image, 0)))];
    let blobs = write_blobs(image, x.layers);
    assert(files_after(f0, copy) == files_after(f0, blobs)) by {
        assert(copy.drop_last() =~= Seq::<StepView>::empty());
        assert(x.layers.drop_last() =~= Seq::<LayerView>::empty());
        assert(write_blobs(image, Seq::<LayerView>::empty()) =~= Seq::<StepView>::empty());
        assert(x.layers.last().data == data);
        assert(blobs =~= seq![fs::must(FsOpView::Write(blob_at(image, 0), data))]);
        assert(blobs.drop_last() =~= Seq::<StepView>::empty());
        assert(files_after(f0, Seq::<StepView>::empty()) == f0);
        assert(files_after(f0, copy) == f0.insert(blob_at(image, 0), data));
        assert(files_after(f0, blobs) == f0.insert(blob_at(image, 0), data));
    }
    let f1 = files_after(f0, copy);
    lemma_blobs_written(f0, image, x.layers);
    let a = write_text(list, digest + "\n"@);
    let b = write_text(image.child("config.json"@), config);
    let c = write_text(image.child("platform"@), platform_text(p));
    let d = write_text(image.child("digest"@), digest);
    assert(put_file_steps(image, p, exists_already, digest, config, layer) =~= head + copy + seq![
        a,
    ] + seq![b] + seq![c] + seq![d]);
    lemma_files_add(files, head, copy);
    lemma_files_add(files, head + copy, seq![a]);
    lemma_files_add(files, head + copy + seq![a], seq![b]);
    lemma_files_add(files, head + copy + seq![a] + seq![b], seq![c]);
    lemma_files_add(files, head + copy + seq![a] + seq![b] + seq![c], seq![d]);
    lemma_files_write(f1, list, digest + "\n"@);
    let f2 = files_after(f1, seq![a]);
    lemma_files_write(f2, image.child("config.json"@), config);
    let f3 = files_after(f2, seq![b]);
    lemma_files_write(f3, image.child("platform"@), platform_text(p));
    let f4 = files_after(f3, seq![c]);
    lemma_files_write(f4, image.child("digest"@), digest);
    assert(digest_lines(seq![digest]) == digest + "\n"@) by {
        assert(text::joined(seq![digest], "\n"@) =~= digest);
    }
    assert(x.layers[0].data == data);
    assert(f1.contains_key(blob_at(image, 0)) && f1[blob_at(image, 0)] == data);
    lemma_file_names(image);
    lemma_blob_is_no_list(image, 0);
    let name = text::decimal(0) + ".tar.gz"@;
    lemma_depth(image, "config.json"@, name);
    lemma_depth(image, "platform"@, name);
    lemma_depth(image, "digest"@, name);
}

/// Making the directory of an image anew keeps the files outside it.
proof fn lemma_fresh_dir_keeps(
    files: Map<PathView, Seq<u8>>,
    image: PathView,
    exists_already: bool,
    path: PathView,
)
    requires
        files.contains_key(path),
        !path.within(image),
    ensures
        files_after(files, fresh_dir(image, exists_already)).contains_key(path),
        files_after(files, fresh_dir(image, exists_already))[path] == files[path],
{
    let head = fresh_dir(image, exists_already);
    let gone = fs::must(FsOpView::RemoveDirAll(image));
    let make = fs::must(FsOpView::CreateDirAll(image.child("layers"@)));
    assert(files_after(files, Seq::<StepView>::empty()) == files);
    if exists_already {
        assert(head =~= seq![gone, make]);
        assert(head.drop_last() =~= seq![gone]);
        assert(seq![gone].drop_last() =~= Seq::<StepView>::empty());
        assert(files_after(files, seq![gone]) == files_after_one(files, gone.op));
    } else {
        assert(head =~= seq![make]);
        assert(head.drop_last() =~= Seq::<StepView>::empty());
    }
}

/// The files of an image beside its layers are different files.
proof fn lemma_file_names(image: PathView)
    ensures
        image.child("config.json"@) != image.child("platform"@),
        image.child("config.json"@) != image.child("digest"@),
        image.child("platform"@) != image.child("digest"@),
        image.child("config.json"@) != image.child("layers"@).child("digests"@),
        image.child("platform"@) != image.child("layers"@).child("digests"@),
        image.child("digest"@) != image.child("layers"@).child("digests"@),
{
    reveal_strlit("config.json");
    reveal_strlit("platform");
    reveal_strlit("digest");
    assert("config.json"@.len() == 11);
    assert("platform"@.len() == 8);
    assert("digest"@.len() == 6);
    lemma_names_differ(image, "config.json"@, "platform"@);
    lemma_names_differ(image, "config.json"@, "digest"@);
    lemma_names_differ(image, "platform"@, "digest"@);
    lemma_depth(image, "config.json"@, "digests"@);
    lemma_depth(image, "platform"@, "digests"@);
    lemma_depth(image, "digest"@, "digests"@);
}

/// Nothing of a previous copy is left: a file in the directory of an image that was
/// put in place of another one is one that was written.
pub proof fn put_image_replaces(
    files: Map<PathView, Seq<u8>>,
    image: PathView,
    p: PlatformView,
    x: StoredView,
    path: PathView,
)
    requires
        files_after(files, put_steps(image, p, true, x)).contains_key(path),
        path.within(image),
    ensures
        path == image.child("config.json"@) || path == image.child("platform"@) || path
            == image.child("digest"@) || path == image.child("layers"@).child("digests"@) || exists|
            i: int,
        | 0 <= i < x.layers.len() && path == #[trigger] blob_at(image, i as nat),
{
    let head = fresh_dir(image, true);
    let blobs = write_blobs(image, x.layers);
    let tail = write_digests(image, x.layers) + seq![
        write_text(image.child("config.json"@), x.config),
        write_text(image.child("platform"@), platform_text(p)),
    ] + write_digest(image, x.digest);
    assert(put_steps(image, p, true, x) =~= head + blobs + tail);
    lemma_files_add(files, head, blobs);
    lemma_files_add(files, head + blobs, tail);
    let f0 = files_after(files, head);
    let f1 = files_after(f0, blobs);
    assert(!f0.contains_key(path)) by {
        let gone = fs::must(FsOpView::RemoveDirAll(image));
        let make = fs::must(FsOpView::CreateDirAll(image.child("layers"@)));
        assert(head =~= seq![gone, make]);
        assert(head.drop_last() =~= seq![gone]);
        assert(seq![gone].drop_last() =~= Seq::<StepView>::empty());
        assert(files_after(files, Seq::<StepView>::empty()) == files);
        assert(files_after(files, seq![gone]) == files_after_one(files, gone.op));
    }
    lemma_blobs_written(f0, image, x.layers);
    lemma_only_written(f1, tail, path);
    if !f1.contains_key(path) {
        let i = choose|i: int| 0 <= i < tail.len() && writes_to(#[trigger] tail[i], path);
        assert(tail[i].op is Write);
    }
}

/// Whether a step writes this file.
spec fn writes_to(s: StepView, path: PathView) -> bool {
    s.op matches FsOpView::Write(q, _) && q == path
}

/// A file that is there after some writes was there before or was written.
proof fn lemma_only_written(files: Map<PathView, Seq<u8>>, steps: Seq<StepView>, path: PathView)
    requires
        forall|i: int| 0 <= i < steps.len() ==> (#[trigger] steps[i]).op is Write,
        files_after(files, steps).contains_key(path),
    ensures
        files.contains_key(path) || exists|i: int|
            0 <= i < steps.len() && writes_to(#[trigger] steps[i], path),
    decreases steps.len(),
{
    if steps.len() > 0 {
        let rest = steps.drop_last();
        let n = steps.len() - 1;
        assert(steps[n].op is Write);
        assert forall|i: int| 0 <= i < rest.len() implies (#[trigger] rest[i]).op is Write by {
            assert(rest[i] == steps[i]);
        }
        if files_after(files, rest).contains_key(path) {
            lemma_only_written(files, rest, path);
            if !files.contains_key(path) {
                let i = choose|i: int| 0 <= i < rest.len() && writes_to(#[trigger] rest[i], path);
                assert(steps[i] == rest[i]);
            }
        }
    }
}

} // verus!
