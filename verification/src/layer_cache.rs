//! Docker overlay2 local layer cache.
//!
//! Layers live under `<data_root>/overlay2/<id>/`, with `diff/`, `lower`,
//! `link`, and `committed` as in Docker. A layer counts as present once its
//! `committed` marker is there, which is written last. Packed `layer.tar.gz`
//! blobs are stored after the first export so fully-cached rebuilds skip
//! retarring.

use vstd::prelude::*;
use vstd::utf8::*;

use crate::digest::{self, digest_label};
use crate::error::{Error, ErrorView};
use crate::fs::{
    self, is_dir, is_file, no_steps, push_must, push_try, FsMetadata, FsOp, FsOpView,
    Step, StepView,
};
use crate::meta::ImageMeta;
use crate::overlay2::{self, write_layer_diff};
use crate::path::{HostPath, PathView};
use crate::progress::{self, take_front};
use crate::text::{self, bytes_of, same_text, split, trim};
use crate::tree::Entry;
use crate::vars::Vars;
use crate::winpath::{self, Host};

verus! {

broadcast use vstd::seq_lib::group_seq_properties;

/// What the cache records about a layer besides its files.
#[derive(Debug)]
pub struct CacheEntry {
    /// Image config after the instruction.
    pub meta: ImageMeta,
    /// Build arguments after the instruction.
    pub args: Vars,
    /// Key of the instruction.
    pub instruction: String,
    /// Chain id of the layer below, empty for the first layer.
    pub parent: String,
}

/// Docker overlay2 instruction-layer cache.
///
/// Opened under `<data_root>/overlay2`.
#[derive(Debug, Clone)]
pub struct LayerCache {
    /// Directory that holds the layer directories.
    pub dir: HostPath,
}

/// How a parent is listed in the `lower` file of a layer on top of it.
pub open spec fn lower_of(short: Seq<char>, below: Seq<char>) -> Seq<char> {
    let rest = text::trimmed(below);
    if rest.len() == 0 {
        "l/"@ + short
    } else {
        "l/"@ + short + ":"@ + rest
    }
}

/// The texts that are not empty.
pub open spec fn nonempty(parts: Seq<Seq<char>>) -> Seq<Seq<char>>
    decreases parts.len(),
{
    if parts.len() == 0 {
        Seq::empty()
    } else if parts.last().len() == 0 {
        nonempty(parts.drop_last())
    } else {
        nonempty(parts.drop_last()).push(parts.last())
    }
}

/// The layers that a `lower` file lists, from the lowest to the highest.
pub open spec fn lower_chain(lower: Seq<char>) -> Seq<Seq<char>> {
    nonempty(text::split_at_char(text::trimmed(lower), ':')).reverse()
}

/// What stands at a link of the cache.
#[derive(Debug)]
pub enum LowerLink {
    /// A symbolic link with this target.
    Symlink(String),
    /// A file with this text.
    File(String),
    /// Neither.
    Missing,
}

/// A path without `.` and `..`, resolved by name alone.
pub open spec fn resolved(p: PathView) -> PathView {
    PathView { anchor: p.anchor, parts: winpath::reached(Host::Posix, Seq::empty(), p.parts) }
}

/// A path without `.` and `..`, resolved by name alone.
pub fn dunce_layer(path: &HostPath) -> (r: HostPath)
    ensures
        r@ == resolved(path@),
{
    let mut out = HostPath { anchor: path.anchor.clone(), parts: Vec::new() };
    let ghost all = path@.parts;
    assert(out@.parts =~= winpath::reached(Host::Posix, Seq::empty(), all.take(0)));
    for i in 0..path.parts.len()
        invariant
            all == path.parts.deep_view(),
            out@.anchor == path@.anchor,
            out@.parts == winpath::reached(Host::Posix, Seq::empty(), all.take(i as int)),
    {
        assert(all.take(i + 1).drop_last() =~= all.take(i as int));
        let part = path.parts[i].as_str();
        if part.is_empty() || same_text(part, ".") {
        } else if same_text(part, "..") {
            let _ = out.pop();
        } else {
            out.push(part);
        }
    }
    assert(all.take(all.len() as int) =~= all);
    out
}

/// The changeset directory that a link of the cache leads to.
pub open spec fn lower_diff_path(dir: PathView, link: LowerLink) -> Option<PathView> {
    let layer = match link {
        LowerLink::Symlink(target) => Some(dir.child("l"@).joined_with(target@)),
        LowerLink::File(id) => Some(dir.joined_with(text::trimmed(id@))),
        LowerLink::Missing => None,
    };
    match layer {
        None => None,
        Some(p) => Some(
            (if p.parts.len() > 0 && p.parts.last() == "diff"@ {
                p
            } else {
                resolved(p)
            }).child("diff"@),
        ),
    }
}

/// How the directory of a merged tree is emptied.
pub open spec fn emptied_merged(merged: PathView, exists_already: bool) -> Seq<StepView> {
    (if exists_already {
        seq![fs::must(FsOpView::RemoveDirAll(merged))]
    } else {
        Seq::empty()
    }) + seq![fs::must(FsOpView::CreateDirAll(merged))]
}

/// Chain ids by their first 12 characters.
pub open spec fn short(id: Seq<char>) -> Seq<char> {
    progress::front(id, 12)
}

/// A text, or another one where there is none.
pub open spec fn text_or(t: Option<Seq<char>>, other: Seq<char>) -> Seq<char> {
    match t {
        Some(s) => s,
        None => other,
    }
}

/// How the layer directory is prepared before its changeset is written.
pub open spec fn begin_steps(
    host: Host,
    dir: PathView,
    id: Seq<char>,
    lower: Seq<char>,
    dir_exists: bool,
    link_exists: bool,
) -> Seq<StepView> {
    let layer = dir.child(id);
    let link = dir.child("l"@).child(short(id));
    (if dir_exists {
        seq![fs::must(FsOpView::RemoveDirAll(layer))]
    } else {
        Seq::empty()
    }) + seq![fs::must(FsOpView::CreateDirAll(layer.child("diff"@)))] + (if lower.len() > 0 {
        seq![fs::must(FsOpView::Write(layer.child("lower"@), encode_utf8(lower)))]
    } else {
        Seq::empty()
    }) + (match host {
        Host::Posix => (if link_exists {
            seq![fs::try_to(FsOpView::RemoveFile(link))]
        } else {
            Seq::empty()
        }) + seq![fs::must(FsOpView::Symlink(encode_utf8("../"@ + id), link))],
        Host::Windows => seq![fs::must(FsOpView::Write(link, encode_utf8(id)))],
    }) + seq![fs::must(FsOpView::Write(layer.child("link"@), encode_utf8(short(id))))]
}

/// How the layer directory is finished once its changeset is written.
pub open spec fn end_steps(
    dir: PathView,
    id: Seq<char>,
    entry: Seq<char>,
) -> Seq<StepView> {
    let layer = dir.child(id);
    seq![
        fs::must(FsOpView::Write(layer.child("meta.json"@), encode_utf8(entry))),
        fs::must(FsOpView::Write(layer.child("committed"@), Seq::empty())),
    ]
}

impl LayerCache {
    /// The cache under `data_root`, and how its directory is created.
    pub fn open(data_root: &HostPath) -> (r: (Self, Vec<Step>))
        ensures
            r.0.dir@ == data_root@.child("overlay2"@),
            fs::step_views(r.1@) == seq![
                fs::must(FsOpView::CreateDirAll(data_root@.child("overlay2"@).child("l"@))),
            ],
    {
        let dir = data_root.join("overlay2");
        let mut steps = no_steps();
        push_must(&mut steps, FsOp::CreateDirAll(dir.join("l")));
        assert(fs::step_views(steps@) =~= seq![
            fs::must(FsOpView::CreateDirAll(data_root@.child("overlay2"@).child("l"@))),
        ]);
        (LayerCache { dir }, steps)
    }

    /// Directory that holds per-id snapshot folders.
    pub fn root(&self) -> (r: &HostPath)
        ensures
            r@ == self.dir@,
    {
        &self.dir
    }

    /// Directory of the layer `id`.
    pub fn layer_dir(&self, id: &str) -> (r: HostPath)
        ensures
            r@ == self.dir@.child(id@),
    {
        self.dir.join(id)
    }

    /// A file or directory of the layer `id`.
    pub fn layer_file(&self, id: &str, name: &str) -> (r: HostPath)
        ensures
            r@ == self.dir@.child(id@).child(name@),
    {
        self.dir.join(id).join(name)
    }

    /// Changeset directory of the layer `id`.
    pub fn diff_dir(&self, id: &str) -> (r: HostPath)
        ensures
            r@ == self.dir@.child(id@).child("diff"@),
    {
        self.layer_file(id, "diff")
    }

    /// Directory of the merged tree of the layer `id`.
    pub fn merged_dir(&self, id: &str) -> (r: HostPath)
        ensures
            r@ == self.dir@.child(id@).child("merged"@),
    {
        self.layer_file(id, "merged")
    }

    /// Path to a packed layer blob if stored as a file.
    pub fn layer_blob_path(&self, id: &str) -> (r: Option<HostPath>)
        ensures
            r matches Some(p) && p@ == self.dir@.child(id@).child("layer.tar.gz"@),
    {
        Some(self.layer_file(id, "layer.tar.gz"))
    }

    /// The first 12 characters of a chain id.
    pub fn short_id(id: &str) -> (r: String)
        ensures
            r@ == short(id@),
    {
        take_front(id, 12)
    }

    /// Whether a complete cache entry exists, by the metadata of its
    /// `committed` and `meta.json` files.
    pub fn has(committed: &Result<FsMetadata, Error>, meta: &Result<FsMetadata, Error>) -> (r: bool)
        ensures
            r == ((committed matches Ok(c) && c.file()) && (meta matches Ok(m) && m.file())),
    {
        is_file(committed) && is_file(meta)
    }

    /// Image config and build arguments of a cache entry.
    pub fn load_meta(entry: CacheEntry) -> (r: (ImageMeta, Vars))
        ensures
            r.0 == entry.meta,
            r.1 == entry.args,
    {
        (entry.meta, entry.args)
    }

    /// The failure to read a cache entry's `meta.json`.
    pub fn entry_unreadable(&self, id: &str, reason: &str) -> (r: Error)
        ensures
            r@ == ErrorView::Other(
                "build cache read '"@ + self.dir@.child(id@).child("meta.json"@).shown() + "': "@
                    + reason@,
            ),
    {
        Error::Other(
            "build cache read '".to_owned().concat(
                self.layer_file(id, "meta.json").to_text().as_str(),
            ).concat("': ").concat(reason),
        )
    }

    /// The failure to parse a cache entry's `meta.json`.
    pub fn entry_invalid(reason: &str) -> (r: Error)
        ensures
            r@ == ErrorView::Other("build cache meta: "@ + reason@),
    {
        Error::Other("build cache meta: ".to_owned().concat(reason))
    }

    /// The failure to read a packed blob.
    pub fn blob_unreadable(&self, id: &str, reason: &str) -> (r: Error)
        ensures
            r@ == ErrorView::Other(
                "build cache layer blob '"@ + self.dir@.child(id@).child("layer.tar.gz"@).shown()
                    + "': "@ + reason@,
            ),
    {
        Error::Other(
            "build cache layer blob '".to_owned().concat(
                self.layer_file(id, "layer.tar.gz").to_text().as_str(),
            ).concat("': ").concat(reason),
        )
    }

    /// The digest that a `layer.digest` file records, or the failure to read it.
    pub fn stored_digest(text: Result<String, String>) -> (r: Result<String, Error>)
        ensures
            match text {
                Ok(t) => r matches Ok(d) && d@ == text::trimmed(t@),
                Err(e) => r matches Err(x) && x@ == ErrorView::Other(
                    "build cache layer digest: "@ + e@,
                ),
            },
    {
        match text {
            Ok(t) => Ok(trim(t.as_str())),
            Err(e) => Err(
                Error::Other("build cache layer digest: ".to_owned().concat(e.as_str())),
            ),
        }
    }

    /// The digest of a packed blob that has none recorded yet, and the attempt to
    /// record it.
    pub fn layer_blob_digest(&self, id: &str, blob: &Vec<u8>) -> (r: (String, Vec<Step>))
        ensures
            r.0@ == digest::labelled_digest(blob@),
            fs::step_views(r.1@) == seq![
                fs::try_to(
                    FsOpView::Write(
                        self.dir@.child(id@).child("layer.digest"@),
                        encode_utf8(digest::labelled_digest(blob@)),
                    ),
                ),
            ],
    {
        let digest = digest_label(blob.as_slice());
        let mut steps = no_steps();
        push_try(
            &mut steps,
            FsOp::Write(self.layer_file(id, "layer.digest"), bytes_of(digest.as_str())),
        );
        assert(fs::step_views(steps@) =~= seq![
            fs::try_to(
                FsOpView::Write(
                    self.dir@.child(id@).child("layer.digest"@),
                    encode_utf8(digest::labelled_digest(blob@)),
                ),
            ),
        ]);
        (digest, steps)
    }

    /// How a packed export blob is stored for `id`, together with its digest.
    pub fn write_layer_blob(&self, id: &str, bytes: Vec<u8>) -> (r: Vec<Step>)
        ensures
            fs::step_views(r@) == seq![
                fs::must(FsOpView::CreateDirAll(self.dir@.child(id@))),
                fs::must(FsOpView::Write(self.dir@.child(id@).child("layer.tar.gz"@), bytes@)),
                fs::must(
                    FsOpView::Write(
                        self.dir@.child(id@).child("layer.digest"@),
                        encode_utf8(digest::labelled_digest(bytes@)),
                    ),
                ),
            ],
    {
        let digest = digest_label(bytes.as_slice());
        let ghost data = bytes@;
        let mut steps = no_steps();
        push_must(&mut steps, FsOp::CreateDirAll(self.layer_dir(id)));
        push_must(&mut steps, FsOp::Write(self.layer_file(id, "layer.tar.gz"), bytes));
        push_must(
            &mut steps,
            FsOp::Write(self.layer_file(id, "layer.digest"), bytes_of(digest.as_str())),
        );
        assert(fs::step_views(steps@) =~= seq![
            fs::must(FsOpView::CreateDirAll(self.dir@.child(id@))),
            fs::must(FsOpView::Write(self.dir@.child(id@).child("layer.tar.gz"@), data)),
            fs::must(
                FsOpView::Write(
                    self.dir@.child(id@).child("layer.digest"@),
                    encode_utf8(digest::labelled_digest(data)),
                ),
            ),
        ]);
        steps
    }

    /// The `lower` text of a layer on top of `parent`, given what the parent's
    /// `link` and `lower` files hold. The first layer has none.
    pub fn parent_lower(parent: &str, link: Option<String>, lower: Option<String>) -> (r: String)
        ensures
            r@ == (if parent@.len() == 0 {
                Seq::<char>::empty()
            } else {
                lower_of(
                    text_or(link.deep_view(), short(parent@)),
                    text_or(lower.deep_view(), Seq::empty()),
                )
            }),
    {
        if parent.is_empty() {
            let r = String::new();
            assert(r@ =~= Seq::<char>::empty());
            return r;
        }
        let parent_short = match link {
            Some(s) => s,
            None => LayerCache::short_id(parent),
        };
        let below = match lower {
            Some(s) => s,
            None => String::new(),
        };
        assert(below@ =~= text_or(lower.deep_view(), Seq::empty()));
        let rest = trim(below.as_str());
        let head = "l/".to_owned().concat(parent_short.as_str());
        if rest.as_str().is_empty() {
            head
        } else {
            head.concat(":").concat(rest.as_str())
        }
    }

    /// The layers that a `lower` text lists, from the lowest to the highest.
    pub fn lower_specs(lower: &str) -> (r: Vec<String>)
        ensures
            r.deep_view() == lower_chain(lower@),
    {
        let parts = split(trim(lower).as_str(), ':');
        let ghost all = parts.deep_view();
        let mut out: Vec<String> = Vec::new();
        let mut i: usize = parts.len();
        assert(all.skip(all.len() as int) =~= Seq::<Seq<char>>::empty());
        assert(out.deep_view() =~= nonempty(all.skip(all.len() as int)).reverse());
        while i > 0
            invariant
                i <= parts@.len(),
                all == parts.deep_view(),
                out.deep_view() == nonempty(all.skip(i as int)).reverse(),
            decreases i,
        {
            let ghost seen = out.deep_view();
            i -= 1;
            proof {
                assert(all.skip(i as int) =~= seq![all[i as int]] + all.skip(i + 1));
                lemma_nonempty_front(all[i as int], all.skip(i + 1));
            }
            if !parts[i].as_str().is_empty() {
                out.push(parts[i].clone());
                assert(out.deep_view() =~= seen.push(all[i as int]));
                assert(out.deep_view() =~= nonempty(all.skip(i as int)).reverse());
            }
        }
        assert(all.skip(0) =~= all);
        out
    }

    /// Where the link of a listed layer stands.
    pub fn lower_link(&self, spec: &str) -> (r: HostPath)
        ensures
            r@ == self.dir@.joined_with(spec@),
    {
        self.dir.join_text(spec)
    }

    /// The changeset directory of a listed layer, given what stands at its link.
    pub fn resolve_lower_diff(&self, spec: &str, link: &LowerLink) -> (r: Result<HostPath, Error>)
        ensures
            match r {
                Ok(p) => lower_diff_path(self.dir@, *link) == Some(p@),
                Err(e) => lower_diff_path(self.dir@, *link) is None && e@ == ErrorView::Other(
                    "build cache: missing overlay2 link '"@ + spec@ + "'"@,
                ),
            },
    {
        let layer = match link {
            LowerLink::Symlink(target) => self.dir.join("l").join_text(target.as_str()),
            LowerLink::File(id) => self.dir.join_text(trim(id.as_str()).as_str()),
            LowerLink::Missing => {
                return Err(
                    Error::Other(
                        "build cache: missing overlay2 link '".to_owned().concat(spec).concat("'"),
                    ),
                );
            },
        };
        let n: usize = layer.parts.len();
        if n > 0 && same_text(layer.parts[n - 1].as_str(), "diff") {
            Ok(layer.join("diff"))
        } else {
            Ok(dunce_layer(&layer).join("diff"))
        }
    }

    /// Whether the merged tree of a layer can be used as it stands, by the
    /// metadata of the tree and of the `committed` marker.
    pub fn merged_is_ready(
        merged: &Result<FsMetadata, Error>,
        committed: &Result<FsMetadata, Error>,
    ) -> (r: bool)
        ensures
            r == ((merged matches Ok(m) && m.dir()) && (committed matches Ok(c) && c.file())),
    {
        is_dir(merged) && is_file(committed)
    }

    /// How the directory of the merged tree is prepared; the changesets of the
    /// chain are applied to it afterwards.
    pub fn resolve_rootfs(&self, id: &str, merged_exists: bool) -> (r: Vec<Step>)
        ensures
            fs::step_views(r@) == emptied_merged(
                self.dir@.child(id@).child("merged"@),
                merged_exists,
            ),
    {
        let merged = self.merged_dir(id);
        let mut steps = no_steps();
        if merged_exists {
            push_must(&mut steps, FsOp::RemoveDirAll(merged.copy()));
        }
        push_must(&mut steps, FsOp::CreateDirAll(merged));
        assert(fs::step_views(steps@) =~= emptied_merged(
            self.dir@.child(id@).child("merged"@),
            merged_exists,
        ));
        steps
    }

    /// Whether a layer stores a changeset: an instruction that cannot change
    /// files reuses the layer below.
    pub fn stores_changeset(parent: &str, filesystem_changed: bool) -> (r: bool)
        ensures
            r == (filesystem_changed || parent@.len() == 0),
    {
        filesystem_changed || parent.is_empty()
    }

    /// How the directory of a layer is prepared for saving, with `lower` as its
    /// parent chain.
    pub fn save_begin(
        &self,
        host: Host,
        id: &str,
        lower: &str,
        dir_exists: bool,
        link_exists: bool,
    ) -> (r: Vec<Step>)
        ensures
            fs::step_views(r@) == begin_steps(
                host,
                self.dir@,
                id@,
                lower@,
                dir_exists,
                link_exists,
            ),
    {
        let short_id = LayerCache::short_id(id);
        let link = self.dir.join("l").join(short_id.as_str());
        let mut steps = no_steps();
        if dir_exists {
            push_must(&mut steps, FsOp::RemoveDirAll(self.layer_dir(id)));
        }
        push_must(&mut steps, FsOp::CreateDirAll(self.diff_dir(id)));
        if !lower.is_empty() {
            push_must(&mut steps, FsOp::Write(self.layer_file(id, "lower"), bytes_of(lower)));
        }
        match host {
            Host::Posix => {
                if link_exists {
                    push_try(&mut steps, FsOp::RemoveFile(link.copy()));
                }
                push_must(&mut steps, FsOp::Symlink(bytes_of("../".to_owned().concat(id).as_str()), link));
            },
            Host::Windows => {
                push_must(&mut steps, FsOp::Write(link, bytes_of(id)));
            },
        }
        push_must(
            &mut steps,
            FsOp::Write(self.layer_file(id, "link"), bytes_of(short_id.as_str())),
        );
        assert(fs::step_views(steps@) =~= begin_steps(
            host,
            self.dir@,
            id@,
            lower@,
            dir_exists,
            link_exists,
        ));
        steps
    }

    /// How the changeset of a layer is written: `rootfs` with the entries
    /// `current` against the parent's merged tree.
    pub fn save_diff(
        &self,
        id: &str,
        parent: Option<&Vec<Entry>>,
        current: &Vec<Entry>,
        rootfs: &HostPath,
    ) -> (r: Vec<Step>)
        ensures
            fs::step_views(r@) == fs::placed(
                overlay2::layer_ops(overlay2::entries_of(parent), current@),
                rootfs@,
                self.dir@.child(id@).child("diff"@),
            ),
    {
        write_layer_diff(parent, current, rootfs, &self.diff_dir(id))
    }

    /// How a saved layer is finished: its entry, and last the `committed` marker. A
    /// packed blob of an earlier save is not carried over: it holds the files of that
    /// one.
    pub fn save_end(&self, id: &str, entry: &str) -> (r: Vec<Step>)
        ensures
            fs::step_views(r@) == end_steps(self.dir@, id@, entry@),
    {
        let mut steps = no_steps();
        push_must(&mut steps, FsOp::Write(self.layer_file(id, "meta.json"), bytes_of(entry)));
        push_must(&mut steps, FsOp::Write(self.layer_file(id, "committed"), Vec::new()));
        assert(fs::step_views(steps@) =~= end_steps(self.dir@, id@, entry@));
        steps
    }

    /// How all cached layers are removed.
    pub fn clear(&self, root_exists: bool) -> (r: Vec<Step>)
        ensures
            fs::step_views(r@) == (if root_exists {
                seq![
                    fs::must(FsOpView::RemoveDirAll(self.dir@)),
                    fs::must(FsOpView::CreateDirAll(self.dir@.child("l"@))),
                ]
            } else {
                seq![fs::must(FsOpView::CreateDirAll(self.dir@.child("l"@)))]
            }),
    {
        let mut steps = no_steps();
        if root_exists {
            push_must(&mut steps, FsOp::RemoveDirAll(self.dir.copy()));
        }
        push_must(&mut steps, FsOp::CreateDirAll(self.dir.join("l")));
        assert(fs::step_views(steps@) =~= (if root_exists {
            seq![
                fs::must(FsOpView::RemoveDirAll(self.dir@)),
                fs::must(FsOpView::CreateDirAll(self.dir@.child("l"@))),
            ]
        } else {
            seq![fs::must(FsOpView::CreateDirAll(self.dir@.child("l"@)))]
        }));
        steps
    }
}

/// A text at the front comes first among those that are not empty.
proof fn lemma_nonempty_front(first: Seq<char>, rest: Seq<Seq<char>>)
    ensures
        nonempty(seq![first] + rest) == (if first.len() == 0 {
            nonempty(rest)
        } else {
            seq![first] + nonempty(rest)
        }),
    decreases rest.len(),
{
    let all = seq![first] + rest;
    if rest.len() == 0 {
        assert(all.drop_last() =~= Seq::<Seq<char>>::empty());
        assert(nonempty(Seq::<Seq<char>>::empty()) =~= Seq::<Seq<char>>::empty());
        assert(nonempty(all) =~= (if first.len() == 0 {
            nonempty(rest)
        } else {
            seq![first] + nonempty(rest)
        }));
    } else {
        assert(all.drop_last() =~= seq![first] + rest.drop_last());
        assert(all.last() == rest.last());
        lemma_nonempty_front(first, rest.drop_last());
        assert(nonempty(all) =~= (if first.len() == 0 {
            nonempty(rest)
        } else {
            seq![first] + nonempty(rest)
        }));
    }
}

/// The chain of a layer is that of its parent with the parent on top: what
/// `lower` records of a parent and the parent's own `lower` is read back in the
/// order in which the changesets apply.
pub proof fn lower_lists_the_chain(short: Seq<char>, below: Seq<char>)
    requires
        short.len() > 0,
        !short.contains(':'),
        !text::white(short.last()),
    ensures
        lower_chain(lower_of(short, below)) == lower_chain(below).push("l/"@ + short),
{
    reveal_strlit("l/");
    reveal_strlit(":");
    let empty = Seq::<char>::empty();
    let head = "l/"@ + short;
    let rest = text::trimmed(below);
    let lower = lower_of(short, below);
    assert(!head.contains(':')) by {
        if head.contains(':') {
            let k = choose|k: int| 0 <= k < head.len() && head[k] == ':';
            if k >= 2 {
                assert(short[k - 2] == ':');
            }
        }
    }
    assert(head[0] == 'l' && head.last() == short.last());
    assert(text::split_at_char(empty, ':') =~= seq![empty]);
    let none = Seq::<Seq<char>>::empty();
    assert(nonempty(none) =~= none);
    if rest.len() == 0 {
        text::lemma_trimmed_kept(head);
        text::lemma_pieces_extend(empty, head, ':');
        assert(empty + head =~= head);
        assert(text::split_at_char(head, ':') =~= seq![head]);
        assert(rest =~= empty);
        assert(seq![head].drop_last() =~= none);
        assert(seq![empty].drop_last() =~= none);
        assert(nonempty(seq![head]) =~= seq![head]);
        assert(nonempty(seq![empty]) =~= none);
        assert(lower_chain(lower) =~= lower_chain(below).push(head));
    } else {
        text::lemma_trimmed_ends(below);
        assert(lower =~= head + seq![':'] + rest);
        assert(lower[0] == 'l');
        assert(lower.last() == rest.last());
        text::lemma_trimmed_kept(lower);
        text::lemma_split_at_first(head, ':', rest);
        lemma_nonempty_front(head, text::split_at_char(rest, ':'));
        assert(lower_chain(lower) =~= lower_chain(below).push(head));
    }
}

/// Operations placed below a directory change nothing outside it.
pub proof fn placed_stays_below(ops: Seq<fs::RelOp>, src: PathView, dest: PathView)
    ensures
        forall|i: int|
            0 <= i < fs::placed(ops, src, dest).len() ==> fs::target_of(
                (#[trigger] fs::placed(ops, src, dest)[i]).op,
            ).within(dest),
    decreases ops.len(),
{
    if ops.len() > 0 {
        placed_stays_below(ops.drop_last(), src, dest);
        let before = fs::placed(ops.drop_last(), src, dest);
        let one = fs::placed_one(ops.last(), src, dest);
        let all = fs::placed(ops, src, dest);
        assert forall|i: int| 0 <= i < all.len() implies fs::target_of((#[trigger] all[i]).op).within(
            dest,
        ) by {
            if i < before.len() {
                assert(all[i] == before[i]);
            } else {
                let rel = match ops.last() {
                    fs::RelOp::MakeDir(rel) => rel,
                    fs::RelOp::CopyFile(rel) => rel,
                    fs::RelOp::MakeLink(rel, _) => rel,
                    fs::RelOp::Mark(rel, _) => rel,
                    fs::RelOp::Remove(rel) => rel,
                    fs::RelOp::MakeWay(rel) => rel,
                    fs::RelOp::Clear(rel) => rel,
                };
                let p = fs::below(dest, rel);
                let n = dest.parts.len() as int;
                assert(p.parts.take(n) =~= dest.parts);
                assert(forall|name: Seq<char>|
                    #![trigger p.child(name)]
                    p.child(name).parts.take(n) =~= dest.parts);
                assert(all[i] == one[i - before.len()]);
            }
        }
    }
}

/// A layer becomes present only with the last step of saving it: no step before
/// that writes its `committed` marker, and where an older layer with the same id
/// exists, the first step removes it together with its marker and its packed blob. No
/// step writes a packed blob: a saved layer has none until it is exported.
pub proof fn committed_comes_last(
    host: Host,
    dir: PathView,
    id: Seq<char>,
    lower: Seq<char>,
    dir_exists: bool,
    link_exists: bool,
    ops: Seq<fs::RelOp>,
    rootfs: PathView,
    entry: Seq<char>,
)
    requires
        id != "l"@,
    ensures
        ({
            let marker = dir.child(id).child("committed"@);
            let blob = dir.child(id).child("layer.tar.gz"@);
            let plan = begin_steps(host, dir, id, lower, dir_exists, link_exists) + fs::placed(
                ops,
                rootfs,
                dir.child(id).child("diff"@),
            ) + end_steps(dir, id, entry);
            &&& plan.last() == fs::must(FsOpView::Write(marker, Seq::empty()))
            &&& forall|i: int|
                0 <= i < plan.len() - 1 ==> fs::target_of((#[trigger] plan[i]).op) != marker
            &&& forall|i: int|
                0 <= i < plan.len() ==> fs::target_of((#[trigger] plan[i]).op) != blob
            &&& dir_exists ==> plan[0] == fs::must(FsOpView::RemoveDirAll(dir.child(id)))
        }),
{
    let layer = dir.child(id);
    let marker = layer.child("committed"@);
    let diff = layer.child("diff"@);
    let n = dir.parts.len() as int;
    let begin = begin_steps(host, dir, id, lower, dir_exists, link_exists);
    let body = fs::placed(ops, rootfs, diff);
    let end = end_steps(dir, id, entry);
    let blob = layer.child("layer.tar.gz"@);
    let plan = begin + body + end;
    reveal_strlit("committed");
    reveal_strlit("diff");
    reveal_strlit("lower");
    reveal_strlit("link");
    reveal_strlit("meta.json");
    reveal_strlit("layer.tar.gz");
    placed_stays_below(ops, rootfs, diff);
    assert(marker.parts[n] == id && marker.parts[n + 1] == "committed"@ && marker.parts.len() == n
        + 2);
    assert("committed"@.len() != "diff"@.len() && "committed"@.len() != "lower"@.len()
        && "committed"@.len() != "link"@.len() && "committed"@.len() != "layer.tar.gz"@.len());
    assert("committed"@[0] == 'c' && "meta.json"@[0] == 'm');
    let link = dir.child("l"@).child(short(id));
    assert(link.parts[n] == "l"@);
    assert forall|i: int| 0 <= i < plan.len() - 1 implies fs::target_of((#[trigger] plan[i]).op)
        != marker by {
        if i < begin.len() {
            assert(plan[i] == begin[i]);
            let t = fs::target_of(begin[i].op);
            assert(t == layer || t == diff || t == layer.child("lower"@) || t == link || t
                == layer.child("link"@));
            assert(layer.parts.len() == n + 1);
            assert(diff.parts[n + 1] == "diff"@);
            assert(layer.child("lower"@).parts[n + 1] == "lower"@);
            assert(layer.child("link"@).parts[n + 1] == "link"@);
        } else if i < begin.len() + body.len() {
            assert(plan[i] == body[i - begin.len()]);
            let t = fs::target_of(plan[i].op);
            assert(t.within(diff));
            assert(t.parts.take(n + 2)[n + 1] == diff.parts[n + 1]);
            assert(diff.parts[n + 1] == "diff"@);
        } else {
            let k = i - begin.len() - body.len();
            assert(plan[i] == end[k]);
            assert(layer.child("meta.json"@).parts[n + 1] == "meta.json"@);
        }
    }
    assert(blob.parts[n] == id && blob.parts[n + 1] == "layer.tar.gz"@ && blob.parts.len() == n
        + 2);
    assert("layer.tar.gz"@.len() != "diff"@.len() && "layer.tar.gz"@.len() != "lower"@.len()
        && "layer.tar.gz"@.len() != "link"@.len() && "layer.tar.gz"@.len() != "meta.json"@.len());
    assert forall|i: int| 0 <= i < plan.len() implies fs::target_of((#[trigger] plan[i]).op)
        != blob by {
        if i < begin.len() {
            assert(plan[i] == begin[i]);
            let t = fs::target_of(begin[i].op);
            assert(t == layer || t == diff || t == layer.child("lower"@) || t == link || t
                == layer.child("link"@));
            assert(layer.parts.len() == n + 1);
            assert(diff.parts[n + 1] == "diff"@);
            assert(layer.child("lower"@).parts[n + 1] == "lower"@);
            assert(layer.child("link"@).parts[n + 1] == "link"@);
        } else if i < begin.len() + body.len() {
            assert(plan[i] == body[i - begin.len()]);
            let t = fs::target_of(plan[i].op);
            assert(t.within(diff));
            assert(t.parts.take(n + 2)[n + 1] == diff.parts[n + 1]);
            assert(diff.parts[n + 1] == "diff"@);
        } else {
            let k = i - begin.len() - body.len();
            assert(plan[i] == end[k]);
            assert(layer.child("meta.json"@).parts[n + 1] == "meta.json"@);
        }
    }
    assert(plan.last() == end.last());
    if dir_exists {
        assert(plan[0] == begin[0]);
    }
}

} // verus!
