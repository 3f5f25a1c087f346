//! Directory-snapshot cache of the per-OS handlers.
//!
//! Each entry lives under `<data_root>/cache/<id>/` with a `meta.json` and, where
//! the instruction may have changed files, a whole copy of the root filesystem.

use vstd::prelude::*;
use vstd::utf8::*;

use crate::digest::{self, digest_label};
use crate::error::{Error, ErrorView};
use crate::fs::{
    self, copy_tree, is_dir, is_file, no_steps, push_must, push_steps, push_try, FsMetadata, FsOp,
    FsOpView, RelOp, Step, StepView,
};
use crate::meta::ImageMeta;
use crate::path::{HostPath, PathView};
use crate::text::bytes_of;
use crate::tree::Entry;
use crate::vars::Vars;

verus! {

broadcast use vstd::seq_lib::group_seq_properties;

/// What the cache records about an entry besides its files.
#[derive(Debug)]
pub struct SnapshotEntry {
    /// Image config after the instruction.
    pub meta: ImageMeta,
    /// Build arguments after the instruction.
    pub args: Vars,
    /// When set, filesystem contents are reused from this cache id.
    pub rootfs_from: Option<String>,
    /// Key of the instruction.
    pub instruction: String,
    /// Chain id of the entry below, empty for the first one.
    pub parent: String,
}

/// On-disk snapshot cache under `<data_root>/cache/<id>/`.
#[derive(Debug, Clone)]
pub struct FsCacheHandler {
    /// Directory that holds the entries.
    pub dir: HostPath,
}

/// The id of the entry that holds the files of the entry `id`.
pub open spec fn files_of(id: Seq<char>, rootfs_from: Option<Seq<char>>) -> Seq<char> {
    match rootfs_from {
        Some(src) => src,
        None => id,
    }
}

/// Where the files of an entry are taken from when its instruction cannot have
/// changed any: from the entry that holds the files of the parent.
pub open spec fn inherited(
    parent: Seq<char>,
    parent_from: Option<Seq<char>>,
) -> Option<Seq<char>> {
    Some(files_of(parent, parent_from))
}

/// How an entry is prepared, up to the copy of its root filesystem.
pub open spec fn snapshot_begin(
    dir: PathView,
    id: Seq<char>,
    dir_exists: bool,
    current: Option<Seq<Entry>>,
    rootfs: PathView,
) -> Seq<StepView> {
    let entry = dir.child(id);
    (if dir_exists {
        seq![fs::must(FsOpView::RemoveDirAll(entry))]
    } else {
        Seq::empty()
    }) + seq![fs::must(FsOpView::CreateDirAll(entry))] + (match current {
        Some(c) => seq![fs::must(FsOpView::CreateDirAll(entry.child("rootfs"@)))] + fs::placed(
            seq![RelOp::MakeDir(Seq::empty())] + fs::entry_ops(c),
            rootfs,
            entry.child("rootfs"@),
        ),
        None => Seq::empty(),
    })
}

/// How an entry is finished.
pub open spec fn snapshot_end(
    dir: PathView,
    id: Seq<char>,
    entry: Seq<char>,
) -> Seq<StepView> {
    seq![fs::must(FsOpView::Write(dir.child(id).child("meta.json"@), encode_utf8(entry)))]
}

/// The entries of a directory, where there are any to copy.
pub open spec fn copied_entries(current: Option<&Vec<Entry>>) -> Option<Seq<Entry>> {
    match current {
        Some(c) => Some(c@),
        None => None,
    }
}

impl FsCacheHandler {
    /// The cache under `data_root`, and how its directory is created.
    pub fn open(data_root: &HostPath) -> (r: (Self, Vec<Step>))
        ensures
            r.0.dir@ == data_root@.child("cache"@),
            fs::step_views(r.1@) == seq![
                fs::must(FsOpView::CreateDirAll(data_root@.child("cache"@))),
            ],
    {
        let dir = data_root.join("cache");
        let mut steps = no_steps();
        push_must(&mut steps, FsOp::CreateDirAll(dir.copy()));
        assert(fs::step_views(steps@) =~= seq![
            fs::must(FsOpView::CreateDirAll(data_root@.child("cache"@))),
        ]);
        (FsCacheHandler { dir }, steps)
    }

    /// Directory that holds the entries.
    pub fn root(&self) -> (r: &HostPath)
        ensures
            r@ == self.dir@,
    {
        &self.dir
    }

    /// A file or directory of the entry `id`.
    pub fn entry_file(&self, id: &str, name: &str) -> (r: HostPath)
        ensures
            r@ == self.dir@.child(id@).child(name@),
    {
        self.dir.join(id).join(name)
    }

    /// Whether an entry exists, by the metadata of its `meta.json`.
    pub fn has(meta: &Result<FsMetadata, Error>) -> (r: bool)
        ensures
            r == (meta matches Ok(m) && m.file()),
    {
        is_file(meta)
    }

    /// Image config and build arguments of an entry.
    pub fn load_meta(entry: SnapshotEntry) -> (r: (ImageMeta, Vars))
        ensures
            r.0 == entry.meta,
            r.1 == entry.args,
    {
        (entry.meta, entry.args)
    }

    /// The root filesystem that an entry stands for.
    pub fn rootfs_path(&self, id: &str, rootfs_from: &Option<String>) -> (r: HostPath)
        ensures
            r@ == self.dir@.child(files_of(id@, rootfs_from.deep_view())).child("rootfs"@),
    {
        match rootfs_from {
            Some(src) => self.entry_file(src.as_str(), "rootfs"),
            None => self.entry_file(id, "rootfs"),
        }
    }

    /// The root filesystem that an entry stands for, given its metadata; an entry
    /// without one is corrupt.
    pub fn resolve_rootfs(
        &self,
        id: &str,
        rootfs_from: &Option<String>,
        rootfs: &Result<FsMetadata, Error>,
    ) -> (r: Result<HostPath, Error>)
        ensures
            match r {
                Ok(p) => (rootfs matches Ok(m) && m.dir()) && p@ == self.dir@.child(
                    files_of(id@, rootfs_from.deep_view()),
                ).child("rootfs"@),
                Err(e) => !(rootfs matches Ok(m) && m.dir()) && e@ == ErrorView::Other(
                    "corrupt build cache entry '"@ + id@ + "': missing rootfs for '"@ + files_of(
                        id@,
                        rootfs_from.deep_view(),
                    ) + "'"@,
                ),
            },
    {
        if is_dir(rootfs) {
            return Ok(self.rootfs_path(id, rootfs_from));
        }
        let src = match rootfs_from {
            Some(s) => s.clone(),
            None => id.to_owned(),
        };
        Err(
            Error::Other(
                "corrupt build cache entry '".to_owned().concat(id).concat(
                    "': missing rootfs for '",
                ).concat(src.as_str()).concat("'"),
            ),
        )
    }

    /// The failure to read an entry's `meta.json`.
    pub fn entry_unreadable(&self, id: &str, reason: &str) -> (r: Error)
        ensures
            r@ == ErrorView::Other(
                "build cache read '"@ + self.dir@.child(id@).child("meta.json"@).shown() + "': "@
                    + reason@,
            ),
    {
        Error::Other(
            "build cache read '".to_owned().concat(
                self.entry_file(id, "meta.json").to_text().as_str(),
            ).concat("': ").concat(reason),
        )
    }

    /// The failure to read a packed blob.
    pub fn blob_unreadable(&self, id: &str, reason: &str) -> (r: Error)
        ensures
            r@ == ErrorView::Other(
                "build cache layer blob '"@ + self.dir@.child(id@).child("layer.tar.gz"@).shown()
                    + "': "@ + reason@,
            ),
    {
        Error::Other(
            "build cache layer blob '".to_owned().concat(
                self.layer_blob_path(id).to_text().as_str(),
            ).concat("': ").concat(reason),
        )
    }

    /// Path to the packed blob of an entry.
    pub fn layer_blob_path(&self, id: &str) -> (r: HostPath)
        ensures
            r@ == self.dir@.child(id@).child("layer.tar.gz"@),
    {
        self.entry_file(id, "layer.tar.gz")
    }

    /// Whether a packed blob exists, by its metadata.
    pub fn has_layer_blob(blob: &Result<FsMetadata, Error>) -> (r: bool)
        ensures
            r == (blob matches Ok(m) && m.file()),
    {
        is_file(blob)
    }

    /// The digest of a packed blob that has none recorded yet, and the attempt to
    /// record it.
    pub fn layer_blob_digest(&self, id: &str, blob: &Vec<u8>) -> (r: (String, Vec<Step>))
        ensures
            r.0@ == digest::labelled_digest(blob@),
            fs::step_views(r.1@) == seq![
                fs::try_to(
                    FsOpView::Write(
                        self.dir@.child(id@).child("layer.digest"@),
                        encode_utf8(digest::labelled_digest(blob@)),
                    ),
                ),
            ],
    {
        let digest = digest_label(blob.as_slice());
        let mut steps = no_steps();
        push_try(
            &mut steps,
            FsOp::Write(self.entry_file(id, "layer.digest"), bytes_of(digest.as_str())),
        );
        assert(fs::step_views(steps@) =~= seq![
            fs::try_to(
                FsOpView::Write(
                    self.dir@.child(id@).child("layer.digest"@),
                    encode_utf8(digest::labelled_digest(blob@)),
                ),
            ),
        ]);
        (digest, steps)
    }

    /// How a packed export blob is stored, together with its digest.
    pub fn write_layer_blob(&self, id: &str, bytes: Vec<u8>) -> (r: Vec<Step>)
        ensures
            fs::step_views(r@) == seq![
                fs::must(FsOpView::CreateDirAll(self.dir@.child(id@))),
                fs::must(FsOpView::Write(self.dir@.child(id@).child("layer.tar.gz"@), bytes@)),
                fs::must(
                    FsOpView::Write(
                        self.dir@.child(id@).child("layer.digest"@),
                        encode_utf8(digest::labelled_digest(bytes@)),
                    ),
                ),
            ],
    {
        let digest = digest_label(bytes.as_slice());
        let ghost data = bytes@;
        let mut steps = no_steps();
        push_must(&mut steps, FsOp::CreateDirAll(self.dir.join(id)));
        push_must(&mut steps, FsOp::Write(self.entry_file(id, "layer.tar.gz"), bytes));
        push_must(
            &mut steps,
            FsOp::Write(self.entry_file(id, "layer.digest"), bytes_of(digest.as_str())),
        );
        assert(fs::step_views(steps@) =~= seq![
            fs::must(FsOpView::CreateDirAll(self.dir@.child(id@))),
            fs::must(FsOpView::Write(self.dir@.child(id@).child("layer.tar.gz"@), data)),
            fs::must(
                FsOpView::Write(
                    self.dir@.child(id@).child("layer.digest"@),
                    encode_utf8(digest::labelled_digest(data)),
                ),
            ),
        ]);
        steps
    }

    /// Whether an entry stores a copy of the root filesystem.
    pub fn stores_rootfs(parent: &str, filesystem_changed: bool) -> (r: bool)
        ensures
            r == (filesystem_changed || parent@.len() == 0),
    {
        filesystem_changed || parent.is_empty()
    }

    /// Where the files of an entry are taken from when its instruction cannot
    /// have changed any, given the same of its parent.
    pub fn inherit_rootfs(parent: &str, parent_from: Option<String>) -> (r: Option<String>)
        ensures
            r.deep_view() == inherited(parent@, parent_from.deep_view()),
    {
        match parent_from {
            Some(src) => Some(src),
            None => Some(parent.to_owned()),
        }
    }

    /// How an entry is prepared, up to the copy of its root filesystem. `current`
    /// holds the entries of `rootfs` where a copy is stored.
    pub fn save_begin(
        &self,
        id: &str,
        dir_exists: bool,
        current: Option<&Vec<Entry>>,
        rootfs: &HostPath,
    ) -> (r: Vec<Step>)
        ensures
            fs::step_views(r@) == snapshot_begin(
                self.dir@,
                id@,
                dir_exists,
                copied_entries(current),
                rootfs@,
            ),
    {
        let mut steps = no_steps();
        if dir_exists {
            push_must(&mut steps, FsOp::RemoveDirAll(self.dir.join(id)));
        }
        push_must(&mut steps, FsOp::CreateDirAll(self.dir.join(id)));
        match current {
            Some(c) => {
                let dest = self.entry_file(id, "rootfs");
                push_must(&mut steps, FsOp::CreateDirAll(dest.copy()));
                let copy = copy_tree(c, rootfs, &dest);
                push_steps(&mut steps, copy);
            },
            None => {},
        }
        assert(fs::step_views(steps@) =~= snapshot_begin(
            self.dir@,
            id@,
            dir_exists,
            copied_entries(current),
            rootfs@,
        ));
        steps
    }

    /// How an entry is finished: its `meta.json`. A packed blob of an earlier save is
    /// not carried over: it holds the files of that one.
    pub fn save_end(&self, id: &str, entry: &str) -> (r: Vec<Step>)
        ensures
            fs::step_views(r@) == snapshot_end(self.dir@, id@, entry@),
    {
        let mut steps = no_steps();
        push_must(&mut steps, FsOp::Write(self.entry_file(id, "meta.json"), bytes_of(entry)));
        assert(fs::step_views(steps@) =~= snapshot_end(self.dir@, id@, entry@));
        steps
    }

    /// How all entries are removed.
    pub fn clear(&self, root_exists: bool) -> (r: Vec<Step>)
        ensures
            fs::step_views(r@) == (if root_exists {
                seq![
                    fs::must(FsOpView::RemoveDirAll(self.dir@)),
                    fs::must(FsOpView::CreateDirAll(self.dir@)),
                ]
            } else {
                seq![fs::must(FsOpView::CreateDirAll(self.dir@))]
            }),
    {
        let mut steps = no_steps();
        if root_exists {
            push_must(&mut steps, FsOp::RemoveDirAll(self.dir.copy()));
        }
        push_must(&mut steps, FsOp::CreateDirAll(self.dir.copy()));
        assert(fs::step_views(steps@) =~= (if root_exists {
            seq![
                fs::must(FsOpView::RemoveDirAll(self.dir@)),
                fs::must(FsOpView::CreateDirAll(self.dir@)),
            ]
        } else {
            seq![fs::must(FsOpView::CreateDirAll(self.dir@))]
        }));
        steps
    }
}

/// An entry that inherits its files stands for the same files as its parent,
/// whether or not the parent inherited them itself.
pub proof fn inherited_files_are_the_parents(
    id: Seq<char>,
    parent: Seq<char>,
    parent_from: Option<Seq<char>>,
)
    ensures
        files_of(id, inherited(parent, parent_from)) == files_of(parent, parent_from),
{
}

/// Default Linux instruction-layer cache: directories under `<store>/cache`.
#[derive(Debug, Clone)]
pub struct LinuxCacheHandler {
    /// Where the entries are stored.
    pub inner: FsCacheHandler,
}

/// Default macOS instruction-layer cache: directories under `<store>/cache`.
#[derive(Debug, Clone)]
pub struct MacosCacheHandler {
    /// Where the entries are stored.
    pub inner: FsCacheHandler,
}

/// Default Windows instruction-layer cache: directories under `<store>/cache`.
#[derive(Debug, Clone)]
pub struct WindowsCacheHandler {
    /// Where the entries are stored.
    pub inner: FsCacheHandler,
}

impl LinuxCacheHandler {
    /// The Linux cache under `<data_root>/cache`, and how it is created.
    pub fn open(data_root: &HostPath) -> (r: (Self, Vec<Step>))
        ensures
            r.0.inner.dir@ == data_root@.child("cache"@),
            fs::step_views(r.1@) == seq![
                fs::must(FsOpView::CreateDirAll(data_root@.child("cache"@))),
            ],
    {
        let (inner, steps) = FsCacheHandler::open(data_root);
        (LinuxCacheHandler { inner }, steps)
    }
}

impl MacosCacheHandler {
    /// The macOS cache under `<data_root>/cache`, and how it is created.
    pub fn open(data_root: &HostPath) -> (r: (Self, Vec<Step>))
        ensures
            r.0.inner.dir@ == data_root@.child("cache"@),
            fs::step_views(r.1@) == seq![
                fs::must(FsOpView::CreateDirAll(data_root@.child("cache"@))),
            ],
    {
        let (inner, steps) = FsCacheHandler::open(data_root);
        (MacosCacheHandler { inner }, steps)
    }
}

impl WindowsCacheHandler {
    /// The Windows cache under `<data_root>/cache`, and how it is created.
    pub fn open(data_root: &HostPath) -> (r: (Self, Vec<Step>))
        ensures
            r.0.inner.dir@ == data_root@.child("cache"@),
            fs::step_views(r.1@) == seq![
                fs::must(FsOpView::CreateDirAll(data_root@.child("cache"@))),
            ],
    {
        let (inner, steps) = FsCacheHandler::open(data_root);
        (WindowsCacheHandler { inner }, steps)
    }
}

} // verus!
