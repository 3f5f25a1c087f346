//! File operations, and what the answers of a filesystem mean.

use vstd::prelude::*;

use crate::error::{Error, ErrorView};
use crate::path::{HostPath, PathView};
use crate::text::copy_bytes;
use crate::tree::{Entry, Node};

verus! {

broadcast use vstd::seq_lib::group_seq_properties;

/// Metadata for one path.
#[derive(Debug, Clone, Copy, PartialEq, Eq, Structural)]
pub struct FsMetadata {
    is_dir: bool,
    is_file: bool,
    is_symlink: bool,
    len: u64,
}

impl FsMetadata {
    /// Whether the path is a directory.
    pub closed spec fn dir(&self) -> bool {
        self.is_dir
    }

    /// Whether the path is a regular file.
    pub closed spec fn file(&self) -> bool {
        self.is_file
    }

    /// Whether the path is a symbolic link.
    pub closed spec fn symlink(&self) -> bool {
        self.is_symlink
    }

    /// Size in bytes.
    pub closed spec fn size(&self) -> u64 {
        self.len
    }

    /// Metadata with these properties.
    pub fn new(is_dir: bool, is_file: bool, is_symlink: bool, len: u64) -> (r: Self)
        ensures
            r.dir() == is_dir,
            r.file() == is_file,
            r.symlink() == is_symlink,
            r.size() == len,
    {
        FsMetadata { is_dir, is_file, is_symlink, len }
    }

    /// Directory (not a symlink to a directory, unless metadata followed it).
    pub fn is_dir(&self) -> (r: bool)
        ensures
            r == self.dir(),
    {
        self.is_dir
    }

    /// Regular file.
    pub fn is_file(&self) -> (r: bool)
        ensures
            r == self.file(),
    {
        self.is_file
    }

    /// Symbolic link. Only meaningful for metadata that did not follow links.
    pub fn is_symlink(&self) -> (r: bool)
        ensures
            r == self.symlink(),
    {
        self.is_symlink
    }

    /// Size in bytes.
    pub fn len(&self) -> (r: u64)
        ensures
            r == self.size(),
    {
        self.len
    }

    /// Whether [`Self::len`] is zero.
    pub fn is_empty(&self) -> (r: bool)
        ensures
            r == (self.size() == 0),
    {
        self.len == 0
    }
}

/// One entry of a directory listing.
#[derive(Debug, Clone)]
pub struct FsDirEntry {
    /// File name within the parent directory.
    pub name: String,
    /// Full path of the entry.
    pub path: HostPath,
    /// Directory entry (does not follow symlinks).
    pub is_dir: bool,
    /// Regular file (does not follow symlinks).
    pub is_file: bool,
    /// Symbolic link.
    pub is_symlink: bool,
}

/// Whether a path exists, by its metadata without following links.
pub fn is_present(meta: &Result<FsMetadata, Error>) -> (r: bool)
    ensures
        r == (meta is Ok),
{
    match meta {
        Ok(_) => true,
        Err(_) => false,
    }
}

/// Whether a path is a regular file, by its metadata with links followed.
pub fn is_file(meta: &Result<FsMetadata, Error>) -> (r: bool)
    ensures
        r == (meta matches Ok(m) && m.file()),
{
    match meta {
        Ok(m) => m.is_file(),
        Err(_) => false,
    }
}

/// Whether a path is a directory, by its metadata with links followed.
pub fn is_dir(meta: &Result<FsMetadata, Error>) -> (r: bool)
    ensures
        r == (meta matches Ok(m) && m.dir()),
{
    match meta {
        Ok(m) => m.is_dir(),
        Err(_) => false,
    }
}

/// Whether a path is a symbolic link, by its metadata without following links.
pub fn is_symlink(meta: &Result<FsMetadata, Error>) -> (r: bool)
    ensures
        r == (meta matches Ok(m) && m.symlink()),
{
    match meta {
        Ok(m) => m.is_symlink(),
        Err(_) => false,
    }
}

/// How a path is removed.
#[derive(Debug, Clone, Copy, PartialEq, Eq, Structural)]
pub enum Removal {
    /// There is nothing to remove.
    Nothing,
    /// The path is a directory: remove the tree.
    Tree,
    /// The path is a file or a link: remove it.
    File,
}

/// How to remove a path whose metadata, links not followed, is `meta`: a missing
/// path needs no removal, and any other failure is passed on.
pub fn removal(meta: Result<FsMetadata, Error>) -> (r: Result<Removal, Error>)
    ensures
        match meta {
            Ok(m) => r == Ok::<Removal, Error>(
                if m.dir() && !m.symlink() {
                    Removal::Tree
                } else {
                    Removal::File
                },
            ),
            Err(e) => if e@ matches ErrorView::Io { kind, .. } && kind
                == crate::error::IoKind::NotFound {
                r == Ok::<Removal, Error>(Removal::Nothing)
            } else {
                r == Err::<Removal, Error>(e)
            },
        },
{
    match meta {
        Err(e) => {
            if e.is_not_found() {
                Ok(Removal::Nothing)
            } else {
                Err(e)
            }
        },
        Ok(m) => {
            if m.is_dir() && !m.is_symlink() {
                Ok(Removal::Tree)
            } else {
                Ok(Removal::File)
            }
        },
    }
}

/// How to make way for a directory at a path whose metadata, links not followed, is
/// `meta`: a directory stays, a file or a link goes, a missing path needs no removal,
/// and any other failure is passed on.
pub fn way_removal(meta: Result<FsMetadata, Error>) -> (r: Result<Removal, Error>)
    ensures
        match meta {
            Ok(m) => r == Ok::<Removal, Error>(
                if m.dir() && !m.symlink() {
                    Removal::Nothing
                } else {
                    Removal::File
                },
            ),
            Err(e) => if e@ matches ErrorView::Io { kind, .. } && kind
                == crate::error::IoKind::NotFound {
                r == Ok::<Removal, Error>(Removal::Nothing)
            } else {
                r == Err::<Removal, Error>(e)
            },
        },
{
    match removal(meta) {
        Ok(Removal::Tree) => Ok(Removal::Nothing),
        other => other,
    }
}

/// One change to the files of a machine.
#[derive(Debug)]
pub enum FsOp {
    /// Create a directory and any missing parents.
    CreateDirAll(HostPath),
    /// Remove a directory tree.
    RemoveDirAll(HostPath),
    /// Remove an empty directory.
    RemoveDir(HostPath),
    /// Remove a file or link.
    RemoveFile(HostPath),
    /// Remove whatever stands at a path; a missing path is no failure.
    Remove(HostPath),
    /// Remove what stands at a path unless it is a directory; a missing path is no
    /// failure.
    MakeWay(HostPath),
    /// Remove everything in a directory; a path that is no directory is left alone.
    ClearDirectory(HostPath),
    /// Write a file, creating or replacing it.
    Write(HostPath, Vec<u8>),
    /// Copy the first file to the second path.
    Copy(HostPath, HostPath),
    /// Create a symbolic link with this target at a path.
    Symlink(Vec<u8>, HostPath),
    /// Set Unix mode bits.
    SetPermissions(HostPath, u32),
    /// Record guest uid and gid.
    SetVirtualOwner(HostPath, u32, u32),
}

/// A [`FsOp`] with its texts as character sequences.
pub enum FsOpView {
    CreateDirAll(PathView),
    RemoveDirAll(PathView),
    RemoveDir(PathView),
    RemoveFile(PathView),
    Remove(PathView),
    MakeWay(PathView),
    ClearDirectory(PathView),
    Write(PathView, Seq<u8>),
    Copy(PathView, PathView),
    Symlink(Seq<u8>, PathView),
    SetPermissions(PathView, u32),
    SetVirtualOwner(PathView, u32, u32),
}

impl View for FsOp {
    type V = FsOpView;

    open spec fn view(&self) -> FsOpView {
        match self {
            FsOp::CreateDirAll(p) => FsOpView::CreateDirAll(p@),
            FsOp::RemoveDirAll(p) => FsOpView::RemoveDirAll(p@),
            FsOp::RemoveDir(p) => FsOpView::RemoveDir(p@),
            FsOp::RemoveFile(p) => FsOpView::RemoveFile(p@),
            FsOp::Remove(p) => FsOpView::Remove(p@),
            FsOp::MakeWay(p) => FsOpView::MakeWay(p@),
            FsOp::ClearDirectory(p) => FsOpView::ClearDirectory(p@),
            FsOp::Write(p, d) => FsOpView::Write(p@, d@),
            FsOp::Copy(a, b) => FsOpView::Copy(a@, b@),
            FsOp::Symlink(t, p) => FsOpView::Symlink(t@, p@),
            FsOp::SetPermissions(p, m) => FsOpView::SetPermissions(p@, *m),
            FsOp::SetVirtualOwner(p, u, g) => FsOpView::SetVirtualOwner(p@, *u, *g),
        }
    }
}

/// The path that a file operation changes.
pub open spec fn target_of(op: FsOpView) -> PathView {
    match op {
        FsOpView::CreateDirAll(p) => p,
        FsOpView::RemoveDirAll(p) => p,
        FsOpView::RemoveDir(p) => p,
        FsOpView::RemoveFile(p) => p,
        FsOpView::Remove(p) => p,
        FsOpView::MakeWay(p) => p,
        FsOpView::ClearDirectory(p) => p,
        FsOpView::Write(p, _) => p,
        FsOpView::Copy(_, p) => p,
        FsOpView::Symlink(_, p) => p,
        FsOpView::SetPermissions(p, _) => p,
        FsOpView::SetVirtualOwner(p, _, _) => p,
    }
}

/// One step of a plan. Steps are performed in order; the first required step
/// that fails ends the plan with its error, and a failure of any other step is
/// ignored.
#[derive(Debug)]
pub struct Step {
    /// What to do.
    pub op: FsOp,
    /// Whether a failure ends the plan.
    pub required: bool,
}

/// A [`Step`] with its texts as character sequences.
pub struct StepView {
    pub op: FsOpView,
    pub required: bool,
}

impl View for Step {
    type V = StepView;

    open spec fn view(&self) -> StepView {
        StepView { op: self.op@, required: self.required }
    }
}

/// The views of several steps.
pub open spec fn step_views(steps: Seq<Step>) -> Seq<StepView> {
    steps.map_values(|s: Step| s@)
}

/// A step whose failure ends the plan.
pub open spec fn must(op: FsOpView) -> StepView {
    StepView { op, required: true }
}

/// A step whose failure is ignored.
pub open spec fn try_to(op: FsOpView) -> StepView {
    StepView { op, required: false }
}

/// Append a step whose failure ends the plan.
pub fn push_must(steps: &mut Vec<Step>, op: FsOp)
    ensures
        step_views(final(steps)@) == step_views(old(steps)@).push(must(op@)),
{
    steps.push(Step { op, required: true });
    assert(step_views(steps@) =~= step_views(old(steps)@).push(must(op@)));
}

/// Append a step whose failure is ignored.
pub fn push_try(steps: &mut Vec<Step>, op: FsOp)
    ensures
        step_views(final(steps)@) == step_views(old(steps)@).push(try_to(op@)),
{
    steps.push(Step { op, required: false });
    assert(step_views(steps@) =~= step_views(old(steps)@).push(try_to(op@)));
}

/// Append all of `more`.
pub fn push_steps(steps: &mut Vec<Step>, more: Vec<Step>)
    ensures
        step_views(final(steps)@) == step_views(old(steps)@) + step_views(more@),
{
    let mut more = more;
    let ghost tail = more@;
    steps.append(&mut more);
    assert(step_views(steps@) =~= step_views(old(steps)@) + step_views(tail));
}

/// A plan without steps.
pub fn no_steps() -> (r: Vec<Step>)
    ensures
        step_views(r@) == Seq::<StepView>::empty(),
{
    let r: Vec<Step> = Vec::new();
    assert(step_views(r@) =~= Seq::<StepView>::empty());
    r
}

/// The removal of a directory's entry.
pub open spec fn entry_removal(e: FsDirEntry) -> StepView {
    must(
        if e.is_dir && !e.is_symlink {
            FsOpView::RemoveDirAll(e.path@)
        } else {
            FsOpView::RemoveFile(e.path@)
        },
    )
}

/// How to empty a directory with these entries: directories are removed as
/// trees, everything else as files, links included.
pub fn clear_directory(entries: &Vec<FsDirEntry>) -> (r: Vec<Step>)
    ensures
        step_views(r@) == entries@.map_values(|e: FsDirEntry| entry_removal(e)),
{
    let mut out = no_steps();
    for i in 0..entries.len()
        invariant
            step_views(out@) == entries@.take(i as int).map_values(
                |e: FsDirEntry| entry_removal(e),
            ),
    {
        let ghost seen = step_views(out@);
        if entries[i].is_dir && !entries[i].is_symlink {
            push_must(&mut out, FsOp::RemoveDirAll(entries[i].path.copy()));
        } else {
            push_must(&mut out, FsOp::RemoveFile(entries[i].path.copy()));
        }
        assert(step_views(out@) =~= seen.push(entry_removal(entries@[i as int])));
        assert(step_views(out@) =~= entries@.take(i + 1).map_values(
            |e: FsDirEntry| entry_removal(e),
        ));
    }
    assert(entries@.take(entries@.len() as int) =~= entries@);
    out
}

// ---------------------------------------------------------------------------
// Operations relative to a source directory and a destination directory
// ---------------------------------------------------------------------------

/// One change below a destination directory, described by relative paths.
pub enum RelOp {
    /// Create the directory and those above it.
    MakeDir(Seq<Seq<char>>),
    /// Copy the file at the same path below the source directory.
    CopyFile(Seq<Seq<char>>),
    /// Put a link there, in place of a file or link.
    MakeLink(Seq<Seq<char>>, Seq<u8>),
    /// Create the directory and put an empty file with this name into it.
    Mark(Seq<Seq<char>>, Seq<char>),
    /// Remove what stands there.
    Remove(Seq<Seq<char>>),
    /// Remove what stands there unless it is a directory.
    MakeWay(Seq<Seq<char>>),
    /// Remove everything in the directory.
    Clear(Seq<Seq<char>>),
}

/// `base` extended by a relative path.
pub open spec fn below(base: PathView, rel: Seq<Seq<char>>) -> PathView {
    PathView { anchor: base.anchor, parts: base.parts + rel }
}

/// The steps that perform an operation below two given directories.
pub open spec fn placed_one(op: RelOp, src: PathView, dest: PathView) -> Seq<StepView> {
    match op {
        RelOp::MakeDir(rel) => seq![must(FsOpView::CreateDirAll(below(dest, rel)))],
        RelOp::CopyFile(rel) => seq![must(FsOpView::Copy(below(src, rel), below(dest, rel)))],
        RelOp::MakeLink(rel, target) => seq![
            try_to(FsOpView::RemoveFile(below(dest, rel))),
            must(FsOpView::Symlink(target, below(dest, rel))),
        ],
        RelOp::Mark(rel, name) => seq![
            must(FsOpView::CreateDirAll(below(dest, rel))),
            must(FsOpView::Write(below(dest, rel).child(name), Seq::empty())),
        ],
        RelOp::Remove(rel) => seq![must(FsOpView::Remove(below(dest, rel)))],
        RelOp::MakeWay(rel) => seq![must(FsOpView::MakeWay(below(dest, rel)))],
        RelOp::Clear(rel) => seq![must(FsOpView::ClearDirectory(below(dest, rel)))],
    }
}

/// The steps that perform several operations below two given directories.
pub open spec fn placed(ops: Seq<RelOp>, src: PathView, dest: PathView) -> Seq<StepView>
    decreases ops.len(),
{
    if ops.len() == 0 {
        Seq::empty()
    } else {
        placed(ops.drop_last(), src, dest) + placed_one(ops.last(), src, dest)
    }
}

/// The same operation one directory further down.
pub open spec fn under_one(name: Seq<char>, op: RelOp) -> RelOp {
    match op {
        RelOp::MakeDir(rel) => RelOp::MakeDir(seq![name] + rel),
        RelOp::CopyFile(rel) => RelOp::CopyFile(seq![name] + rel),
        RelOp::MakeLink(rel, target) => RelOp::MakeLink(seq![name] + rel, target),
        RelOp::Mark(rel, file) => RelOp::Mark(seq![name] + rel, file),
        RelOp::Remove(rel) => RelOp::Remove(seq![name] + rel),
        RelOp::MakeWay(rel) => RelOp::MakeWay(seq![name] + rel),
        RelOp::Clear(rel) => RelOp::Clear(seq![name] + rel),
    }
}

/// The same operations one directory further down.
pub open spec fn under(name: Seq<char>, ops: Seq<RelOp>) -> Seq<RelOp> {
    ops.map_values(|op: RelOp| under_one(name, op))
}

/// Performing operations in a row places them in a row.
pub proof fn lemma_placed_add(a: Seq<RelOp>, b: Seq<RelOp>, src: PathView, dest: PathView)
    ensures
        placed(a + b, src, dest) == placed(a, src, dest) + placed(b, src, dest),
    decreases b.len(),
{
    if b.len() == 0 {
        assert(a + b =~= a);
        assert(placed(a, src, dest) + placed(b, src, dest) =~= placed(a, src, dest));
    } else {
        lemma_placed_add(a, b.drop_last(), src, dest);
        assert((a + b).drop_last() =~= a + b.drop_last());
        assert((a + b).last() == b.last());
        assert(placed(a + b, src, dest) =~= placed(a, src, dest) + placed(b, src, dest));
    }
}

/// One operation alone.
pub proof fn lemma_placed_single(op: RelOp, src: PathView, dest: PathView)
    ensures
        placed(seq![op], src, dest) == placed_one(op, src, dest),
{
    assert(seq![op].drop_last() =~= Seq::<RelOp>::empty());
    assert(placed(Seq::<RelOp>::empty(), src, dest) =~= Seq::<StepView>::empty());
    assert(placed(seq![op], src, dest) =~= placed_one(op, src, dest));
}

/// Operations one directory further down are those of the directories further
/// down.
pub proof fn lemma_placed_under(name: Seq<char>, ops: Seq<RelOp>, src: PathView, dest: PathView)
    ensures
        placed(under(name, ops), src, dest) == placed(ops, src.child(name), dest.child(name)),
    decreases ops.len(),
{
    if ops.len() > 0 {
        lemma_placed_under(name, ops.drop_last(), src, dest);
        assert(under(name, ops).drop_last() =~= under(name, ops.drop_last()));
        let rel = match ops.last() {
            RelOp::MakeDir(rel) => rel,
            RelOp::CopyFile(rel) => rel,
            RelOp::MakeLink(rel, _) => rel,
            RelOp::Mark(rel, _) => rel,
            RelOp::Remove(rel) => rel,
            RelOp::MakeWay(rel) => rel,
            RelOp::Clear(rel) => rel,
        };
        assert(below(src, seq![name] + rel) =~= below(src.child(name), rel));
        assert(below(dest, seq![name] + rel) =~= below(dest.child(name), rel));
        assert(placed_one(under_one(name, ops.last()), src, dest) == placed_one(
            ops.last(),
            src.child(name),
            dest.child(name),
        ));
        assert(under(name, ops).last() == under_one(name, ops.last()));
    } else {
        assert(under(name, ops) =~= Seq::<RelOp>::empty());
    }
}

// ---------------------------------------------------------------------------
// Copying trees
// ---------------------------------------------------------------------------

/// How to copy what stands at the directory itself.
pub open spec fn node_ops(n: Node) -> Seq<RelOp>
    decreases n,
{
    match n {
        Node::Dir { entries } => seq![RelOp::MakeDir(Seq::empty())] + entry_ops(entries@),
        Node::Link { target } => seq![RelOp::MakeLink(Seq::empty(), target@)],
        _ => seq![RelOp::CopyFile(Seq::empty())],
    }
}

/// How to copy the entries of a directory, in order.
pub open spec fn entry_ops(entries: Seq<Entry>) -> Seq<RelOp>
    decreases entries,
{
    if entries.len() == 0 {
        Seq::empty()
    } else {
        entry_ops(entries.drop_last()) + under(
            entries.last().name@,
            node_ops(entries.last().node),
        )
    }
}

/// Recursively copy a directory with these entries from `src` to `dest`:
/// directories are created, links are made anew, everything else is copied.
pub fn copy_tree(entries: &Vec<Entry>, src: &HostPath, dest: &HostPath) -> (r: Vec<Step>)
    ensures
        step_views(r@) == placed(
            seq![RelOp::MakeDir(Seq::empty())] + entry_ops(entries@),
            src@,
            dest@,
        ),
    decreases entries, 1int,
{
    let mut out = no_steps();
    push_must(&mut out, FsOp::CreateDirAll(dest.copy()));
    let ghost head = seq![RelOp::MakeDir(Seq::empty())];
    proof {
        lemma_placed_single(RelOp::MakeDir(Seq::empty()), src@, dest@);
        assert(below(dest@, Seq::empty()) =~= dest@);
        assert(head + entry_ops(entries@.take(0)) =~= head);
        assert(step_views(out@) =~= placed(head, src@, dest@));
    }
    for i in 0..entries.len()
        invariant
            head == seq![RelOp::MakeDir(Seq::empty())],
            step_views(out@) == placed(head + entry_ops(entries@.take(i as int)), src@, dest@),
        decreases entries.len() - i,
    {
        let ghost before = head + entry_ops(entries@.take(i as int));
        let ghost name = entries@[i as int].name@;
        let ghost ops = node_ops(entries@[i as int].node);
        let from = src.join(entries[i].name.as_str());
        let to = dest.join(entries[i].name.as_str());
        let steps = copy_node(&entries[i].node, &from, &to);
        push_steps(&mut out, steps);
        proof {
            assert(entries@.take(i + 1).drop_last() =~= entries@.take(i as int));
            lemma_placed_under(name, ops, src@, dest@);
            lemma_placed_add(before, under(name, ops), src@, dest@);
            assert(head + entry_ops(entries@.take(i + 1)) =~= before + under(name, ops));
        }
    }
    assert(entries@.take(entries@.len() as int) =~= entries@);
    out
}

/// Copy what stands at `src` to `dest`.
pub fn copy_node(node: &Node, src: &HostPath, dest: &HostPath) -> (r: Vec<Step>)
    ensures
        step_views(r@) == placed(node_ops(*node), src@, dest@),
    decreases node, 0int,
{
    proof {
        assert(below(src@, Seq::empty()) =~= src@);
        assert(below(dest@, Seq::empty()) =~= dest@);
    }
    match node {
        Node::Dir { entries } => copy_tree(entries, src, dest),
        Node::Link { target } => {
            let mut out = no_steps();
            push_try(&mut out, FsOp::RemoveFile(dest.copy()));
            push_must(&mut out, FsOp::Symlink(copy_bytes(target), dest.copy()));
            proof {
                lemma_placed_single(RelOp::MakeLink(Seq::empty(), target@), src@, dest@);
                assert(step_views(out@) =~= placed(node_ops(*node), src@, dest@));
            }
            out
        },
        _ => {
            let mut out = no_steps();
            push_must(&mut out, FsOp::Copy(src.copy(), dest.copy()));
            proof {
                lemma_placed_single(RelOp::CopyFile(Seq::empty()), src@, dest@);
                assert(step_views(out@) =~= placed(node_ops(*node), src@, dest@));
            }
            out
        },
    }
}

} // verus!
