//! Applying layers to a root filesystem.

use vstd::prelude::*;
use vstd::utf8::*;

use crate::archive::{self, list_layer, RawEntry, RawView};
use crate::error::{Error, ErrorView, IoKind};
use crate::fs::{self, no_steps, push_must, push_try, FsOp, FsOpView, Step, StepView};
use crate::overlay2;
use crate::path::{self, keep_parts, HostPath, PathView};
use crate::text::{
    self, bytes_of, copy_bytes, join, same_text, split_any, starts_with_char, strip_prefix,
    strip_suffix, trim,
};
use crate::tree::{Entry, Node};
use crate::winpath::{self, from_utf8, join_root, push_guest_rel, Host};

verus! {

broadcast use vstd::seq_lib::group_seq_properties;

/// The text of bytes, with a replacement character for what is no UTF-8.
pub uninterp spec fn lossy(bytes: Seq<u8>) -> Seq<char>;

/// `String::from_utf8_lossy`. The result depends on the bytes alone.
#[verifier::external_body]
fn lossy_text(bytes: &[u8]) -> (r: String)
    ensures
        r@ == lossy(bytes@),
{
    String::from_utf8_lossy(bytes).into_owned()
}

/// The text of bytes: what they encode, with replacement characters only where they
/// encode nothing.
pub open spec fn shown(bytes: Seq<u8>) -> Seq<char> {
    if valid_utf8(bytes) {
        decode_utf8(bytes)
    } else {
        lossy(bytes)
    }
}

/// The text of bytes.
pub(crate) fn show(bytes: &Vec<u8>) -> (r: String)
    ensures
        r@ == shown(bytes@),
{
    match from_utf8(copy_bytes(bytes)) {
        Some(s) => {
            proof {
                encode_utf8_decode_utf8(s@);
            }
            s
        },
        None => lossy_text(bytes.as_slice()),
    }
}

/// What a layer entry is.
#[derive(Debug, Clone, Copy, PartialEq, Eq, Structural)]
pub enum EntryKind {
    /// A directory.
    Directory,
    /// A file.
    File,
    /// A symbolic or hard link.
    Link,
    /// Anything else.
    Other,
}

/// What the type flag of a tar header stands for.
pub open spec fn kind_of(flag: u8) -> EntryKind {
    if flag == 53 {
        EntryKind::Directory
    } else if flag == 48 || flag == 55 {
        EntryKind::File
    } else if flag == 49 || flag == 50 {
        EntryKind::Link
    } else {
        EntryKind::Other
    }
}

/// What the type flag of a tar header stands for.
fn entry_kind(flag: u8) -> (r: EntryKind)
    ensures
        r == kind_of(flag),
{
    if flag == 53 {
        EntryKind::Directory
    } else if flag == 48 || flag == 55 {
        EntryKind::File
    } else if flag == 49 || flag == 50 {
        EntryKind::Link
    } else {
        EntryKind::Other
    }
}

/// What separates the components of a path besides a slash.
pub open spec fn separator(host: Host) -> char {
    match host {
        Host::Posix => '/',
        Host::Windows => '\\',
    }
}

/// The components of an entry's path.
pub open spec fn entry_parts(host: Host, path: Seq<char>) -> Seq<Seq<char>> {
    path::named_parts(text::pieces(path, '/', separator(host)), true)
}

/// A path that starts at a root or at a drive.
pub open spec fn rooted(host: Host, path: Seq<char>) -> bool {
    ||| path.len() > 0 && (path[0] == '/' || path[0] == separator(host))
    ||| host == Host::Windows && path.len() >= 2 && drive_letter(path[0]) && path[1] == ':'
}

/// A letter that can name a drive.
pub open spec fn drive_letter(c: char) -> bool {
    'a' <= c <= 'z' || 'A' <= c <= 'Z'
}

/// A relative path that does not lead upwards.
pub open spec fn safe_path(host: Host, path: Seq<char>) -> bool {
    !rooted(host, path) && !entry_parts(host, path).contains(".."@)
}

/// What separates the components of a path besides a slash.
fn other_separator(host: Host) -> (r: char)
    ensures
        r == separator(host),
{
    match host {
        Host::Posix => '/',
        Host::Windows => '\\',
    }
}

/// The components of an entry's path.
fn parts_of(host: Host, path: &str) -> (r: Vec<String>)
    ensures
        r.deep_view() == entry_parts(host, path@),
{
    keep_parts(&split_any(path, '/', other_separator(host)), true)
}

/// Whether a path is relative and does not lead upwards.
pub fn path_is_safe(host: Host, path: &str) -> (r: bool)
    ensures
        r == safe_path(host, path@),
{
    let v = text::chars_of(path);
    if v.len() > 0 && (v[0] == '/' || v[0] == other_separator(host)) {
        return false;
    }
    if host == Host::Windows && v.len() >= 2 && (('a' <= v[0] && v[0] <= 'z') || ('A' <= v[0]
        && v[0] <= 'Z')) && v[1] == ':' {
        return false;
    }
    let parts = parts_of(host, path);
    let ghost all = parts.deep_view();
    for i in 0..parts.len()
        invariant
            all == parts.deep_view(),
            all == entry_parts(host, path@),
            !rooted(host, path@),
            forall|k: int| 0 <= k < i ==> #[trigger] all[k] != ".."@,
    {
        if same_text(parts[i].as_str(), "..") {
            assert(all[i as int] == ".."@);
            return false;
        }
    }
    true
}

/// The bytes of the last component of a path.
pub open spec fn last_component(host: Host, path: Seq<u8>) -> Seq<u8> {
    last_named(byte_parts(host, path))
}

/// A byte that separates the components of a path.
pub open spec fn separates(host: Host, b: u8) -> bool {
    b == 47 || host == Host::Windows && b == 92
}

/// The pieces of a path between separators.
pub open spec fn byte_parts(host: Host, path: Seq<u8>) -> Seq<Seq<u8>>
    decreases path.len(),
{
    if path.len() == 0 {
        seq![Seq::<u8>::empty()]
    } else {
        let before = byte_parts(host, path.drop_last());
        if separates(host, path.last()) {
            before.push(Seq::<u8>::empty())
        } else {
            before.drop_last().push(before.last().push(path.last()))
        }
    }
}

/// The last piece that is neither empty nor a single dot.
pub open spec fn last_named(parts: Seq<Seq<u8>>) -> Seq<u8>
    decreases parts.len(),
{
    if parts.len() == 0 {
        Seq::empty()
    } else if parts.last().len() == 0 || parts.last() == seq![46u8] {
        last_named(parts.drop_last())
    } else {
        parts.last()
    }
}

/// The bytes of the last component of a path.
fn last_component_bytes(host: Host, path: &Vec<u8>) -> (r: Vec<u8>)
    ensures
        r@ == last_component(host, path@),
{
    let mut found: Vec<u8> = Vec::new();
    let mut current: Vec<u8> = Vec::new();
    let ghost mut done: Seq<Seq<u8>> = Seq::empty();
    proof {
        assert(byte_parts(host, path@.take(0)) =~= done.push(current@));
        assert(found@ =~= last_named(done));
    }
    for i in 0..path.len()
        invariant
            byte_parts(host, path@.take(i as int)) == done.push(current@),
            found@ == last_named(done),
    {
        assert(path@.take(i + 1).drop_last() =~= path@.take(i as int));
        let ghost all = done.push(current@);
        assert(all.drop_last() =~= done);
        assert(all.last() == current@);
        if path[i] == 47 || (host == Host::Windows && path[i] == 92) {
            let skip = current.len() == 0 || (current.len() == 1 && current[0] == 46);
            assert(skip == (current@.len() == 0 || current@ =~= seq![46u8]));
            if !skip {
                found = current;
            }
            proof {
                done = all;
            }
            current = Vec::new();
            assert(byte_parts(host, path@.take(i + 1)) =~= done.push(current@));
        } else {
            let ghost was = current@;
            current.push(path[i]);
            assert(byte_parts(host, path@.take(i + 1)) =~= done.push(was.push(path@[i as int])));
        }
    }
    assert(path@.take(path@.len() as int) =~= path@);
    let ghost all = done.push(current@);
    assert(all.drop_last() =~= done);
    assert(all.last() == current@);
    let skip = current.len() == 0 || (current.len() == 1 && current[0] == 46);
    assert(skip == (current@.len() == 0 || current@ =~= seq![46u8]));
    if skip {
        found
    } else {
        current
    }
}

/// What one entry of a layer asks for.
#[derive(Debug)]
pub struct EntryPlan {
    /// Changes to make, in order.
    pub steps: Vec<Step>,
    /// A link to attempt once the changes are made.
    pub link: Option<PendingLink>,
}

/// A link that is to be made.
#[derive(Debug)]
pub struct PendingLink {
    /// Host path of the link.
    pub dest: HostPath,
    /// Target as the layer states it.
    pub target: Vec<u8>,
}

/// A [`PendingLink`] with its texts as character sequences.
pub struct LinkView {
    pub dest: PathView,
    pub target: Seq<u8>,
}

impl View for PendingLink {
    type V = LinkView;

    open spec fn view(&self) -> LinkView {
        LinkView { dest: self.dest@, target: self.target@ }
    }
}

/// The directory that has to exist before something is put to `dest`.
pub open spec fn parent_dir(dest: PathView) -> Seq<StepView> {
    match dest.parent() {
        Some(p) => seq![fs::must(FsOpView::CreateDirAll(p))],
        None => Seq::empty(),
    }
}

/// The id that a layer states, cut to its lowest 32 bits; zero where there is none.
pub open spec fn owner_id(id: Option<u64>) -> u32 {
    match id {
        Some(n) => n as u32,
        None => 0,
    }
}

/// The attempt to record the owner of a file, where the host can.
pub open spec fn owner_steps(host: Host, dest: PathView, e: RawView) -> Seq<StepView> {
    match host {
        Host::Posix => seq![
            fs::try_to(FsOpView::SetVirtualOwner(dest, owner_id(e.uid), owner_id(e.gid))),
        ],
        Host::Windows => Seq::empty(),
    }
}

/// The attempt to set the mode of a file, where the host can and the layer states
/// one.
pub open spec fn mode_steps(host: Host, dest: PathView, e: RawView) -> Seq<StepView> {
    match (host, e.mode) {
        (Host::Posix, Some(m)) => seq![fs::try_to(FsOpView::SetPermissions(dest, m))],
        _ => Seq::empty(),
    }
}

/// The target of a link entry.
pub open spec fn link_target(e: RawView) -> Seq<u8> {
    match e.link {
        Some(b) => b,
        None => Seq::empty(),
    }
}

/// Bytes that the host takes for a path.
pub open spec fn legible(host: Host, bytes: Seq<u8>) -> bool {
    host == Host::Posix || valid_utf8(bytes)
}

/// Whether the host takes bytes for a path.
fn is_legible(host: Host, bytes: &Vec<u8>) -> (r: bool)
    ensures
        r == legible(host, bytes@),
{
    match host {
        Host::Posix => true,
        Host::Windows => from_utf8(copy_bytes(bytes)).is_some(),
    }
}

/// How an entry that is no whiteout is unpacked to `dest`. A file whose contents break
/// off is written as far as they go, and a link whose target the host does not take
/// for a path leaves only its directory.
pub open spec fn unpack_steps(host: Host, dest: PathView, e: RawView) -> Seq<StepView> {
    match kind_of(e.flag) {
        EntryKind::Directory => seq![fs::must(FsOpView::CreateDirAll(dest))] + owner_steps(
            host,
            dest,
            e,
        ),
        EntryKind::File => parent_dir(dest) + seq![
            fs::must(FsOpView::Remove(dest)),
            fs::must(FsOpView::Write(dest, e.data)),
        ] + (if e.whole {
            mode_steps(host, dest, e) + owner_steps(host, dest, e)
        } else {
            Seq::empty()
        }),
        EntryKind::Link => if link_target(e).len() == 0 || !legible(host, link_target(e)) {
            parent_dir(dest)
        } else {
            parent_dir(dest).push(fs::must(FsOpView::Remove(dest)))
        },
        EntryKind::Other => Seq::empty(),
    }
}

/// The link that an entry asks for.
pub open spec fn unpack_link(host: Host, dest: PathView, e: RawView) -> Option<LinkView> {
    if kind_of(e.flag) == EntryKind::Link && link_target(e).len() > 0 && legible(
        host,
        link_target(e),
    ) {
        Some(LinkView { dest, target: link_target(e) })
    } else {
        None
    }
}

/// The directory part of an entry's path.
pub open spec fn parent_text(parts: Seq<Seq<char>>) -> Seq<char> {
    text::joined(parts.drop_last(), "/"@)
}

/// The file name of an entry, where it is a text.
pub open spec fn entry_name(host: Host, path: Seq<u8>) -> Option<Seq<char>> {
    let parts = entry_parts(host, shown(path));
    let last = last_component(host, path);
    if parts.len() == 0 {
        None
    } else if valid_utf8(path) {
        Some(parts.last())
    } else if valid_utf8(last) {
        Some(decode_utf8(last))
    } else {
        None
    }
}

/// Whether the entry is unpacked: its path is safe, and it is no whiteout.
pub open spec fn unpacks(host: Host, e: RawView) -> bool {
    &&& safe_path(host, shown(e.path))
    &&& entry_name(host, e.path) matches Some(name) ==> name != overlay2::opaque_name()
        && text::after_prefix(name, overlay2::whiteout_prefix()) is None
}

/// The reason why the host does not take bytes for a path.
pub open spec fn not_unicode(bytes: Seq<u8>) -> Seq<char> {
    "only Unicode paths are supported on Windows: "@ + shown(bytes)
}

/// The reason why a layer ends with an entry: the host does not take its path for
/// one, or the target of the link that it is.
pub open spec fn entry_fault(host: Host, e: RawView) -> Option<Seq<char>> {
    if !legible(host, e.path) {
        Some(not_unicode(e.path))
    } else if unpacks(host, e) && kind_of(e.flag) == EntryKind::Link && !legible(
        host,
        link_target(e),
    ) {
        Some(not_unicode(link_target(e)))
    } else {
        None
    }
}

/// What an entry asks for: the changes, and the link to attempt afterwards. An
/// entry with an unsafe path, or one that the host does not take for a path, asks for
/// nothing. A whiteout removes the file that
/// it names, and the opaque marker empties its directory.
pub open spec fn entry_plan(host: Host, rootfs: PathView, e: RawView) -> (
    Seq<StepView>,
    Option<LinkView>,
) {
    let path = shown(e.path);
    let dir = winpath::pushed(host, rootfs, parent_text(entry_parts(host, path)));
    let dest = winpath::pushed(host, rootfs, path);
    if !legible(host, e.path) || !safe_path(host, path) {
        (Seq::empty(), None)
    } else {
        match entry_name(host, e.path) {
            Some(name) => if name == overlay2::opaque_name() {
                (seq![fs::must(FsOpView::ClearDirectory(dir))], None)
            } else {
                match text::after_prefix(name, overlay2::whiteout_prefix()) {
                    Some(gone) => (
                        seq![fs::must(FsOpView::Remove(winpath::pushed(host, dir, gone)))],
                        None,
                    ),
                    None => (unpack_steps(host, dest, e), unpack_link(host, dest, e)),
                }
            },
            None => (unpack_steps(host, dest, e), unpack_link(host, dest, e)),
        }
    }
}

/// Whether a plan holds what `expected` says.
pub open spec fn plan_is(r: EntryPlan, expected: (Seq<StepView>, Option<LinkView>)) -> bool {
    &&& fs::step_views(r.steps@) == expected.0
    &&& match r.link {
        Some(l) => expected.1 == Some(l@),
        None => expected.1 is None,
    }
}

/// The id that a layer states, cut to its lowest 32 bits; zero where there is none.
fn owner(id: Option<u64>) -> (r: u32)
    ensures
        r == owner_id(id),
{
    match id {
        Some(n) => #[verifier::truncate]
        (n as u32),
        None => 0,
    }
}

/// Create the parent directory of `dest`.
fn push_parent(steps: &mut Vec<Step>, dest: &HostPath)
    ensures
        fs::step_views(final(steps)@) == fs::step_views(old(steps)@) + parent_dir(dest@),
{
    let ghost before = fs::step_views(steps@);
    match dest.parent() {
        Some(p) => {
            push_must(steps, FsOp::CreateDirAll(p));
        },
        None => {},
    }
    assert(fs::step_views(steps@) =~= before + parent_dir(dest@));
}

/// Record the owner of a file, where the host can.
fn push_owner(steps: &mut Vec<Step>, host: Host, dest: &HostPath, e: &RawEntry)
    ensures
        fs::step_views(final(steps)@) == fs::step_views(old(steps)@) + owner_steps(
            host,
            dest@,
            e@,
        ),
{
    let ghost before = fs::step_views(steps@);
    if host == Host::Posix {
        push_try(steps, FsOp::SetVirtualOwner(dest.copy(), owner(e.uid), owner(e.gid)));
    }
    assert(fs::step_views(steps@) =~= before + owner_steps(host, dest@, e@));
}

/// Plan how an entry that is no whiteout is unpacked to `dest`.
pub fn unpack_entry(host: Host, dest: HostPath, e: &RawEntry) -> (r: EntryPlan)
    ensures
        plan_is(r, (unpack_steps(host, dest@, e@), unpack_link(host, dest@, e@))),
        // The mode of a whole file is set as the layer states it.
        host == Host::Posix && e@.whole && (e@.flag == 48 || e@.flag == 55) && e@.mode is Some
            ==> fs::step_views(r.steps@).contains(
            fs::try_to(FsOpView::SetPermissions(dest@, e@.mode->0)),
        ),
{
    let mut steps = no_steps();
    match entry_kind(e.flag) {
        EntryKind::Directory => {
            push_must(&mut steps, FsOp::CreateDirAll(dest.copy()));
            push_owner(&mut steps, host, &dest, e);
            assert(fs::step_views(steps@) =~= unpack_steps(host, dest@, e@));
            EntryPlan { steps, link: None }
        },
        EntryKind::File => {
            push_parent(&mut steps, &dest);
            push_must(&mut steps, FsOp::Remove(dest.copy()));
            push_must(&mut steps, FsOp::Write(dest.copy(), copy_bytes(&e.data)));
            if e.whole {
                if host == Host::Posix {
                    if let Some(m) = e.mode {
                        push_try(&mut steps, FsOp::SetPermissions(dest.copy(), m));
                    }
                }
                push_owner(&mut steps, host, &dest, e);
            }
            assert(fs::step_views(steps@) =~= unpack_steps(host, dest@, e@));
            EntryPlan { steps, link: None }
        },
        EntryKind::Link => {
            push_parent(&mut steps, &dest);
            let target = match &e.link {
                Some(b) => copy_bytes(b),
                None => Vec::new(),
            };
            assert(target@ =~= link_target(e@));
            if target.len() == 0 || !is_legible(host, &target) {
                assert(fs::step_views(steps@) =~= unpack_steps(host, dest@, e@));
                return EntryPlan { steps, link: None };
            }
            push_must(&mut steps, FsOp::Remove(dest.copy()));
            assert(fs::step_views(steps@) =~= unpack_steps(host, dest@, e@));
            EntryPlan { steps, link: Some(PendingLink { dest, target }) }
        },
        EntryKind::Other => EntryPlan { steps, link: None },
    }
}

/// The directory part of an entry's path.
fn parent_of(parts: Vec<String>) -> (r: String)
    requires
        parts@.len() > 0,
    ensures
        r@ == parent_text(parts.deep_view()),
{
    let ghost all = parts.deep_view();
    let mut parts = parts;
    let _ = parts.pop();
    assert(parts.deep_view() =~= all.drop_last());
    join(&parts, "/")
}

/// The file name of an entry, where it is a text.
fn name_of(host: Host, path: &Vec<u8>, parts: &Vec<String>) -> (r: Option<String>)
    requires
        parts.deep_view() == entry_parts(host, shown(path@)),
    ensures
        match r {
            Some(n) => entry_name(host, path@) == Some(n@),
            None => entry_name(host, path@) is None,
        },
{
    let n: usize = parts.len();
    if n == 0 {
        return None;
    }
    match from_utf8(copy_bytes(path)) {
        Some(_) => {
            assert(parts.deep_view().last() == parts@[n - 1]@);
            Some(parts[n - 1].clone())
        },
        None => match from_utf8(last_component_bytes(host, path)) {
            Some(s) => {
                proof {
                    encode_utf8_decode_utf8(s@);
                }
                Some(s)
            },
            None => None,
        },
    }
}

/// Plan what one entry of a layer does to the root filesystem.
pub fn plan_entry(host: Host, rootfs: &HostPath, e: &RawEntry) -> (r: EntryPlan)
    ensures
        plan_is(r, entry_plan(host, rootfs@, e@)),
{
    let text = show(&e.path);
    if !is_legible(host, &e.path) || !path_is_safe(host, text.as_str()) {
        return EntryPlan { steps: no_steps(), link: None };
    }
    let parts = parts_of(host, text.as_str());
    if let Some(name) = name_of(host, &e.path, &parts) {
        if same_text(name.as_str(), ".wh..wh..opq") {
            let mut steps = no_steps();
            let dir = join_root(host, rootfs, parent_of(parts).as_str());
            push_must(&mut steps, FsOp::ClearDirectory(dir));
            assert(fs::step_views(steps@) =~= entry_plan(host, rootfs@, e@).0);
            return EntryPlan { steps, link: None };
        }
        if let Some(target) = strip_prefix(name.as_str(), ".wh.") {
            let mut steps = no_steps();
            let mut p = join_root(host, rootfs, parent_of(parts).as_str());
            push_guest_rel(host, &mut p, target.as_str());
            push_must(&mut steps, FsOp::Remove(p));
            assert(fs::step_views(steps@) =~= entry_plan(host, rootfs@, e@).0);
            return EntryPlan { steps, link: None };
        }
    }
    unpack_entry(host, join_root(host, rootfs, text.as_str()), e)
}

/// The failure with which a layer ends at an entry, if it does.
fn fault_of(host: Host, e: &RawEntry) -> (r: Option<Error>)
    ensures
        match r {
            None => entry_fault(host, e@) is None,
            Some(x) => entry_fault(host, e@) matches Some(m) && x@ == unreadable(m),
        },
{
    let what = "only Unicode paths are supported on Windows: ";
    if !is_legible(host, &e.path) {
        return Some(listing_error(what.to_owned().concat(show(&e.path).as_str()).as_str()));
    }
    let target = match &e.link {
        Some(b) => copy_bytes(b),
        None => Vec::new(),
    };
    assert(target@ =~= link_target(e@));
    if entry_kind(e.flag) != EntryKind::Link || is_legible(host, &target) {
        return None;
    }
    let text = show(&e.path);
    if !path_is_safe(host, text.as_str()) {
        return None;
    }
    let parts = parts_of(host, text.as_str());
    if let Some(name) = name_of(host, &e.path, &parts) {
        if same_text(name.as_str(), ".wh..wh..opq") || strip_prefix(
            name.as_str(),
            ".wh.",
        ).is_some() {
            return None;
        }
    }
    Some(listing_error(what.to_owned().concat(show(&target).as_str()).as_str()))
}

/// The number of entries before the first with which a layer ends early.
pub open spec fn first_fault(host: Host, entries: Seq<RawView>) -> int
    decreases entries.len(),
{
    if entries.len() == 0 {
        0
    } else {
        let before = first_fault(host, entries.drop_last());
        if before < entries.len() - 1 || entry_fault(host, entries.last()) is Some {
            before
        } else {
            entries.len() as int
        }
    }
}

/// The first entry with which a layer ends early is that of the whole layer.
proof fn lemma_first_fault(host: Host, entries: Seq<RawView>, n: int)
    requires
        0 <= n <= entries.len(),
        first_fault(host, entries.take(n)) < n,
    ensures
        first_fault(host, entries) == first_fault(host, entries.take(n)),
    decreases entries.len() - n,
{
    if n < entries.len() {
        assert(entries.take(n + 1).drop_last() =~= entries.take(n));
        lemma_first_fault(host, entries, n + 1);
    } else {
        assert(entries.take(n) =~= entries);
    }
}

/// The reason why a layer cannot be applied to its end, where it cannot: that of the
/// first entry with which it ends early, else that of the archive.
pub open spec fn layer_fault(host: Host, listing: (Seq<RawView>, Option<Seq<char>>)) -> Option<
    Seq<char>,
> {
    let n = first_fault(host, listing.0);
    if n < listing.0.len() {
        entry_fault(host, listing.0[n])
    } else {
        listing.1
    }
}

/// The number of entries of a layer that are planned: all up to the first with which
/// it ends early, that one included.
pub open spec fn planned(host: Host, entries: Seq<RawView>) -> int {
    let n = first_fault(host, entries);
    if n < entries.len() {
        n + 1
    } else {
        n
    }
}

/// What a layer asks for: the plans of its entries, to be carried out in order, and
/// the failure that follows them where the layer cannot be applied to its end.
#[derive(Debug)]
pub struct LayerPlan {
    /// Plans of the entries.
    pub entries: Vec<EntryPlan>,
    /// Why there are no more.
    pub failure: Option<Error>,
}

/// Plan how a gzip-compressed tar layer is applied to a root filesystem.
pub fn apply_layer(host: Host, rootfs: &HostPath, layer: &[u8]) -> (r: LayerPlan)
    ensures
        r.entries@.len() == planned(host, archive::tar_listing(layer@).0),
        forall|i: int|
            0 <= i < r.entries@.len() ==> plan_is(
                #[trigger] r.entries@[i],
                entry_plan(host, rootfs@, archive::tar_listing(layer@).0[i]),
            ),
        match r.failure {
            None => layer_fault(host, archive::tar_listing(layer@)) is None,
            Some(e) => layer_fault(host, archive::tar_listing(layer@)) matches Some(m) && e@
                == unreadable(m),
        },
{
    let (end, listed) = list_layer(layer);
    let ghost all = archive::tar_listing(layer@).0;
    let mut entries: Vec<EntryPlan> = Vec::new();
    assert(all.take(0) =~= Seq::<RawView>::empty());
    for i in 0..listed.len()
        invariant
            all == archive::raw_views(listed@),
            all == archive::tar_listing(layer@).0,
            first_fault(host, all.take(i as int)) == i,
            entries@.len() == i,
            forall|k: int|
                0 <= k < i ==> plan_is(
                    #[trigger] entries@[k],
                    entry_plan(host, rootfs@, all[k]),
                ),
    {
        entries.push(plan_entry(host, rootfs, &listed[i]));
        assert(all[i as int] == listed@[i as int]@);
        assert(all.take(i + 1).drop_last() =~= all.take(i as int));
        assert(all.take(i + 1).last() == all[i as int]);
        if let Some(e) = fault_of(host, &listed[i]) {
            proof {
                lemma_first_fault(host, all, i + 1);
            }
            return LayerPlan { entries, failure: Some(e) };
        }
    }
    assert(all.take(all.len() as int) =~= all);
    let failure = match end {
        Some(m) => Some(listing_error(m.as_str())),
        None => None,
    };
    LayerPlan { entries, failure }
}

/// The failure of a layer to be read.
pub open spec fn unreadable(failure: Seq<char>) -> ErrorView {
    ErrorView::Io { path: "<io>"@, kind: IoKind::Other, code: None, source: failure }
}

/// What the failure of a layer to be read means.
fn listing_error(failure: &str) -> (r: Error)
    ensures
        r@ == unreadable(failure@),
{
    Error::from_io(IoKind::Other, None, failure)
}

// ---------------------------------------------------------------------------
// Links
// ---------------------------------------------------------------------------

/// Failures after which a link is made in another way later: the right to make
/// links is missing, the name is refused, or something stands there.
pub open spec fn deferrable(e: ErrorView) -> bool {
    e matches ErrorView::Io { kind, code, .. } && (code == Some(1314i32) || code == Some(123i32)
        || kind == IoKind::AlreadyExists)
}

/// What the attempt to make a link means: made, to be made later, or failed.
pub fn try_symlink(attempt: Result<(), Error>) -> (r: Result<bool, Error>)
    ensures
        match attempt {
            Ok(_) => r == Ok::<bool, Error>(true),
            Err(e) => if deferrable(e@) {
                r == Ok::<bool, Error>(false)
            } else {
                r == Err::<bool, Error>(e)
            },
        },
        // A link counts as made exactly where the attempt succeeded.
        (r matches Ok(made) && made) <==> attempt is Ok,
{
    match attempt {
        Ok(_) => Ok(true),
        Err(e) => {
            let code: Option<i32> = e.raw_os_error();
            let exists_already = match &e {
                Error::Io { kind, .. } => *kind == IoKind::AlreadyExists,
                _ => false,
            };
            let refused = match code {
                Some(c) => c == 1314 || c == 123,
                None => false,
            };
            if refused || exists_already {
                Ok(false)
            } else {
                Err(e)
            }
        },
    }
}

/// A Windows path that starts at a drive.
pub open spec fn from_drive(t: Seq<char>) -> bool {
    &&& t.len() >= 3
    &&& drive_letter(t[0])
    &&& t[1] == ':'
    &&& (t[2] == '/' || t[2] == '\\')
}

/// `s` without the slashes and backslashes at its front.
pub open spec fn without_slashes(s: Seq<char>) -> Seq<char>
    decreases s.len(),
{
    if s.len() > 0 && (s[0] == '/' || s[0] == '\\') {
        without_slashes(s.skip(1))
    } else {
        s
    }
}

/// Whether a link's target is absolute.
pub open spec fn absolute_target(host: Host, t: Seq<char>) -> bool {
    ||| t.len() > 0 && (t[0] == '/' || t[0] == '\\')
    ||| host == Host::Windows && from_drive(t)
}

/// What a link leads to, seen from the host: an absolute target starts at the
/// root filesystem, any other one at the directory of the link.
pub open spec fn resolved_target(
    host: Host,
    rootfs: PathView,
    dest: PathView,
    target: Seq<char>,
) -> PathView {
    if absolute_target(host, target) {
        winpath::pushed(host, rootfs, without_slashes(target))
    } else {
        match dest.parent() {
            Some(p) => winpath::pushed(host, p, target),
            None => winpath::pushed(host, rootfs, target),
        }
    }
}

/// `s` without the slashes and backslashes at its front.
fn trim_slashes(s: &str) -> (r: String)
    ensures
        r@ == without_slashes(s@),
{
    let v = text::chars_of(s);
    let mut i: usize = 0;
    assert(v@.skip(0) =~= v@);
    while i < v.len() && (v[i] == '/' || v[i] == '\\')
        invariant
            i <= v@.len(),
            v@ == s@,
            without_slashes(v@.skip(i as int)) == without_slashes(s@),
        decreases v@.len() - i,
    {
        assert(v@.skip(i as int).skip(1) =~= v@.skip(i + 1));
        i += 1;
    }
    assert(v@.skip(i as int) =~= v@.subrange(i as int, v@.len() as int));
    text::part(&v, i, v.len())
}

/// What a link leads to, seen from the host.
pub fn resolve_link_target(host: Host, rootfs: &HostPath, dest: &HostPath, target: &str) -> (r:
    HostPath)
    ensures
        r@ == resolved_target(host, rootfs@, dest@, target@),
{
    let v = text::chars_of(target);
    let drive = v.len() >= 3 && (('a' <= v[0] && v[0] <= 'z') || ('A' <= v[0] && v[0] <= 'Z'))
        && v[1] == ':' && (v[2] == '/' || v[2] == '\\');
    let absolute = starts_with_char(target, '/') || starts_with_char(target, '\\') || (host
        == Host::Windows && drive);
    if absolute {
        return join_root(host, rootfs, trim_slashes(target).as_str());
    }
    match dest.parent() {
        Some(p) => {
            let mut out = p;
            push_guest_rel(host, &mut out, target);
            out
        },
        None => join_root(host, rootfs, target),
    }
}

/// The rounds in which deferred links are attempted.
#[derive(Debug)]
pub struct LinkQueue {
    /// Links of this round that were not attempted yet, the next one last.
    pub waiting: Vec<PendingLink>,
    /// Links of this round that have to be attempted again.
    pub later: Vec<PendingLink>,
    /// The round, counted from zero.
    pub round: u32,
}

/// The number of rounds.
pub open spec fn max_rounds() -> int {
    8
}

/// The views of several links.
pub open spec fn link_views(links: Seq<PendingLink>) -> Seq<LinkView> {
    links.map_values(|l: PendingLink| l@)
}

/// The links in the opposite order.
fn reversed(links: Vec<PendingLink>) -> (r: Vec<PendingLink>)
    ensures
        r@ == links@.reverse(),
{
    let ghost all = links@;
    let mut links = links;
    let mut out: Vec<PendingLink> = Vec::new();
    assert(all.take(all.len() as int) =~= all);
    while links.len() > 0
        invariant
            links@.len() <= all.len(),
            links@ == all.take(links@.len() as int),
            out@ == all.skip(links@.len() as int).reverse(),
        decreases links@.len(),
    {
        let ghost n = links@.len() as int;
        if let Some(l) = links.pop() {
            out.push(l);
            assert(out@ =~= all.skip(n - 1).reverse());
            assert(links@ =~= all.take(n - 1));
        }
    }
    assert(all.skip(0) =~= all);
    out
}

impl LinkQueue {
    /// The links of this round that were not attempted yet, the next one first.
    pub open spec fn ahead(&self) -> Seq<PendingLink> {
        self.waiting@.reverse()
    }

    /// The links to attempt in this round, those to attempt in the next one, and
    /// the round.
    pub open spec fn stands_at(&self, state: (Seq<PendingLink>, Seq<PendingLink>, int)) -> bool {
        self.ahead() == state.0 && self.later@ == state.1 && self.round == state.2
    }

    /// The next link and what remains, unless the rounds are over.
    pub open spec fn upcoming(&self) -> Option<
        (PendingLink, (Seq<PendingLink>, Seq<PendingLink>, int)),
    > {
        if self.ahead().len() > 0 {
            Some((self.ahead()[0], (self.ahead().skip(1), self.later@, self.round as int)))
        } else if self.later@.len() > 0 && self.round + 1 < max_rounds() {
            Some((self.later@[0], (self.later@.skip(1), Seq::empty(), self.round + 1)))
        } else {
            None
        }
    }

    /// Whether nothing but `link` was added for the next round.
    pub open spec fn postponed(&self, before: &LinkQueue, link: PendingLink) -> bool {
        &&& self.later@ == before.later@.push(link)
        &&& self.waiting == before.waiting
        &&& self.round == before.round
    }

    /// The first round over `pending`.
    pub fn new(pending: Vec<PendingLink>) -> (r: Self)
        ensures
            r.ahead() == pending@,
            r.later@.len() == 0,
            r.round == 0,
    {
        let r = LinkQueue { waiting: reversed(pending), later: Vec::new(), round: 0 };
        assert(r.ahead() =~= pending@);
        r
    }

    /// The next link to attempt. At the end of a round the links that have to be
    /// attempted again come up in a new round, as long as there is one.
    pub fn next(&mut self) -> (r: Option<PendingLink>)
        requires
            old(self).round < max_rounds(),
        ensures
            final(self).round < max_rounds(),
            match old(self).upcoming() {
                Some((link, queue)) => r == Some(link) && final(self).stands_at(queue),
                None => r is None && *final(self) == *old(self),
            },
    {
        if self.waiting.len() == 0 && self.later.len() > 0 && self.round + 1 < 8 {
            let mut again: Vec<PendingLink> = Vec::new();
            std::mem::swap(&mut again, &mut self.later);
            let ghost all = again@;
            self.waiting = reversed(again);
            self.round = self.round + 1;
            assert(self.ahead() =~= all);
        }
        let ghost now = self.ahead();
        let ghost w = self.waiting@;
        if self.waiting.len() == 0 {
            return None;
        }
        let r = self.waiting.pop();
        assert(self.ahead() =~= now.skip(1));
        assert(now[0] == w.last());
        r
    }

    /// Attempt a link again in the next round.
    pub fn postpone(&mut self, link: PendingLink)
        ensures
            final(self).postponed(old(self), link),
    {
        self.later.push(link);
    }
}

/// Where a link that could not be made is remembered.
pub open spec fn sidecar_of(dest: PathView) -> PathView {
    if dest.parts.len() == 0 {
        dest.child(".buildkit-symlink"@)
    } else {
        PathView {
            anchor: dest.anchor,
            parts: dest.parts.drop_last().push(dest.parts.last() + ".buildkit-symlink"@),
        }
    }
}

/// Where a link that could not be made is remembered.
pub fn sidecar_path(dest: &HostPath) -> (r: HostPath)
    ensures
        r@ == sidecar_of(dest@),
{
    let n: usize = dest.parts.len();
    if n == 0 {
        return dest.join(".buildkit-symlink");
    }
    let last = dest.parts[n - 1].clone().concat(".buildkit-symlink");
    let mut out = dest.copy();
    let _ = out.pop();
    out.push(last.as_str());
    assert(out@ =~= sidecar_of(dest@));
    out
}

/// How the links that could not be made are remembered.
pub open spec fn sidecar_steps(links: Seq<LinkView>) -> Seq<StepView>
    decreases links.len(),
{
    if links.len() == 0 {
        Seq::empty()
    } else {
        sidecar_steps(links.drop_last()) + parent_dir(links.last().dest) + seq![
            fs::must(
                FsOpView::Write(
                    sidecar_of(links.last().dest),
                    encode_utf8(shown(links.last().target)),
                ),
            ),
        ]
    }
}

/// Plan how the links that could not be made are remembered.
pub fn remember_links(links: &Vec<PendingLink>) -> (r: Vec<Step>)
    ensures
        fs::step_views(r@) == sidecar_steps(link_views(links@)),
{
    let mut steps = no_steps();
    let ghost all = link_views(links@);
    assert(all.take(0) =~= Seq::<LinkView>::empty());
    for i in 0..links.len()
        invariant
            all == link_views(links@),
            fs::step_views(steps@) == sidecar_steps(all.take(i as int)),
    {
        assert(all.take(i + 1).drop_last() =~= all.take(i as int));
        assert(all.take(i + 1).last() == links@[i as int]@);
        push_parent(&mut steps, &links[i].dest);
        push_must(
            &mut steps,
            FsOp::Write(sidecar_path(&links[i].dest), bytes_of(show(&links[i].target).as_str())),
        );
        assert(fs::step_views(steps@) =~= sidecar_steps(all.take(i + 1)));
    }
    assert(all.take(all.len() as int) =~= all);
    steps
}

/// What the host says about the two ends of a deferred link.
#[derive(Debug, Clone, Copy, PartialEq, Eq, Structural)]
pub struct LinkFacts {
    /// Something stands at the link's path.
    pub dest_exists: bool,
    /// A directory stands at the link's path, links followed.
    pub dest_is_dir: bool,
    /// The directory at the link's path can be listed and is empty.
    pub dest_is_empty: bool,
    /// The target is a directory, links followed.
    pub target_is_dir: bool,
}

/// Whether an empty directory holds the place of a link to a directory.
pub open spec fn placeholder(facts: LinkFacts) -> bool {
    facts.dest_is_dir && facts.target_is_dir && facts.dest_is_empty
}

/// Where a run over deferred links stands.
#[derive(Debug)]
pub enum LinkStage {
    /// No link is in work.
    Between,
    /// The two ends of this link are looked at.
    Looking(PendingLink),
    /// The kind of this link's target is looked at.
    Finding(PendingLink),
    /// A symbolic link is attempted.
    Linking(PendingLink),
    /// A junction is attempted.
    Joining(PendingLink),
}

/// What a run over deferred links asks for.
#[derive(Debug)]
pub enum LinkAction {
    /// Look at both ends, then call [`LinkRun::looked`].
    Look {
        /// Path of the link.
        dest: HostPath,
        /// Path that it leads to.
        resolved: HostPath,
    },
    /// Perform the steps, look at the target, then call [`LinkRun::found`].
    Find {
        /// Changes to make first.
        steps: Vec<Step>,
        /// Path that the link leads to.
        resolved: HostPath,
    },
    /// Perform the steps, attempt the link, then call [`LinkRun::linked`].
    Link {
        /// Changes to make first.
        steps: Vec<Step>,
        /// Target of the link.
        target: Vec<u8>,
        /// Path of the link.
        dest: HostPath,
    },
    /// Attempt a junction, then call [`LinkRun::joined`].
    Join {
        /// Path that the junction leads to.
        resolved: HostPath,
        /// Path of the junction.
        dest: HostPath,
    },
    /// Perform the steps, then call [`LinkRun::next`].
    Settle(Vec<Step>),
    /// Perform the steps: the run is over.
    Finish(Vec<Step>),
}

/// A [`LinkAction`] with its texts as character sequences.
pub enum LinkActionView {
    Look { dest: PathView, resolved: PathView },
    Find { steps: Seq<StepView>, resolved: PathView },
    Link { steps: Seq<StepView>, target: Seq<u8>, dest: PathView },
    Join { resolved: PathView, dest: PathView },
    Settle(Seq<StepView>),
    Finish(Seq<StepView>),
}

impl View for LinkAction {
    type V = LinkActionView;

    open spec fn view(&self) -> LinkActionView {
        match self {
            LinkAction::Look { dest, resolved } => LinkActionView::Look {
                dest: dest@,
                resolved: resolved@,
            },
            LinkAction::Find { steps, resolved } => LinkActionView::Find {
                steps: fs::step_views(steps@),
                resolved: resolved@,
            },
            LinkAction::Link { steps, target, dest } => LinkActionView::Link {
                steps: fs::step_views(steps@),
                target: target@,
                dest: dest@,
            },
            LinkAction::Join { resolved, dest } => LinkActionView::Join {
                resolved: resolved@,
                dest: dest@,
            },
            LinkAction::Settle(steps) => LinkActionView::Settle(fs::step_views(steps@)),
            LinkAction::Finish(steps) => LinkActionView::Finish(fs::step_views(steps@)),
        }
    }
}

/// A run over deferred links. The links come up round by round; one whose target
/// is not there yet comes up again in the next round, and what the last round
/// leaves is remembered beside the place of the link.
#[derive(Debug)]
pub struct LinkRun {
    /// What hosts the files.
    pub host: Host,
    /// Root filesystem that the links stand in.
    pub rootfs: HostPath,
    /// Links that are still to be made.
    pub queue: LinkQueue,
    /// The link in work.
    pub stage: LinkStage,
}

impl LinkRun {
    /// What a link of this run leads to.
    pub open spec fn leads_to(&self, link: PendingLink) -> PathView {
        resolved_target(self.host, self.rootfs@, link@.dest, shown(link@.target))
    }

    /// Whether a run goes on on the same root filesystem.
    pub open spec fn goes_on(&self, before: &LinkRun) -> bool {
        self.host == before.host && self.rootfs == before.rootfs && self.queue.round < max_rounds()
    }

    /// A run over `pending`.
    pub fn new(host: Host, rootfs: HostPath, pending: Vec<PendingLink>) -> (r: Self)
        ensures
            r.host == host,
            r.rootfs == rootfs,
            r.queue.ahead() == pending@,
            r.queue.later@.len() == 0,
            r.queue.round == 0,
            r.stage is Between,
    {
        LinkRun { host, rootfs, queue: LinkQueue::new(pending), stage: LinkStage::Between }
    }

    /// Take up the next link, or end the run.
    pub fn next(&mut self) -> (r: LinkAction)
        requires
            old(self).queue.round < max_rounds(),
            old(self).stage is Between,
        ensures
            final(self).goes_on(old(self)),
            match old(self).queue.upcoming() {
                Some((link, queue)) => {
                    &&& r@ == (LinkActionView::Look {
                        dest: link@.dest,
                        resolved: old(self).leads_to(link),
                    })
                    &&& final(self).stage == LinkStage::Looking(link)
                    &&& final(self).queue.stands_at(queue)
                },
                None => {
                    &&& r@ == LinkActionView::Finish(
                        sidecar_steps(link_views(old(self).queue.later@)),
                    )
                    &&& final(self).stage is Between
                    &&& final(self).queue == old(self).queue
                },
            },
    {
        match self.queue.next() {
            Some(link) => {
                let resolved = resolve_link_target(
                    self.host,
                    &self.rootfs,
                    &link.dest,
                    show(&link.target).as_str(),
                );
                let dest = link.dest.copy();
                self.stage = LinkStage::Looking(link);
                LinkAction::Look { dest, resolved }
            },
            None => LinkAction::Finish(remember_links(&self.queue.later)),
        }
    }

    /// Go on with what the host says of both ends: a link whose place is taken is
    /// left as it is, unless an empty directory holds the place of a link to a
    /// directory.
    pub fn looked(&mut self, facts: LinkFacts) -> (r: LinkAction)
        requires
            old(self).queue.round < max_rounds(),
            old(self).stage is Looking,
        ensures
            final(self).goes_on(old(self)),
            final(self).queue == old(self).queue,
            old(self).stage matches LinkStage::Looking(link) && if facts.dest_exists
                && !placeholder(facts) {
                &&& r@ == LinkActionView::Settle(Seq::empty())
                &&& final(self).stage is Between
            } else {
                &&& r@ == (LinkActionView::Find {
                    steps: if facts.dest_exists {
                        seq![fs::try_to(FsOpView::RemoveDir(link@.dest))]
                    } else {
                        Seq::empty()
                    },
                    resolved: old(self).leads_to(link),
                })
                &&& final(self).stage == LinkStage::Finding(link)
            },
            // Nothing but an empty directory makes room for a link.
            r@ matches LinkActionView::Find { steps, .. } ==> steps.len() > 0
                ==> facts.dest_is_dir && facts.dest_is_empty,
            !facts.dest_exists ==> r@ is Find,
    {
        let mut stage = LinkStage::Between;
        std::mem::swap(&mut stage, &mut self.stage);
        match stage {
            LinkStage::Looking(link) => {
                let mut steps = no_steps();
                if facts.dest_exists {
                    if !(facts.dest_is_dir && facts.target_is_dir && facts.dest_is_empty) {
                        return LinkAction::Settle(steps);
                    }
                    push_try(&mut steps, FsOp::RemoveDir(link.dest.copy()));
                    assert(fs::step_views(steps@) =~= seq![
                        fs::try_to(FsOpView::RemoveDir(link@.dest)),
                    ]);
                }
                let resolved = resolve_link_target(
                    self.host,
                    &self.rootfs,
                    &link.dest,
                    show(&link.target).as_str(),
                );
                self.stage = LinkStage::Finding(link);
                LinkAction::Find { steps, resolved }
            },
            _ => LinkAction::Settle(no_steps()),
        }
    }

    /// Go on with what the target is: a file is copied, a directory is linked to,
    /// and what is neither is looked for again in the next round.
    pub fn found(&mut self, is_file: bool, is_dir: bool) -> (r: LinkAction)
        requires
            old(self).queue.round < max_rounds(),
            old(self).stage is Finding,
        ensures
            final(self).goes_on(old(self)),
            old(self).stage matches LinkStage::Finding(link) && if is_file {
                &&& r@ == LinkActionView::Settle(
                    parent_dir(link@.dest).push(
                        fs::must(FsOpView::Copy(old(self).leads_to(link), link@.dest)),
                    ),
                )
                &&& final(self).stage is Between
                &&& final(self).queue == old(self).queue
            } else if is_dir {
                &&& r@ == (LinkActionView::Link {
                    steps: parent_dir(link@.dest).push(
                        fs::try_to(FsOpView::RemoveDir(link@.dest)),
                    ),
                    target: link@.target,
                    dest: link@.dest,
                })
                &&& final(self).stage == LinkStage::Linking(link)
                &&& final(self).queue == old(self).queue
            } else {
                &&& r@ == LinkActionView::Settle(Seq::empty())
                &&& final(self).stage is Between
                &&& final(self).queue.postponed(&old(self).queue, link)
            },
            // A link to a directory keeps the target that the layer states.
            is_dir && !is_file ==> (r@ matches LinkActionView::Link { target, dest, .. } && (
            old(self).stage matches LinkStage::Finding(link) && target == link.target@ && dest
                == link.dest@)),
    {
        let mut stage = LinkStage::Between;
        std::mem::swap(&mut stage, &mut self.stage);
        match stage {
            LinkStage::Finding(link) => {
                let mut steps = no_steps();
                if is_file {
                    let resolved = resolve_link_target(
                        self.host,
                        &self.rootfs,
                        &link.dest,
                        show(&link.target).as_str(),
                    );
                    push_parent(&mut steps, &link.dest);
                    push_must(&mut steps, FsOp::Copy(resolved, link.dest));
                    assert(fs::step_views(steps@) =~= parent_dir(link@.dest).push(
                        fs::must(FsOpView::Copy(old(self).leads_to(link), link@.dest)),
                    ));
                    LinkAction::Settle(steps)
                } else if is_dir {
                    push_parent(&mut steps, &link.dest);
                    push_try(&mut steps, FsOp::RemoveDir(link.dest.copy()));
                    assert(fs::step_views(steps@) =~= parent_dir(link@.dest).push(
                        fs::try_to(FsOpView::RemoveDir(link@.dest)),
                    ));
                    let target = copy_bytes(&link.target);
                    let dest = link.dest.copy();
                    self.stage = LinkStage::Linking(link);
                    LinkAction::Link { steps, target, dest }
                } else {
                    self.queue.postpone(link);
                    LinkAction::Settle(steps)
                }
            },
            _ => LinkAction::Settle(no_steps()),
        }
    }

    /// Go on with what became of the attempt to link to a directory: a failure
    /// that can be got round leads to a junction, any other one is passed on.
    pub fn linked(&mut self, attempt: Result<(), Error>) -> (r: Result<LinkAction, Error>)
        requires
            old(self).queue.round < max_rounds(),
            old(self).stage is Linking,
        ensures
            final(self).goes_on(old(self)),
            final(self).queue == old(self).queue,
            old(self).stage matches LinkStage::Linking(link) && match attempt {
                Ok(_) => {
                    &&& r matches Ok(a) && a@ == LinkActionView::Settle(Seq::empty())
                    &&& final(self).stage is Between
                },
                Err(e) => if deferrable(e@) {
                    &&& r matches Ok(a) && a@ == (LinkActionView::Join {
                        resolved: old(self).leads_to(link),
                        dest: link@.dest,
                    })
                    &&& final(self).stage == LinkStage::Joining(link)
                } else {
                    &&& r == Err::<LinkAction, Error>(e)
                    &&& final(self).stage is Between
                },
            },
    {
        let mut stage = LinkStage::Between;
        std::mem::swap(&mut stage, &mut self.stage);
        let made = match try_symlink(attempt) {
            Ok(made) => made,
            Err(e) => {
                return Err(e);
            },
        };
        match stage {
            LinkStage::Linking(link) => {
                if made {
                    return Ok(LinkAction::Settle(no_steps()));
                }
                let resolved = resolve_link_target(
                    self.host,
                    &self.rootfs,
                    &link.dest,
                    show(&link.target).as_str(),
                );
                let dest = link.dest.copy();
                self.stage = LinkStage::Joining(link);
                Ok(LinkAction::Join { resolved, dest })
            },
            _ => Ok(LinkAction::Settle(no_steps())),
        }
    }

    /// Go on with what became of the junction. Where none can be made, a link is
    /// made after all, or on Windows looked at again in the next round.
    pub fn joined(&mut self, made: Result<bool, Error>) -> (r: Result<LinkAction, Error>)
        requires
            old(self).queue.round < max_rounds(),
            old(self).stage is Joining,
        ensures
            final(self).goes_on(old(self)),
            final(self).stage is Between,
            old(self).stage matches LinkStage::Joining(link) && match made {
                Err(e) => {
                    &&& r == Err::<LinkAction, Error>(e)
                    &&& final(self).queue == old(self).queue
                },
                Ok(made) => if made || old(self).host == Host::Posix {
                    &&& r matches Ok(a) && a@ == LinkActionView::Settle(
                        if made {
                            Seq::empty()
                        } else {
                            seq![fs::must(FsOpView::Symlink(link@.target, link@.dest))]
                        },
                    )
                    &&& final(self).queue == old(self).queue
                } else {
                    &&& r matches Ok(a) && a@ == LinkActionView::Settle(Seq::empty())
                    &&& final(self).queue.postponed(&old(self).queue, link)
                },
            },
    {
        let mut stage = LinkStage::Between;
        std::mem::swap(&mut stage, &mut self.stage);
        let made = match made {
            Ok(made) => made,
            Err(e) => {
                return Err(e);
            },
        };
        let mut steps = no_steps();
        match stage {
            LinkStage::Joining(link) => {
                if !made {
                    if self.host == Host::Posix {
                        push_must(&mut steps, FsOp::Symlink(link.target, link.dest));
                        assert(fs::step_views(steps@) =~= seq![
                            fs::must(FsOpView::Symlink(link@.target, link@.dest)),
                        ]);
                    } else {
                        self.queue.postpone(link);
                    }
                }
            },
            _ => {},
        }
        Ok(LinkAction::Settle(steps))
    }
}

/// The links that are remembered below a directory, up to the first memory that is
/// no text, and the path of that memory.
pub open spec fn remembered(entries: Seq<Entry>, dir: PathView) -> (
    Seq<LinkView>,
    Option<PathView>,
)
    decreases entries, 1int,
{
    if entries.len() == 0 {
        (Seq::empty(), None)
    } else {
        let before = remembered(entries.drop_last(), dir);
        let here = remembered_one(entries.last(), dir);
        if before.1 is Some {
            before
        } else {
            (before.0 + here.0, here.1)
        }
    }
}

/// The links that are remembered at or below an entry, up to the first memory that
/// is no text, and the path of that memory.
pub open spec fn remembered_one(e: Entry, dir: PathView) -> (Seq<LinkView>, Option<PathView>)
    decreases e, 0int,
{
    let path = dir.child(e.name@);
    match e.node {
        Node::Dir { entries } => remembered(entries@, path),
        Node::File { data } => match text::before_suffix(e.name@, ".buildkit-symlink"@) {
            None => (Seq::empty(), None),
            Some(stem) => if valid_utf8(data@) {
                (
                    seq![
                        LinkView {
                            dest: dir.child(stem),
                            target: encode_utf8(text::trimmed(decode_utf8(data@))),
                        },
                    ],
                    None,
                )
            } else {
                (Seq::empty(), Some(path))
            },
        },
        _ => (Seq::empty(), None),
    }
}

/// The failure to read a memory that is no text.
pub open spec fn not_text(path: PathView) -> ErrorView {
    ErrorView::Io {
        path: path.shown(),
        kind: IoKind::Other,
        code: None,
        source: "stream did not contain valid UTF-8"@,
    }
}

/// The attempts to remove the files that remember these links.
pub open spec fn forget_steps(links: Seq<LinkView>) -> Seq<StepView> {
    links.map_values(
        |l: LinkView| fs::try_to(FsOpView::RemoveFile(sidecar_of(l.dest))),
    )
}

/// Collect the links that are remembered at or below an entry.
fn collect_entry(e: &Entry, dir: &HostPath, out: &mut Vec<PendingLink>) -> (r: Result<(), Error>)
    ensures
        link_views(final(out)@) == link_views(old(out)@) + remembered_one(*e, dir@).0,
        match r {
            Ok(_) => remembered_one(*e, dir@).1 is None,
            Err(x) => remembered_one(*e, dir@).1 matches Some(p) && x@ == not_text(p),
        },
    decreases e, 0int,
{
    let ghost before = link_views(out@);
    match &e.node {
        Node::Dir { entries } => {
            let path = dir.join(e.name.as_str());
            collect_sidecar_links(entries, &path, out)
        },
        Node::File { data } => {
            match strip_suffix(e.name.as_str(), ".buildkit-symlink") {
                None => {
                    assert(link_views(out@) =~= before + Seq::<LinkView>::empty());
                    Ok(())
                },
                Some(stem) => {
                    match from_utf8(copy_bytes(data)) {
                        None => {
                            assert(link_views(out@) =~= before + Seq::<LinkView>::empty());
                            Err(
                                Error::io(
                                    dir.join(e.name.as_str()).to_text().as_str(),
                                    IoKind::Other,
                                    None,
                                    "stream did not contain valid UTF-8",
                                ),
                            )
                        },
                        Some(t) => {
                            proof {
                                encode_utf8_decode_utf8(t@);
                            }
                            let link = PendingLink {
                                dest: dir.join(stem.as_str()),
                                target: bytes_of(trim(t.as_str()).as_str()),
                            };
                            out.push(link);
                            assert(link_views(out@) =~= before + seq![link@]);
                            Ok(())
                        },
                    }
                },
            }
        },
        _ => {
            assert(link_views(out@) =~= before + Seq::<LinkView>::empty());
            Ok(())
        },
    }
}

/// Collect the links that are remembered below a directory with these entries.
pub fn collect_sidecar_links(entries: &Vec<Entry>, dir: &HostPath, out: &mut Vec<PendingLink>) -> (r:
    Result<(), Error>)
    ensures
        link_views(final(out)@) == link_views(old(out)@) + remembered(entries@, dir@).0,
        match r {
            Ok(_) => remembered(entries@, dir@).1 is None,
            Err(x) => remembered(entries@, dir@).1 matches Some(p) && x@ == not_text(p),
        },
    decreases entries, 1int,
{
    let ghost before = link_views(out@);
    assert(before + Seq::<LinkView>::empty() =~= before);
    for i in 0..entries.len()
        invariant
            before == link_views(old(out)@),
            remembered(entries@.take(i as int), dir@).1 is None,
            link_views(out@) == before + remembered(entries@.take(i as int), dir@).0,
        decreases entries.len() - i,
    {
        assert(entries@.take(i + 1).drop_last() =~= entries@.take(i as int));
        let ghost seen = remembered(entries@.take(i as int), dir@).0;
        let r = collect_entry(&entries[i], dir, out);
        assert(link_views(out@) =~= before + (seen + remembered_one(
            entries@[i as int],
            dir@,
        ).0));
        assert(remembered(entries@.take(i + 1), dir@) == (
            seen + remembered_one(entries@[i as int], dir@).0,
            remembered_one(entries@[i as int], dir@).1,
        ));
        match r {
            Ok(_) => {},
            Err(x) => {
                proof {
                    lemma_remembered_err(entries@, dir@, i + 1);
                }
                return Err(x);
            },
        }
    }
    assert(entries@.take(entries@.len() as int) =~= entries@);
    Ok(())
}

/// A memory that is no text stops the collection.
proof fn lemma_remembered_err(entries: Seq<Entry>, dir: PathView, n: int)
    requires
        0 <= n <= entries.len(),
        remembered(entries.take(n), dir).1 is Some,
    ensures
        remembered(entries, dir) == remembered(entries.take(n), dir),
    decreases entries.len() - n,
{
    if n < entries.len() {
        assert(entries.take(n + 1).drop_last() =~= entries.take(n));
        lemma_remembered_err(entries, dir, n + 1);
    } else {
        assert(entries.take(n) =~= entries);
    }
}

/// Plan how the files that remember these links are removed.
pub fn forget_links(links: &Vec<PendingLink>) -> (r: Vec<Step>)
    ensures
        fs::step_views(r@) == forget_steps(link_views(links@)),
{
    let mut steps = no_steps();
    for i in 0..links.len()
        invariant
            fs::step_views(steps@) == forget_steps(link_views(links@.take(i as int))),
    {
        push_try(&mut steps, FsOp::RemoveFile(sidecar_path(&links[i].dest)));
        assert(fs::step_views(steps@) =~= forget_steps(link_views(links@.take(i + 1))));
    }
    assert(links@.take(links@.len() as int) =~= links@);
    steps
}

// ---------------------------------------------------------------------------
// Laws
// ---------------------------------------------------------------------------

/// No component of a Linux path leads upwards, whichever way it is separated.
pub open spec fn never_up(path: Seq<char>) -> bool {
    !text::pieces(path, '/', '\\').contains(".."@)
}

/// A whiteout of this entry, if it is one, names something that does not lead upwards.
pub open spec fn removes_below(host: Host, e: RawView) -> bool {
    entry_name(host, e.path) matches Some(name) ==> text::after_prefix(
        name,
        overlay2::whiteout_prefix(),
    ) matches Some(gone) ==> never_up(gone)
}

/// A change inside the root filesystem, or the creation of a directory on the way to
/// it.
pub open spec fn changes_inside(rootfs: PathView, op: FsOpView) -> bool {
    ||| fs::target_of(op).within(rootfs)
    ||| op matches FsOpView::CreateDirAll(p) && rootfs.within(p)
}

/// The pieces of several texts between backslashes, in a row.
spec fn all_pieces(parts: Seq<Seq<char>>) -> Seq<Seq<char>>
    decreases parts.len(),
{
    if parts.len() == 0 {
        Seq::empty()
    } else {
        all_pieces(parts.drop_last()) + text::split_at_char(parts.last(), '\\')
    }
}

/// A text is taken apart at slashes and backslashes in two passes.
proof fn lemma_two_passes(s: Seq<char>)
    ensures
        text::pieces(s, '/', '\\') == all_pieces(text::split_at_char(s, '/')),
    decreases s.len(),
{
    let none = Seq::<char>::empty();
    let parts = text::split_at_char(s, '/');
    if s.len() == 0 {
        assert(parts =~= seq![s]);
        assert(parts.drop_last() =~= Seq::<Seq<char>>::empty());
        assert(text::split_at_char(s, '\\') =~= seq![none]);
        assert(all_pieces(parts.drop_last()).len() == 0);
        assert(all_pieces(parts) =~= seq![none]);
    } else {
        let t = s.drop_last();
        let before = text::split_at_char(t, '/');
        text::lemma_pieces_free(t, '/', '/');
        lemma_two_passes(t);
        if s.last() == '/' {
            assert(parts.drop_last() =~= before);
            assert(text::split_at_char(none, '\\') =~= seq![none]);
            assert(all_pieces(parts) =~= all_pieces(before).push(none));
        } else {
            let last = before.last();
            let more = last.push(s.last());
            assert(parts.drop_last() =~= before.drop_last());
            assert(more.drop_last() =~= last);
            text::lemma_pieces_free(last, '\\', '\\');
            let head = all_pieces(before.drop_last());
            let tail = text::split_at_char(last, '\\');
            assert(all_pieces(before) == head + tail);
            assert(all_pieces(parts) == head + text::split_at_char(more, '\\'));
            if s.last() == '\\' {
                assert(head + tail.push(none) =~= (head + tail).push(none));
            } else {
                assert((head + tail).last() == tail.last());
                assert(head + tail.drop_last().push(tail.last().push(s.last())) =~= (head
                    + tail).drop_last().push((head + tail).last().push(s.last())));
            }
        }
    }
}

/// The pieces of several texts are those of each of them.
proof fn lemma_all_pieces(parts: Seq<Seq<char>>, piece: Seq<char>)
    ensures
        all_pieces(parts).contains(piece) <==> exists|i: int|
            0 <= i < parts.len() && text::split_at_char(#[trigger] parts[i], '\\').contains(piece),
    decreases parts.len(),
{
    if parts.len() > 0 {
        let rest = parts.drop_last();
        let last = text::split_at_char(parts[parts.len() - 1], '\\');
        let all = all_pieces(parts);
        let head = all_pieces(rest);
        lemma_all_pieces(rest, piece);
        if all.contains(piece) {
            let k = choose|k: int| 0 <= k < all.len() && all[k] == piece;
            if k < head.len() {
                assert(head[k] == piece);
                let i = choose|i: int|
                    0 <= i < rest.len() && text::split_at_char(#[trigger] rest[i], '\\').contains(
                        piece,
                    );
                assert(text::split_at_char(parts[i], '\\').contains(piece));
            } else {
                assert(last[k - head.len()] == piece);
            }
        }
        if exists|i: int|
            0 <= i < parts.len() && text::split_at_char(#[trigger] parts[i], '\\').contains(piece) {
            let i = choose|i: int|
                0 <= i < parts.len() && text::split_at_char(#[trigger] parts[i], '\\').contains(
                    piece,
                );
            if i < rest.len() {
                assert(rest[i] == parts[i]);
                let k = choose|k: int| 0 <= k < head.len() && head[k] == piece;
                assert(all[k] == piece);
            } else {
                let k = choose|k: int| 0 <= k < last.len() && last[k] == piece;
                assert(all[head.len() + k] == piece);
            }
        }
    } else {
        assert(all_pieces(parts).len() == 0);
    }
}

/// Named components are among the pieces.
proof fn lemma_named_among(pieces: Seq<Seq<char>>, i: int)
    requires
        0 <= i < path::named_parts(pieces, true).len(),
    ensures
        pieces.contains(path::named_parts(pieces, true)[i]),
    decreases pieces.len(),
{
    let rest = pieces.drop_last();
    let before = path::named_parts(rest, true);
    let all = path::named_parts(pieces, true);
    if i < before.len() {
        lemma_named_among(rest, i);
        assert(all[i] == before[i]);
        let k = choose|k: int| 0 <= k < rest.len() && rest[k] == before[i];
        assert(pieces[k] == before[i]);
    } else {
        assert(pieces[pieces.len() - 1] == all[i]);
    }
}

/// A piece that leads upwards is a named component.
proof fn lemma_named_keeps(pieces: Seq<Seq<char>>, k: int)
    requires
        0 <= k < pieces.len(),
        pieces[k] == ".."@,
    ensures
        path::named_parts(pieces, true).contains(".."@),
    decreases pieces.len(),
{
    reveal_strlit(".");
    reveal_strlit("..");
    let all = path::named_parts(pieces, true);
    let rest = pieces.drop_last();
    let before = path::named_parts(rest, true);
    assert("."@ != ".."@) by {
        assert("."@.len() == 1 && ".."@.len() == 2);
    }
    if k < rest.len() {
        lemma_named_keeps(rest, k);
        let i = choose|i: int| 0 <= i < before.len() && before[i] == ".."@;
        assert(all[i] == ".."@);
    } else {
        assert(all.last() == ".."@);
        assert(all[all.len() - 1] == ".."@);
    }
}

/// The directory of a path that never leads upwards does not lead upwards either.
proof fn lemma_parent_never_up(host: Host, path: Seq<char>)
    requires
        never_up(path),
        entry_parts(host, path).len() > 0,
    ensures
        never_up(parent_text(entry_parts(host, path))),
{
    reveal_strlit("/");
    reveal_strlit("..");
    assert("/"@ =~= seq!['/']);
    let b = separator(host);
    let pieces = text::pieces(path, '/', b);
    let parts = entry_parts(host, path);
    let above = parts.drop_last();
    let dir = parent_text(parts);
    text::lemma_pieces_free(path, '/', b);
    assert forall|i: int| 0 <= i < parts.len() implies pieces.contains(#[trigger] parts[i])
        && !parts[i].contains('/') && !parts[i].contains(b) by {
        lemma_named_among(pieces, i);
        let k = choose|k: int| 0 <= k < pieces.len() && pieces[k] == parts[i];
        assert(!pieces[k].contains('/'));
    }
    if parts.len() == 1 {
        assert(dir =~= Seq::<char>::empty());
        assert(text::pieces(dir, '/', '\\') =~= seq![Seq::<char>::empty()]);
    } else {
        assert forall|i: int| 0 <= i < above.len() implies !(#[trigger] above[i]).contains('/') by {
            assert(above[i] == parts[i]);
        }
        text::lemma_split_joined(above, '/');
        lemma_two_passes(dir);
        lemma_all_pieces(above, ".."@);
        if all_pieces(above).contains(".."@) {
            let i = choose|i: int|
                0 <= i < above.len() && text::split_at_char(#[trigger] above[i], '\\').contains(
                    ".."@,
                );
            assert(above[i] == parts[i]);
            match host {
                Host::Posix => {
                    lemma_two_passes(path);
                    lemma_all_pieces(pieces, ".."@);
                    let k = choose|k: int| 0 <= k < pieces.len() && pieces[k] == parts[i];
                    assert(text::split_at_char(pieces[k], '\\').contains(".."@));
                },
                Host::Windows => {
                    let none = Seq::<char>::empty();
                    text::lemma_pieces_extend(none, parts[i], '\\');
                    assert(none + parts[i] =~= parts[i]);
                    assert(text::split_at_char(none, '\\') =~= seq![none]);
                    assert(text::split_at_char(parts[i], '\\') =~= seq![parts[i]]);
                },
            }
        }
    }
}

/// Components that never lead upwards lead into the directory that they start from,
/// and to the same place below any directory.
proof fn lemma_reached_below(host: Host, base: Seq<Seq<char>>, pieces: Seq<Seq<char>>)
    requires
        !pieces.contains(".."@),
    ensures
        winpath::reached(host, base, pieces) == base + winpath::reached(
            host,
            Seq::empty(),
            pieces,
        ),
    decreases pieces.len(),
{
    let none = Seq::<Seq<char>>::empty();
    if pieces.len() == 0 {
        assert(base + none =~= base);
    } else {
        assert forall|k: int| 0 <= k < pieces.drop_last().len() implies #[trigger] pieces.drop_last()[k]
            != ".."@ by {
            assert(pieces.contains(pieces[k]));
        }
        lemma_reached_below(host, base, pieces.drop_last());
        assert(pieces.contains(pieces.last()));
        assert(winpath::reached(host, base, pieces) =~= base + winpath::reached(
            host,
            none,
            pieces,
        ));
    }
}

/// A path that never leads upwards leads into the directory that it starts from.
proof fn lemma_pushed_below(host: Host, base: PathView, path: Seq<char>)
    requires
        never_up(path),
    ensures
        winpath::pushed(host, base, path).within(base),
        winpath::pushed(host, base, path).parts == base.parts + winpath::reached(
            host,
            Seq::empty(),
            text::pieces(path, '/', '\\'),
        ),
{
    lemma_reached_below(host, base.parts, text::pieces(path, '/', '\\'));
    assert(winpath::pushed(host, base, path).parts.take(base.parts.len() as int) =~= base.parts);
}

/// What is unpacked to a place in the root filesystem changes nothing outside it, but for
/// a directory on the way to it.
proof fn lemma_unpacks_inside(host: Host, rootfs: PathView, dest: PathView, e: RawView)
    requires
        dest.within(rootfs),
    ensures
        forall|i: int|
            0 <= i < unpack_steps(host, dest, e).len() ==> changes_inside(
                rootfs,
                (#[trigger] unpack_steps(host, dest, e)[i]).op,
            ),
{
    let n = rootfs.parts.len() as int;
    let up = PathView { anchor: dest.anchor, parts: dest.parts.drop_last() };
    assert(dest.parts.len() > 0 ==> up.within(rootfs) || rootfs.within(up)) by {
        if dest.parts.len() > n {
            assert(up.parts.take(n) =~= dest.parts.take(n));
        } else if dest.parts.len() > 0 {
            assert(dest.parts =~= rootfs.parts);
            assert(rootfs.parts.take(up.parts.len() as int) =~= up.parts);
        }
    }
    let steps = unpack_steps(host, dest, e);
    assert forall|i: int| 0 <= i < steps.len() implies changes_inside(
        rootfs,
        (#[trigger] steps[i]).op,
    ) by {
        assert(fs::target_of(steps[i].op) == dest || steps[i].op == FsOpView::CreateDirAll(up)
            && dest.parts.len() > 0);
    }
}

/// What unpacking an entry changes lies in the root filesystem, and so does the place
/// of a link: the entry has a path that is not safe, and asks for nothing, or it stays
/// inside. Only a directory on the way to the root filesystem may be created besides.
/// Left out are whiteouts of something that leads upwards itself, and on a Posix host
/// paths that lead upwards between backslashes: there a backslash separates nothing
/// until the path is put below the root filesystem.
pub proof fn entries_stay_inside(host: Host, rootfs: PathView, e: RawView)
    requires
        removes_below(host, e),
        host == Host::Posix ==> never_up(shown(e.path)),
    ensures
        forall|i: int|
            0 <= i < entry_plan(host, rootfs, e).0.len() ==> changes_inside(
                rootfs,
                (#[trigger] entry_plan(host, rootfs, e).0[i]).op,
            ),
        entry_plan(host, rootfs, e).1 matches Some(link) ==> link.dest.within(rootfs),
{
    let path = shown(e.path);
    let n = rootfs.parts.len() as int;
    if safe_path(host, path) {
        let parts = entry_parts(host, path);
        let dest = winpath::pushed(host, rootfs, path);
        assert(never_up(path)) by {
            let pieces = text::pieces(path, '/', '\\');
            if host == Host::Windows && pieces.contains(".."@) {
                let k = choose|k: int| 0 <= k < pieces.len() && pieces[k] == ".."@;
                lemma_named_keeps(pieces, k);
            }
        }
        lemma_pushed_below(host, rootfs, path);
        lemma_unpacks_inside(host, rootfs, dest, e);
        let dir = winpath::pushed(host, rootfs, parent_text(parts));
        if let Some(name) = entry_name(host, e.path) {
            lemma_parent_never_up(host, path);
            lemma_pushed_below(host, rootfs, parent_text(parts));
            if let Some(target) = text::after_prefix(name, overlay2::whiteout_prefix()) {
                let gone = winpath::pushed(host, dir, target);
                lemma_pushed_below(host, dir, target);
                assert(gone.parts.take(n) =~= dir.parts.take(n));
                assert(gone.within(rootfs));
            }
        }
    }
}

/// A link with an absolute target that never leads upwards leads to a place in the
/// root filesystem.
pub proof fn absolute_links_stay_inside(
    host: Host,
    rootfs: PathView,
    dest: PathView,
    target: Seq<char>,
)
    requires
        absolute_target(host, target),
        never_up(without_slashes(target)),
    ensures
        resolved_target(host, rootfs, dest, target).within(rootfs),
{
    lemma_pushed_below(host, rootfs, without_slashes(target));
}

} // verus!
