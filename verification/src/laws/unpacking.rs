//! What the entries of a layer do to a root filesystem.

use vstd::prelude::*;
use vstd::utf8::*;

use crate::archive::{self, PackView, RawView};
use crate::error::Error;
use crate::fs::{self, FsOpView, StepView};
use crate::laws::paths;
use crate::overlay2;
use crate::packing;
use crate::path::{self, PathView};
use crate::text;
use crate::tree::{self, Entry, Node};
use crate::unpack;
use crate::winpath::{self, Host};

verus! {

/// A step that has to succeed.
pub open spec fn required(op: FsOpView) -> StepView {
    StepView { op, required: true }
}

/// A step that may fail.
pub open spec fn attempted(op: FsOpView) -> StepView {
    StepView { op, required: false }
}

/// An entry at the path with these components.
pub open spec fn stands_at(host: Host, e: RawView, parts: Seq<Seq<char>>) -> bool {
    &&& parts.len() > 0
    &&& paths::components(parts)
    &&& e.path == encode_utf8(paths::slashed(parts))
    &&& host == Host::Windows ==> !parts[0].contains(':')
}

/// An id as it is recorded: the lowest 32 bits of what the layer states, else zero.
pub open spec fn low_bits(id: Option<u64>) -> u32 {
    match id {
        Some(n) => (n & 0xffff_ffff) as u32,
        None => 0,
    }
}

/// The host path of the components.
pub open spec fn host_path(host: Host, root: PathView, parts: Seq<Seq<char>>) -> PathView {
    PathView {
        anchor: root.anchor,
        parts: root.parts + parts.map_values(|c: Seq<char>| winpath::encoded(host, c)),
    }
}

/// A name that marks something as gone.
pub open spec fn marks(name: Seq<char>) -> bool {
    seq!['.', 'w', 'h', '.'].is_prefix_of(name)
}

proof fn lemma_named(parts: Seq<Seq<char>>)
    requires
        paths::components(parts),
    ensures
        path::named_parts(parts, true) == parts,
    decreases parts.len(),
{
    paths::lemma_dots();
    if parts.len() > 0 {
        let rest = parts.drop_last();
        assert forall|i: int| 0 <= i < rest.len() implies paths::component(
            #[trigger] rest[i],
        ) by {
            assert(rest[i] == parts[i]);
        }
        lemma_named(rest);
        assert(paths::component(parts[parts.len() - 1]));
        assert(rest.push(parts.last()) =~= parts);
    }
}

proof fn lemma_marks(name: Seq<char>)
    ensures
        marks(name) == text::has_prefix(name, overlay2::whiteout_prefix()),
        marks(name) ==> text::after_prefix(name, overlay2::whiteout_prefix()) == Some(name.skip(4)),
        !marks(name) ==> text::after_prefix(name, overlay2::whiteout_prefix()) is None && name
            != overlay2::opaque_name(),
{
    reveal_strlit(".wh.");
    reveal_strlit(".wh..wh..opq");
    assert(".wh."@ =~= seq!['.', 'w', 'h', '.']);
    if name == overlay2::opaque_name() {
        assert(name.take(4) =~= seq!['.', 'w', 'h', '.']);
    }
    if text::has_prefix(name, ".wh."@) {
        assert forall|i: int| 0 <= i < 4 implies seq!['.', 'w', 'h', '.'][i] == name[i] by {
            assert(name.take(4)[i] == name[i]);
        }
        assert(seq!['.', 'w', 'h', '.'] =~= name.subrange(0, 4));
    }
    if marks(name) {
        assert(name.take(4) =~= seq!['.', 'w', 'h', '.']);
    }
}

proof fn lemma_stands_at(host: Host, root: PathView, e: RawView, parts: Seq<Seq<char>>)
    requires
        stands_at(host, e, parts),
    ensures
        unpack::legible(host, e.path),
        unpack::shown(e.path) == paths::slashed(parts),
        unpack::entry_parts(host, paths::slashed(parts)) == parts,
        unpack::safe_path(host, paths::slashed(parts)),
        unpack::entry_name(host, e.path) == Some(parts.last()),
        winpath::pushed(host, root, unpack::shown(e.path)) == host_path(host, root, parts),
        host_path(host, root, parts).parent() == Some(host_path(host, root, parts.drop_last())),
        winpath::pushed(host, root, unpack::parent_text(parts)) == host_path(
            host,
            root,
            parts.drop_last(),
        ),
        host == Host::Posix ==> host_path(host, root, parts).parts == root.parts + parts,
        host_path(host, root, parts) != host_path(host, root, parts.drop_last()),
{
    let s = paths::slashed(parts);
    encode_utf8_valid_utf8(s);
    encode_utf8_decode_utf8(s);
    paths::lemma_slashed_pieces(parts);
    paths::relative_paths_lead_down(host, root, parts);
    lemma_named(parts);
    paths::lemma_dots();
    assert(!parts.contains(".."@)) by {
        if parts.contains(".."@) {
            let i = choose|i: int| 0 <= i < parts.len() && parts[i] == ".."@;
            assert(paths::component(parts[i]));
        }
    }
    if host == Host::Windows {
        assert(!unpack::rooted(host, s)) by {
            if s.len() >= 2 && s[1] == ':' {
                assert(paths::component(parts[0]));
                if parts[0].len() >= 2 {
                    assert(s[1] == parts[0][1]);
                    assert(parts[0].contains(parts[0][1]));
                } else {
                    if parts.len() == 1 {
                        assert(s == parts[0]);
                    } else {
                        assert(s[1] == '/');
                    }
                }
            }
        }
    }
    let rest = parts.drop_last();
    assert forall|i: int| 0 <= i < rest.len() implies paths::component(#[trigger] rest[i]) by {
        assert(rest[i] == parts[i]);
    }
    paths::lemma_slashed(rest);
    paths::relative_paths_lead_down(host, root, rest);
    let enc = parts.map_values(|c: Seq<char>| winpath::encoded(host, c));
    let less = rest.map_values(|c: Seq<char>| winpath::encoded(host, c));
    assert((root.parts + enc).drop_last() =~= root.parts + less);
    assert(host_path(host, root, parts).parts.len() != host_path(host, root, rest).parts.len());
    if host == Host::Posix {
        assert(enc =~= parts);
    }
}

/// A whole file is written with its contents where its path leads, in place of what
/// stood there, once its directory exists. On Posix its mode is set once, bit for bit
/// as the layer states it, and its owner is recorded; elsewhere neither is.
pub proof fn files_are_written_with_their_mode(
    host: Host,
    root: PathView,
    e: RawView,
    parts: Seq<Seq<char>>,
)
    requires
        stands_at(host, e, parts),
        !marks(parts.last()),
        e.flag == 48 || e.flag == 55,
        e.whole,
    ensures
        ({
            let (steps, link) = unpack::entry_plan(host, root, e);
            let dest = host_path(host, root, parts);
            let dir = host_path(host, root, parts.drop_last());
            let made = seq![
                required(FsOpView::CreateDirAll(dir)),
                required(FsOpView::Remove(dest)),
                required(FsOpView::Write(dest, e.data)),
            ];
            let owned = attempted(
                FsOpView::SetVirtualOwner(dest, low_bits(e.uid), low_bits(e.gid)),
            );
            &&& link is None
            &&& host == Host::Windows ==> steps == made
            &&& host == Host::Posix && e.mode is None ==> steps == made.push(owned)
            &&& host == Host::Posix && e.mode is Some ==> steps == made.push(
                attempted(FsOpView::SetPermissions(dest, e.mode->0)),
            ).push(owned)
            &&& host == Host::Posix && e.mode is Some ==> forall|i: int|
                0 <= i < steps.len() ==> ((#[trigger] steps[i]).op is SetPermissions
                    <==> steps[i].op == FsOpView::SetPermissions(dest, e.mode->0))
        }),
{
    let steps = unpack::entry_plan(host, root, e).0;
    let dest = host_path(host, root, parts);
    let dir = host_path(host, root, parts.drop_last());
    lemma_stands_at(host, root, e, parts);
    lemma_marks(parts.last());
    let made = seq![
        required(FsOpView::CreateDirAll(dir)),
        required(FsOpView::Remove(dest)),
        required(FsOpView::Write(dest, e.data)),
    ];
    lemma_low_bits(e.uid);
    lemma_low_bits(e.gid);
    let owned = attempted(FsOpView::SetVirtualOwner(dest, low_bits(e.uid), low_bits(e.gid)));
    assert(steps == unpack::unpack_steps(host, dest, e));
    match host {
        Host::Windows => {
            assert(steps =~= made);
        },
        Host::Posix => match e.mode {
            None => {
                assert(steps =~= made.push(owned));
            },
            Some(m) => {
                assert(steps =~= made.push(
                    attempted(FsOpView::SetPermissions(dest, m)),
                ).push(owned));
            },
        },
    }
}

proof fn lemma_low_bits(id: Option<u64>)
    ensures
        unpack::owner_id(id) == low_bits(id),
{
    if id is Some {
        let n = id->0;
        assert(n as u32 == (n & 0xffff_ffff) as u32) by (bit_vector);
    }
}

/// A directory is created where its path leads, and nothing is removed or written for
/// it.
pub proof fn directories_are_created(
    host: Host,
    root: PathView,
    e: RawView,
    parts: Seq<Seq<char>>,
)
    requires
        stands_at(host, e, parts),
        !marks(parts.last()),
        e.flag == 53,
    ensures
        ({
            let (steps, link) = unpack::entry_plan(host, root, e);
            let dest = host_path(host, root, parts);
            let made = seq![required(FsOpView::CreateDirAll(dest))];
            &&& link is None
            &&& host == Host::Windows ==> steps == made
            &&& host == Host::Posix ==> steps == made.push(
                attempted(FsOpView::SetVirtualOwner(dest, low_bits(e.uid), low_bits(e.gid))),
            )
        }),
{
    lemma_stands_at(host, root, e, parts);
    lemma_marks(parts.last());
    lemma_low_bits(e.uid);
    lemma_low_bits(e.gid);
}

/// A link with a target is made where its path leads, with the target as the layer
/// states it, once its directory exists and what stood there is gone.
pub proof fn links_are_made_with_their_target(
    host: Host,
    root: PathView,
    e: RawView,
    parts: Seq<Seq<char>>,
)
    requires
        stands_at(host, e, parts),
        !marks(parts.last()),
        e.flag == 49 || e.flag == 50,
        e.link matches Some(target) && target.len() > 0 && (host == Host::Posix || valid_utf8(
            target,
        )),
    ensures
        ({
            let (steps, link) = unpack::entry_plan(host, root, e);
            let dest = host_path(host, root, parts);
            &&& link matches Some(l) && l.dest == dest && l.target == e.link->0
            &&& steps == seq![
                required(
                    FsOpView::CreateDirAll(host_path(host, root, parts.drop_last())),
                ),
                required(FsOpView::Remove(dest)),
            ]
        }),
{
    lemma_stands_at(host, root, e, parts);
    lemma_marks(parts.last());
}

/// A whiteout removes what its name speaks of from its directory, and does nothing
/// else; the opaque marker empties its directory.
pub proof fn whiteouts_remove(
    host: Host,
    root: PathView,
    e: RawView,
    parts: Seq<Seq<char>>,
    name: Seq<char>,
)
    requires
        stands_at(host, e, parts),
        parts.last() == seq!['.', 'w', 'h', '.'] + name,
        paths::component(name),
    ensures
        ({
            let (steps, link) = unpack::entry_plan(host, root, e);
            let dir = host_path(host, root, parts.drop_last());
            &&& link is None
            &&& name != seq!['.', 'w', 'h', '.', '.', 'o', 'p', 'q'] ==> steps == seq![
                required(
                    FsOpView::Remove(host_path(host, root, parts.drop_last().push(name))),
                ),
            ]
            &&& name == seq!['.', 'w', 'h', '.', '.', 'o', 'p', 'q'] ==> steps == seq![
                required(FsOpView::ClearDirectory(dir)),
            ]
        }),
{
    let dir = host_path(host, root, parts.drop_last());
    lemma_stands_at(host, root, e, parts);
    lemma_marks(parts.last());
    let last = parts.last();
    assert(seq!['.', 'w', 'h', '.'] =~= last.subrange(0, 4));
    assert(last.skip(4) =~= name);
    reveal_strlit(".wh..wh..opq");
    let marker = seq!['.', 'w', 'h', '.', '.', 'o', 'p', 'q'];
    assert(overlay2::opaque_name() =~= seq!['.', 'w', 'h', '.'] + marker);
    assert(overlay2::opaque_name().skip(4) =~= marker);
    let one = seq![name];
    assert forall|i: int| 0 <= i < one.len() implies paths::component(#[trigger] one[i]) by {}
    paths::relative_paths_lead_down(host, dir, one);
    assert(paths::slashed(one) == name);
    let rest = parts.drop_last();
    assert(fs::below(dir, one.map_values(|c: Seq<char>| winpath::encoded(host, c))).parts
        =~= host_path(host, root, rest.push(name)).parts);
}

/// An entry whose path starts at the root or leads upwards is passed over.
pub proof fn paths_that_lead_out_are_passed_over(
    host: Host,
    root: PathView,
    e: RawView,
    parts: Seq<Seq<char>>,
    k: int,
)
    requires
        forall|i: int|
            0 <= i < parts.len() ==> (#[trigger] parts[i]).len() > 0 && !parts[i].contains('/')
                && !parts[i].contains('\\') && parts[i] != seq!['.'],
        e.path == encode_utf8(seq!['/'] + paths::slashed(parts)) || e.path == encode_utf8(
            paths::slashed(parts),
        ) && 0 <= k < parts.len() && parts[k] == seq!['.', '.'],
    ensures
        unpack::entry_plan(host, root, e).0.len() == 0,
        unpack::entry_plan(host, root, e).1 is None,
{
    let s = paths::slashed(parts);
    let r = seq!['/'] + s;
    encode_utf8_valid_utf8(s);
    encode_utf8_decode_utf8(s);
    encode_utf8_valid_utf8(r);
    encode_utf8_decode_utf8(r);
    if e.path == encode_utf8(r) {
        assert(unpack::shown(e.path) == r);
        assert(r[0] == '/');
    } else {
        paths::lemma_dots();
        paths::lemma_slashed(parts);
        text::lemma_split_joined(parts, '/');
        paths::lemma_slashed_free(parts, '\\');
        paths::lemma_no_backslash(s);
        lemma_all_named(parts);
        assert(unpack::entry_parts(host, s) == parts);
        assert(parts.contains(parts[k]));
    }
}

proof fn lemma_all_named(parts: Seq<Seq<char>>)
    requires
        forall|i: int| 0 <= i < parts.len() ==> (#[trigger] parts[i]).len() > 0 && parts[i] != "."@,
    ensures
        path::named_parts(parts, true) == parts,
    decreases parts.len(),
{
    if parts.len() > 0 {
        let rest = parts.drop_last();
        assert forall|i: int| 0 <= i < rest.len() implies (#[trigger] rest[i]).len() > 0 && rest[i]
            != "."@ by {
            assert(rest[i] == parts[i]);
        }
        lemma_all_named(rest);
        assert(parts[parts.len() - 1] == parts.last());
        assert(rest.push(parts.last()) =~= parts);
    }
}

/// Devices, pipes and whatever else is neither directory, file nor link are passed
/// over, whatever their path, unless they are whiteouts.
pub proof fn special_files_are_passed_over(host: Host, root: PathView, e: RawView)
    requires
        e.flag != 48,
        e.flag != 49,
        e.flag != 50,
        e.flag != 53,
        e.flag != 55,
        unpack::unpacks(host, e),
    ensures
        unpack::entry_plan(host, root, e).0.len() == 0,
        unpack::entry_plan(host, root, e).1 is None,
{
}

// ---------------------------------------------------------------------------
// Modes
// ---------------------------------------------------------------------------

/// What is known of the file at `p` after steps in a row: whether one was written there
/// and not removed since, and the mode that was set for it since.
pub open spec fn file_after(
    before: Option<Option<u32>>,
    steps: Seq<StepView>,
    p: PathView,
) -> Option<Option<u32>>
    decreases steps.len(),
{
    if steps.len() == 0 {
        before
    } else {
        let now = file_after(before, steps.drop_last(), p);
        match steps.last().op {
            FsOpView::Write(q, _) if q == p => Some(None),
            FsOpView::Remove(q) if q == p => None,
            FsOpView::SetPermissions(q, m) if q == p => if now is Some {
                Some(Some(m))
            } else {
                None
            },
            _ => now,
        }
    }
}

/// What is known of the file at `p` after the entries of a layer.
pub open spec fn file_after_layer(host: Host, root: PathView, layer: Seq<RawView>, p: PathView)
    -> Option<Option<u32>>
    decreases layer.len(),
{
    if layer.len() == 0 {
        None
    } else {
        file_after(
            file_after_layer(host, root, layer.drop_last(), p),
            unpack::entry_plan(host, root, layer.last()).0,
            p,
        )
    }
}

/// One step more.
proof fn lemma_after(before: Option<Option<u32>>, steps: Seq<StepView>, s: StepView, p: PathView)
    ensures
        file_after(before, steps.push(s), p) == ({
            let now = file_after(before, steps, p);
            match s.op {
                FsOpView::Write(q, _) if q == p => Some(None),
                FsOpView::Remove(q) if q == p => None,
                FsOpView::SetPermissions(q, m) if q == p => if now is Some {
                    Some(Some(m))
                } else {
                    None
                },
                _ => now,
            }
        }),
{
    assert(steps.push(s).drop_last() =~= steps);
    assert(steps.push(s).last() == s);
}

/// What unpacking a file leaves behind.
proof fn lemma_unpacked_file(
    before: Option<Option<u32>>,
    dest: PathView,
    e: RawView,
    p: PathView,
)
    requires
        e.flag == 48 || e.flag == 55,
        e.whole,
        e.mode is Some,
    ensures
        file_after(before, unpack::unpack_steps(Host::Posix, dest, e), p) == if p == dest {
            Some(e.mode)
        } else {
            before
        },
{
    let steps = unpack::unpack_steps(Host::Posix, dest, e);
    let s0 = unpack::parent_dir(dest);
    let s1 = s0.push(required(FsOpView::Remove(dest)));
    let s2 = s1.push(required(FsOpView::Write(dest, e.data)));
    let s3 = s2.push(attempted(FsOpView::SetPermissions(dest, e.mode->0)));
    let o = attempted(
        FsOpView::SetVirtualOwner(dest, unpack::owner_id(e.uid), unpack::owner_id(e.gid)),
    );
    assert(steps =~= s3.push(o));
    let none = Seq::<StepView>::empty();
    match dest.parent() {
        Some(dir) => {
            assert(s0 =~= none.push(required(FsOpView::CreateDirAll(dir))));
            lemma_after(before, none, required(FsOpView::CreateDirAll(dir)), p);
        },
        None => {},
    }
    assert(file_after(before, s0, p) == before);
    lemma_after(before, s0, required(FsOpView::Remove(dest)), p);
    lemma_after(before, s1, required(FsOpView::Write(dest, e.data)), p);
    lemma_after(before, s2, attempted(FsOpView::SetPermissions(dest, e.mode->0)), p);
    lemma_after(before, s3, o, p);
}

/// What unpacking anything else leaves behind.
proof fn lemma_unpacked_rest(before: Option<Option<u32>>, dest: PathView, e: RawView, p: PathView)
    requires
        e.flag != 48,
        e.flag != 55,
    ensures
        ({
            let now = file_after(before, unpack::unpack_steps(Host::Posix, dest, e), p);
            now == before || now is None
        }),
{
    let steps = unpack::unpack_steps(Host::Posix, dest, e);
    assert(steps.len() <= 2);
    assert(forall|i: int|
        0 <= i < steps.len() ==> (#[trigger] steps[i]).op is CreateDirAll || steps[i].op is Remove
            || steps[i].op is SetVirtualOwner);
    lemma_harmless(before, steps, p);
}

/// Steps that write nothing and set no mode.
proof fn lemma_harmless(before: Option<Option<u32>>, steps: Seq<StepView>, p: PathView)
    requires
        forall|i: int|
            0 <= i < steps.len() ==> !((#[trigger] steps[i]).op is Write) && !(
            steps[i].op is SetPermissions),
    ensures
        file_after(before, steps, p) == before || file_after(before, steps, p) is None,
    decreases steps.len(),
{
    if steps.len() > 0 {
        let rest = steps.drop_last();
        assert forall|i: int| 0 <= i < rest.len() implies !((#[trigger] rest[i]).op is Write) && !(
        rest[i].op is SetPermissions) by {
            assert(rest[i] == steps[i]);
        }
        lemma_harmless(before, rest, p);
        assert(steps.last() == steps[steps.len() - 1]);
    }
}

/// What one entry leaves behind.
proof fn lemma_file_after(root: PathView, e: RawView, before: Option<Option<u32>>, p: PathView)
    requires
        (e.flag == 48 || e.flag == 55) ==> e.whole && e.mode is Some,
    ensures
        ({
            let now = file_after(before, unpack::entry_plan(Host::Posix, root, e).0, p);
            ||| now == before
            ||| now is None
            ||| now == Some(e.mode) && (e.flag == 48 || e.flag == 55) && p == winpath::pushed(
                Host::Posix,
                root,
                unpack::shown(e.path),
            )
        }),
{
    let steps = unpack::entry_plan(Host::Posix, root, e).0;
    let dest = winpath::pushed(Host::Posix, root, unpack::shown(e.path));
    if steps == unpack::unpack_steps(Host::Posix, dest, e) {
        if e.flag == 48 || e.flag == 55 {
            lemma_unpacked_file(before, dest, e, p);
        } else {
            lemma_unpacked_rest(before, dest, e, p);
        }
    } else {
        lemma_harmless(before, steps, p);
    }
}

/// On Posix every file that a layer leaves behind has the mode that an entry of the
/// layer states for it, where every file of the layer is whole and states one.
pub proof fn files_keep_the_mode_of_their_entry(root: PathView, layer: Seq<RawView>, p: PathView)
    requires
        forall|i: int|
            0 <= i < layer.len() && ((#[trigger] layer[i]).flag == 48 || layer[i].flag == 55)
                ==> layer[i].whole && layer[i].mode is Some,
        file_after_layer(Host::Posix, root, layer, p) is Some,
    ensures
        exists|i: int|
            {
                &&& 0 <= i < layer.len()
                &&& (#[trigger] layer[i]).flag == 48 || layer[i].flag == 55
                &&& winpath::pushed(Host::Posix, root, unpack::shown(layer[i].path)) == p
                &&& file_after_layer(Host::Posix, root, layer, p) == Some(layer[i].mode)
            },
    decreases layer.len(),
{
    let host = Host::Posix;
    if layer.len() > 0 {
        let rest = layer.drop_last();
        let e = layer[layer.len() - 1];
        let before = file_after_layer(host, root, rest, p);
        let now = file_after_layer(host, root, layer, p);
        assert(layer.last() == e);
        assert((e.flag == 48 || e.flag == 55) ==> e.whole && e.mode is Some);
        lemma_file_after(root, e, before, p);
        if now == before {
            assert forall|i: int|
                0 <= i < rest.len() && ((#[trigger] rest[i]).flag == 48 || rest[i].flag
                    == 55) implies rest[i].whole && rest[i].mode is Some by {
                assert(rest[i] == layer[i]);
            }
            files_keep_the_mode_of_their_entry(root, rest, p);
            let i = choose|i: int|
                {
                    &&& 0 <= i < rest.len()
                    &&& (#[trigger] rest[i]).flag == 48 || rest[i].flag == 55
                    &&& winpath::pushed(host, root, unpack::shown(rest[i].path)) == p
                    &&& before == Some(rest[i].mode)
                };
            assert(rest[i] == layer[i]);
        }
    }
}

/// The last entry for a path decides its mode: after a whole file with a mode has been
/// unpacked on Posix, the file at its path has that mode.
pub proof fn the_last_entry_decides_the_mode(
    root: PathView,
    layer: Seq<RawView>,
    e: RawView,
    parts: Seq<Seq<char>>,
)
    requires
        stands_at(Host::Posix, e, parts),
        !marks(parts.last()),
        e.flag == 48 || e.flag == 55,
        e.whole,
        e.mode is Some,
    ensures
        file_after_layer(
            Host::Posix,
            root,
            layer.push(e),
            PathView { anchor: root.anchor, parts: root.parts + parts },
        ) == Some(e.mode),
{
    let host = Host::Posix;
    let dest = PathView { anchor: root.anchor, parts: root.parts + parts };
    lemma_stands_at(host, root, e, parts);
    lemma_marks(parts.last());
    assert(host_path(host, root, parts) == dest);
    let before = file_after_layer(host, root, layer, dest);
    assert(layer.push(e).drop_last() =~= layer);
    assert(layer.push(e).last() == e);
    lemma_unpacked_file(before, dest, e, dest);
}

/// Every packed file is whole and readable by all, writable by its owner; every packed
/// directory can be entered by all. The type flags are those of files and directories.
pub proof fn packed_entries_have_modes(entries: Seq<Entry>, prefix: Seq<Seq<char>>, i: int)
    requires
        0 <= i < archive::packed_entries(entries, prefix).len(),
    ensures
        ({
            let e = archive::packed_entries(entries, prefix)[i];
            ||| e.flag == 48 && e.mode == 0o644
            ||| e.flag == 53 && e.mode == 0o755 && e.data.len() == 0
        }),
    decreases entries,
{
    if entries.len() > 0 {
        let rest = entries.drop_last();
        let before = archive::packed_entries(rest, prefix);
        let last = entries[entries.len() - 1];
        assert(last == entries.last());
        let one = archive::packed_one(last, prefix);
        assert(archive::packed_entries(entries, prefix) == before + one);
        if i < before.len() {
            packed_entries_have_modes(rest, prefix, i);
        } else {
            let k = i - before.len();
            assert((before + one)[i] == one[k]);
            match last.node {
                Node::Dir { entries: inner } => {
                    let rel = prefix.push(last.name@);
                    if k > 0 {
                        assert(one[k] == archive::packed_entries(inner@, rel)[k - 1]);
                        packed_entries_have_modes(inner@, rel, k - 1);
                    }
                },
                _ => {},
            }
        }
    }
}

/// A root filesystem that is packed and unpacked on Posix leaves every file with the
/// mode it was packed with, readable by all and writable by its owner.
pub proof fn packed_files_come_back_with_their_mode(
    root: PathView,
    entries: Seq<Entry>,
    p: PathView,
)
    requires
        file_after_layer(
            Host::Posix,
            root,
            archive::packed_entries(entries, Seq::empty()).map_values(
                |e: PackView| archive::unpacked(e),
            ),
            p,
        ) is Some,
    ensures
        file_after_layer(
            Host::Posix,
            root,
            archive::packed_entries(entries, Seq::empty()).map_values(
                |e: PackView| archive::unpacked(e),
            ),
            p,
        ) == Some(Some(0o644u32)),
{
    let packed = archive::packed_entries(entries, Seq::empty());
    let layer = packed.map_values(|e: PackView| archive::unpacked(e));
    assert forall|i: int|
        0 <= i < layer.len() && ((#[trigger] layer[i]).flag == 48 || layer[i].flag
            == 55) implies layer[i].whole && layer[i].mode == Some(0o644u32) by {
        packed_entries_have_modes(entries, Seq::empty(), i);
        assert(layer[i] == archive::unpacked(packed[i]));
    }
    files_keep_the_mode_of_their_entry(root, layer, p);
}

/// The last component of a path of bytes is what stands behind its last separator.
pub proof fn last_components_stand_behind_the_last_separator(
    host: Host,
    dir: Seq<u8>,
    name: Seq<u8>,
)
    requires
        name.len() > 0,
        name != seq![46u8],
        forall|i: int|
            0 <= i < name.len() ==> #[trigger] name[i] != 47 && (host == Host::Windows ==> name[i]
                != 92),
    ensures
        unpack::last_component(host, dir.push(47) + name) == name,
        unpack::last_component(host, name) == name,
        host == Host::Windows ==> unpack::last_component(host, dir.push(92) + name) == name,
{
    let none = Seq::<u8>::empty();
    lemma_bytes_behind(host, dir.push(47), name);
    lemma_bytes_behind(host, dir.push(92), name);
    lemma_bytes_behind(host, none, name);
    assert(none + name =~= name);
    assert(dir.push(47).last() == 47);
    assert(dir.push(92).last() == 92);
    assert(none + name =~= name);
}

/// Bytes that are no separators are added to the last piece.
proof fn lemma_bytes_behind(host: Host, front: Seq<u8>, name: Seq<u8>)
    requires
        front.len() == 0 || unpack::separates(host, front.last()) || host == Host::Posix,
        forall|i: int|
            0 <= i < name.len() ==> #[trigger] name[i] != 47 && (host == Host::Windows ==> name[i]
                != 92),
    ensures
        unpack::byte_parts(host, front + name).len() > 0,
        front.len() == 0 || unpack::separates(host, front.last()) ==> unpack::byte_parts(
            host,
            front + name,
        ).last() == name,
    decreases name.len(),
{
    if name.len() == 0 {
        assert(front + name =~= front);
        assert(name =~= Seq::<u8>::empty());
        lemma_some_bytes(host, front);
    } else {
        let less = name.drop_last();
        assert forall|i: int| 0 <= i < less.len() implies #[trigger] less[i] != 47 && (host
            == Host::Windows ==> less[i] != 92) by {
            assert(less[i] == name[i]);
        }
        lemma_bytes_behind(host, front, less);
        let all = front + name;
        assert(all.drop_last() =~= front + less);
        assert(all.last() == name[name.len() - 1]);
        assert(less.push(name.last()) =~= name);
    }
}

proof fn lemma_some_bytes(host: Host, path: Seq<u8>)
    ensures
        unpack::byte_parts(host, path).len() > 0,
    decreases path.len(),
{
    if path.len() > 0 {
        lemma_some_bytes(host, path.drop_last());
    }
}

/// On Windows a path that starts at a drive or with a backslash is passed over.
pub proof fn drives_are_passed_over(root: PathView, e: RawView, letter: char, rest: Seq<char>)
    requires
        'a' <= letter <= 'z' || 'A' <= letter <= 'Z',
        e.path == encode_utf8(seq![letter, ':'] + rest) || e.path == encode_utf8(
            seq!['\\'] + rest,
        ),
    ensures
        unpack::entry_plan(Host::Windows, root, e).0.len() == 0,
        unpack::entry_plan(Host::Windows, root, e).1 is None,
{
    let a = seq![letter, ':'] + rest;
    let b = seq!['\\'] + rest;
    encode_utf8_valid_utf8(a);
    encode_utf8_decode_utf8(a);
    encode_utf8_valid_utf8(b);
    encode_utf8_decode_utf8(b);
    assert(a[0] == letter && a[1] == ':');
    assert(b[0] == '\\');
}

/// Whatever its path, a whole file that is unpacked on Posix and states a mode gets that
/// mode, bit for bit and once, at the place where it is written.
pub proof fn whole_files_get_their_mode(root: PathView, e: RawView)
    requires
        unpack::unpacks(Host::Posix, e),
        e.flag == 48 || e.flag == 55,
        e.whole,
        e.mode is Some,
    ensures
        ({
            let steps = unpack::entry_plan(Host::Posix, root, e).0;
            exists|dest: PathView, k: int|
                {
                    &&& 0 < k < steps.len()
                    &&& #[trigger] steps[k] == attempted(
                        #[trigger] set_mode(dest, e.mode->0),
                    )
                    &&& steps[k - 1] == required(FsOpView::Write(dest, e.data))
                    &&& forall|i: int|
                        0 <= i < steps.len() && i != k ==> !((
                        #[trigger] steps[i]).op is SetPermissions)
                }
        }),
{
    let steps = unpack::entry_plan(Host::Posix, root, e).0;
    let dest = winpath::pushed(Host::Posix, root, unpack::shown(e.path));
    assert(steps == unpack::unpack_steps(Host::Posix, dest, e));
    let k = steps.len() - 2;
    assert(steps[k] == attempted(set_mode(dest, e.mode->0)));
    assert(steps[k - 1] == required(FsOpView::Write(dest, e.data)));
}

/// The setting of a mode.
pub open spec fn set_mode(p: PathView, m: u32) -> FsOpView {
    FsOpView::SetPermissions(p, m)
}

/// From the bytes on: the layer that a root filesystem is packed into leaves every file
/// that it puts down on Posix readable by all and writable by its owner.
pub proof fn packed_layers_come_back_with_their_mode(
    root: PathView,
    entries: Seq<Entry>,
    packed: Result<Vec<u8>, Error>,
    p: PathView,
)
    requires
        tree::distinct(entries),
        packing::packable(Host::Posix, entries),
        archive::packed_rootfs(packed, Host::Posix, entries),
        packed is Ok,
        file_after_layer(Host::Posix, root, archive::tar_listing(packed->Ok_0@).0, p) is Some,
    ensures
        file_after_layer(Host::Posix, root, archive::tar_listing(packed->Ok_0@).0, p) == Some(
            Some(0o644u32),
        ),
{
    let all = archive::packed_entries(entries, Seq::empty());
    packing::packed_files_come_back(Host::Posix, root, entries);
    let listing = archive::tar_listing(packed->Ok_0@);
    assert(listing.0 =~= all.map_values(|e: PackView| archive::unpacked(e)));
    packed_files_come_back_with_their_mode(root, entries, p);
}

// ---------------------------------------------------------------------------
// Other ways to write a path
// ---------------------------------------------------------------------------

/// What a path can have in front: nothing, or a dot and a slash.
spec fn leading(dotted: bool) -> Seq<Seq<char>> {
    if dotted {
        seq![seq!['.']]
    } else {
        Seq::empty()
    }
}

/// The path with these components, with or without `./` in front of it.
pub open spec fn written(dotted: bool, parts: Seq<Seq<char>>) -> Seq<char> {
    if dotted {
        seq!['.', '/'] + paths::slashed(parts)
    } else {
        paths::slashed(parts)
    }
}

proof fn lemma_reached_from(
    host: Host,
    base: Seq<Seq<char>>,
    dotted: bool,
    parts: Seq<Seq<char>>,
)
    requires
        paths::components(parts),
    ensures
        winpath::reached(host, base, leading(dotted) + parts) == base + parts.map_values(
            |c: Seq<char>| winpath::encoded(host, c),
        ),
    decreases parts.len(),
{
    paths::lemma_dots();
    let front = leading(dotted);
    let all = front + parts;
    let names = parts.map_values(|c: Seq<char>| winpath::encoded(host, c));
    if parts.len() == 0 {
        let none = Seq::<Seq<char>>::empty();
        assert(all =~= front);
        assert(winpath::reached(host, base, none) == base);
        if dotted {
            assert(front.drop_last() =~= none);
            assert(front.last() == seq!['.']);
        } else {
            assert(front =~= none);
        }
        assert(winpath::reached(host, base, front) == base);
        assert(base + names =~= base);
    } else {
        let rest = parts.drop_last();
        assert forall|i: int| 0 <= i < rest.len() implies paths::component(#[trigger] rest[i]) by {
            assert(rest[i] == parts[i]);
        }
        lemma_reached_from(host, base, dotted, rest);
        assert(all.drop_last() =~= front + rest);
        assert(all.last() == parts.last());
        assert(paths::component(parts[parts.len() - 1]));
        assert(base + names =~= (base + rest.map_values(
            |c: Seq<char>| winpath::encoded(host, c),
        )).push(winpath::encoded(host, parts.last())));
    }
}

/// The pieces of a path that is written in one of these ways.
proof fn lemma_written_pieces(dotted: bool, parts: Seq<Seq<char>>, b: char)
    requires
        paths::components(parts),
        parts.len() > 0,
        b == '/' || b == '\\',
    ensures
        text::pieces(written(dotted, parts), '/', b) == leading(dotted) + parts,
        text::pieces(written(dotted, parts).push('/'), '/', b) == (leading(dotted) + parts).push(
            Seq::empty(),
        ),
        written(dotted, parts).len() > 0,
        written(dotted, parts)[0] != '/',
        written(dotted, parts)[0] != '\\',
{
    let s = paths::slashed(parts);
    let t = written(dotted, parts);
    let dot = seq!['.'];
    paths::lemma_slashed_pieces(parts);
    assert forall|i: int| 0 <= i < parts.len() implies !(#[trigger] parts[i]).contains('\\') by {
        assert(paths::component(parts[i]));
    }
    paths::lemma_slashed_free(parts, '\\');
    if dotted {
        assert(t =~= dot + seq!['/'] + s);
        assert(!dot.contains('/'));
        text::lemma_split_at_first(dot, '/', s);
        assert(!t.contains('\\')) by {
            if t.contains('\\') {
                let k = choose|k: int| 0 <= k < t.len() && t[k] == '\\';
                assert(k >= 2);
                assert(s[k - 2] == '\\');
            }
        }
    } else {
        assert(leading(dotted) + parts =~= parts);
    }
    paths::lemma_no_backslash(t);
    assert(text::pieces(t, '/', b) == leading(dotted) + parts);
    assert(t.push('/').drop_last() =~= t);
}

/// The components of a path that is written in one of these ways.
proof fn lemma_written_parts(dotted: bool, parts: Seq<Seq<char>>)
    requires
        paths::components(parts),
    ensures
        path::named_parts(leading(dotted) + parts, true) == leading(dotted) + parts,
        path::named_parts((leading(dotted) + parts).push(Seq::empty()), true) == leading(dotted)
            + parts,
    decreases parts.len(),
{
    paths::lemma_dots();
    let front = leading(dotted);
    let all = front + parts;
    let none = Seq::<Seq<char>>::empty();
    if parts.len() == 0 {
        assert(all =~= front);
        assert(path::named_parts(none, true) =~= none);
        if dotted {
            assert(front.drop_last() =~= none);
            assert(none.push(front.last()) =~= front);
        } else {
            assert(front =~= none);
        }
    } else {
        let rest = parts.drop_last();
        assert forall|i: int| 0 <= i < rest.len() implies paths::component(#[trigger] rest[i]) by {
            assert(rest[i] == parts[i]);
        }
        lemma_written_parts(dotted, rest);
        assert(all.drop_last() =~= front + rest);
        assert(all.last() == parts.last());
        assert(paths::component(parts[parts.len() - 1]));
        assert((front + rest).push(parts.last()) =~= all);
    }
    assert(all.push(Seq::empty()).drop_last() =~= all);
}

/// `./` in front of a path and a slash behind it make no difference to what an entry
/// does.
pub proof fn dots_and_slashes_around_a_path_make_no_difference(
    host: Host,
    root: PathView,
    e: RawView,
    parts: Seq<Seq<char>>,
    dotted: bool,
    slash: bool,
)
    requires
        parts.len() > 0,
        paths::components(parts),
        host == Host::Windows ==> !parts[0].contains(':'),
        e.path == encode_utf8(
            if slash {
                written(dotted, parts).push('/')
            } else {
                written(dotted, parts)
            },
        ),
    ensures
        unpack::entry_plan(host, root, e) == unpack::entry_plan(
            host,
            root,
            RawView { path: encode_utf8(paths::slashed(parts)), ..e },
        ),
{
    let plain = RawView { path: encode_utf8(paths::slashed(parts)), ..e };
    let t = if slash {
        written(dotted, parts).push('/')
    } else {
        written(dotted, parts)
    };
    encode_utf8_valid_utf8(t);
    encode_utf8_decode_utf8(t);
    lemma_stands_at(host, root, plain, parts);
    lemma_written_pieces(dotted, parts, '/');
    lemma_written_pieces(dotted, parts, '\\');
    lemma_written_parts(dotted, parts);
    lemma_reached_from(host, root.parts, dotted, parts);
    paths::lemma_dots();
    let all = leading(dotted) + parts;
    let ended = all.push(Seq::<char>::empty());
    assert(ended.drop_last() =~= all);
    // The components and the file name.
    assert(unpack::entry_parts(host, t) == all);
    assert(all.last() == parts.last());
    assert(!all.contains(".."@)) by {
        if all.contains(".."@) {
            let i = choose|i: int| 0 <= i < all.len() && all[i] == ".."@;
            let k = i - leading(dotted).len();
            if k >= 0 {
                assert(paths::component(parts[k]));
                assert(all[i] == parts[k]);
            } else {
                assert(all[i] == seq!['.']);
                assert(all[i].len() == 1);
            }
        }
    }
    lemma_no_drive(host, dotted, parts);
    assert(!unpack::rooted(host, t)) by {
        if t.len() >= 2 && written(dotted, parts).len() >= 2 {
            assert(t[1] == written(dotted, parts)[1]);
        } else if t.len() >= 2 {
            assert(t[1] == '/');
        }
    }
    // Where it goes.
    assert(winpath::pushed(host, root, t).parts == root.parts + parts.map_values(
        |c: Seq<char>| winpath::encoded(host, c),
    ));
    // Its directory.
    let rest = parts.drop_last();
    assert forall|i: int| 0 <= i < rest.len() implies paths::component(#[trigger] rest[i]) by {
        assert(rest[i] == parts[i]);
    }
    assert(all.drop_last() =~= leading(dotted) + rest);
    lemma_parent(host, root, dotted, rest);
}

proof fn lemma_no_drive(host: Host, dotted: bool, parts: Seq<Seq<char>>)
    requires
        parts.len() > 0,
        paths::components(parts),
        host == Host::Windows ==> !parts[0].contains(':'),
    ensures
        host == Host::Windows && written(dotted, parts).len() >= 2 ==> !(unpack::drive_letter(
            written(dotted, parts)[0],
        ) && written(dotted, parts)[1] == ':'),
{
    let s = written(dotted, parts);
    if host == Host::Windows && s.len() >= 2 && s[1] == ':' && !dotted {
        assert(paths::component(parts[0]));
        if parts[0].len() >= 2 {
            assert(s[1] == parts[0][1]);
            assert(parts[0].contains(parts[0][1]));
        } else if parts.len() == 1 {
            assert(s == parts[0]);
        } else {
            assert(s[1] == '/');
        }
    }
}

/// The directory of a path that is written in one of these ways.
proof fn lemma_parent(host: Host, root: PathView, dotted: bool, rest: Seq<Seq<char>>)
    requires
        paths::components(rest),
    ensures
        winpath::pushed(host, root, text::joined(leading(dotted) + rest, "/"@)) == host_path(
            host,
            root,
            rest,
        ),
{
    paths::lemma_dots();
    let all = leading(dotted) + rest;
    if !dotted {
        assert(all =~= rest);
        paths::lemma_slashed(rest);
        paths::relative_paths_lead_down(host, root, rest);
    } else {
        let dot = seq!['.'];
        assert forall|i: int| 0 <= i < all.len() implies !(#[trigger] all[i]).contains('/')
            && !all[i].contains('\\') by {
            if i > 0 {
                assert(all[i] == rest[i - 1]);
                assert(paths::component(rest[i - 1]));
            } else {
                assert(all[i] == dot);
            }
        }
        paths::lemma_slashed(all);
        text::lemma_split_joined(all, '/');
        paths::lemma_slashed_free(all, '\\');
        paths::lemma_no_backslash(paths::slashed(all));
        lemma_reached_from(host, root.parts, dotted, rest);
        assert(winpath::pushed(host, root, paths::slashed(all)).parts == host_path(
            host,
            root,
            rest,
        ).parts);
    }
}

} // verus!
