//! Where links lead.

use vstd::prelude::*;
use vstd::utf8::*;

use crate::fs::FsOpView;
use crate::laws::paths;
use crate::layer_cache::{self, LowerLink};
use crate::path::{self, PathView};
use crate::text;
use crate::tree::Entry;
use crate::unpack::{self, LinkView};
use crate::winpath::{self, Host};

verus! {

/// A link with a relative target leads on from the directory it stands in.
pub proof fn relative_links_lead_on_from_their_directory(
    host: Host,
    rootfs: PathView,
    dest: PathView,
    parts: Seq<Seq<char>>,
)
    requires
        paths::components(parts),
        parts.len() > 0,
        !parts[0].contains(':'),
        dest.parts.len() > 0,
    ensures
        unpack::resolved_target(host, rootfs, dest, paths::slashed(parts)) == (PathView {
            anchor: dest.anchor,
            parts: dest.parts.drop_last() + parts.map_values(
                |c: Seq<char>| winpath::encoded(host, c),
            ),
        }),
{
    let s = paths::slashed(parts);
    let dir = PathView { anchor: dest.anchor, parts: dest.parts.drop_last() };
    paths::lemma_slashed_pieces(parts);
    paths::relative_paths_lead_down(host, dir, parts);
    lemma_no_drive(parts);
    assert(!unpack::absolute_target(host, s));
}

proof fn lemma_no_drive(parts: Seq<Seq<char>>)
    requires
        paths::components(parts),
        parts.len() > 0,
        !parts[0].contains(':'),
    ensures
        !unpack::from_drive(paths::slashed(parts)),
{
    let s = paths::slashed(parts);
    if unpack::from_drive(s) {
        assert(paths::component(parts[0]));
        if parts[0].len() >= 2 {
            assert(s[1] == parts[0][1]);
            assert(parts[0].contains(parts[0][1]));
        } else if parts.len() > 1 {
            assert(s[1] == '/');
        }
    }
}

/// A link whose target goes up leads on from the directory above its own.
pub proof fn links_go_up(
    host: Host,
    rootfs: PathView,
    dest: PathView,
    parts: Seq<Seq<char>>,
)
    requires
        paths::components(parts),
        parts.len() > 0,
        dest.parts.len() > 1,
    ensures
        unpack::resolved_target(
            host,
            rootfs,
            dest,
            seq!['.', '.', '/'] + paths::slashed(parts),
        ) == (PathView {
            anchor: dest.anchor,
            parts: dest.parts.drop_last().drop_last() + parts.map_values(
                |c: Seq<char>| winpath::encoded(host, c),
            ),
        }),
{
    let s = paths::slashed(parts);
    let up = seq!['.', '.'];
    let t = seq!['.', '.', '/'] + s;
    paths::lemma_dots();
    paths::lemma_slashed_pieces(parts);
    assert(t =~= up + seq!['/'] + s);
    assert(!up.contains('/'));
    text::lemma_split_at_first(up, '/', s);
    assert(!t.contains('\\')) by {
        assert forall|i: int| 0 <= i < parts.len() implies !(#[trigger] parts[i]).contains(
            '\\',
        ) by {
            assert(paths::component(parts[i]));
        }
        paths::lemma_slashed_free(parts, '\\');
        if t.contains('\\') {
            let k = choose|k: int| 0 <= k < t.len() && t[k] == '\\';
            assert(k >= 3);
            assert(s[k - 3] == '\\');
        }
    }
    paths::lemma_no_backslash(t);
    let base = dest.parts.drop_last();
    lemma_up(host, base, parts);
    assert(text::pieces(t, '/', '\\') == seq![up] + parts);
    assert(!unpack::absolute_target(host, t));
}

proof fn lemma_up(host: Host, base: Seq<Seq<char>>, parts: Seq<Seq<char>>)
    requires
        paths::components(parts),
        base.len() > 0,
    ensures
        winpath::reached(host, base, seq![seq!['.', '.']] + parts) == base.drop_last()
            + parts.map_values(|c: Seq<char>| winpath::encoded(host, c)),
    decreases parts.len(),
{
    paths::lemma_dots();
    let one = seq![seq!['.', '.']];
    let all = one + parts;
    let names = parts.map_values(|c: Seq<char>| winpath::encoded(host, c));
    if parts.len() == 0 {
        assert(all =~= one);
        let none = Seq::<Seq<char>>::empty();
        assert(one.drop_last() =~= none);
        assert(winpath::reached(host, base, none) == base);
        assert(base.drop_last() + names =~= base.drop_last());
    } else {
        let rest = parts.drop_last();
        assert forall|i: int| 0 <= i < rest.len() implies paths::component(#[trigger] rest[i]) by {
            assert(rest[i] == parts[i]);
        }
        lemma_up(host, base, rest);
        assert(all.drop_last() =~= one + rest);
        assert(all.last() == parts.last());
        assert(paths::component(parts[parts.len() - 1]));
        assert(base.drop_last() + names =~= (base.drop_last() + rest.map_values(
            |c: Seq<char>| winpath::encoded(host, c),
        )).push(winpath::encoded(host, parts.last())));
    }
}

/// A link with an absolute target leads on from the root filesystem.
pub proof fn absolute_links_lead_on_from_the_root(
    host: Host,
    rootfs: PathView,
    dest: PathView,
    parts: Seq<Seq<char>>,
)
    requires
        paths::components(parts),
        parts.len() > 0,
    ensures
        unpack::resolved_target(host, rootfs, dest, paths::rooted(parts)) == (PathView {
            anchor: rootfs.anchor,
            parts: rootfs.parts + parts.map_values(|c: Seq<char>| winpath::encoded(host, c)),
        }),
{
    let s = paths::slashed(parts);
    let t = paths::rooted(parts);
    paths::lemma_slashed_pieces(parts);
    paths::relative_paths_lead_down(host, rootfs, parts);
    assert(t[0] == '/');
    assert(t.skip(1) =~= s);
    assert(unpack::without_slashes(s) == s);
    assert(unpack::without_slashes(t) == unpack::without_slashes(t.skip(1)));
}

/// A link that could not be made is remembered beside its place and comes back from
/// there with its place and its target. Targets are texts without blanks at their
/// ends.
pub proof fn remembered_links_come_back(
    dir: PathView,
    name: Seq<char>,
    target: Seq<char>,
    e: Entry,
)
    requires
        target.len() > 0,
        !text::white(target[0]),
        !text::white(target.last()),
        ({
            let link = LinkView { dest: dir.child(name), target: encode_utf8(target) };
            let steps = unpack::sidecar_steps(seq![link]);
            &&& steps.last().op == FsOpView::Write(
                dir.child(e.name@),
                e.node->File_data@,
            )
            &&& e.node is File
        }),
    ensures
        unpack::remembered_one(e, dir).0 == seq![
            LinkView { dest: dir.child(name), target: encode_utf8(target) },
        ],
        unpack::remembered_one(e, dir).1 is None,
        unpack::sidecar_of(dir.child(name)) == dir.child(e.name@),
{
    let link = LinkView { dest: dir.child(name), target: encode_utf8(target) };
    let memory = ".buildkit-symlink"@;
    encode_utf8_valid_utf8(target);
    encode_utf8_decode_utf8(target);
    text::lemma_trimmed_kept(target);
    let kept = unpack::sidecar_of(link.dest);
    assert(link.dest.parts.drop_last() =~= dir.parts);
    assert(kept.parts =~= dir.parts.push(name + memory));
    let steps = unpack::sidecar_steps(seq![link]);
    assert(steps.last().op == FsOpView::Write(kept, encode_utf8(target)));
    assert(dir.child(e.name@) == kept);
    assert(dir.parts.push(e.name@).last() == e.name@);
    assert(dir.parts.push(name + memory).last() == name + memory);
    assert(e.name@ == name + memory);
    assert((name + memory).skip((name + memory).len() - memory.len()) =~= memory);
    assert((name + memory).take((name + memory).len() - memory.len()) =~= name);
}

/// The short link of a layer leads back to the layer, as a symbolic link and as a file.
pub proof fn short_links_lead_to_their_layer(dir: PathView, id: String, link: String)
    requires
        paths::components(dir.parts),
        paths::component(id@),
        !text::white(id@[0]),
        !text::white(id@.last()),
        id@ != seq!['d', 'i', 'f', 'f'],
        link@ == seq!['.', '.', '/'] + id@,
    ensures
        layer_cache::lower_diff_path(dir, LowerLink::Symlink(link)) == Some(
            dir.child(id@).child("diff"@),
        ),
        layer_cache::lower_diff_path(dir, LowerLink::File(id)) == Some(
            dir.child(id@).child("diff"@),
        ),
        layer_cache::lower_diff_path(dir, LowerLink::Missing) is None,
{
    paths::lemma_dots();
    reveal_strlit("diff");
    reveal_strlit("l");
    assert("diff"@ =~= seq!['d', 'i', 'f', 'f']);
    let up = seq!['.', '.'];
    let t = link@;
    let name = id@;
    assert(!name.contains('/'));
    assert(t =~= up + seq!['/'] + name);
    assert(!up.contains('/'));
    text::lemma_split_at_first(up, '/', name);
    let empty = Seq::<char>::empty();
    text::lemma_pieces_extend(empty, name, '/');
    assert(text::split_at_char(empty, '/') =~= seq![empty]);
    assert(empty + name =~= name);
    assert(text::split_at_char(name, '/') =~= seq![name]);
    let pieces = seq![up, name];
    assert(text::split_at_char(t, '/') =~= pieces);
    lemma_kept(seq![name]);
    lemma_kept(pieces);
    // The symbolic link.
    let l = dir.child("l"@);
    let p = l.joined_with(t);
    assert(p.parts == l.parts + pieces);
    assert(p.parts.last() == name);
    let d = dir.parts;
    let way = seq!["l"@] + seq![up] + seq![name];
    assert(p.parts =~= d + way);
    paths::lemma_reached_add(Seq::empty(), d, way);
    paths::lemma_down(Host::Posix, Seq::empty(), d);
    let none = Seq::<Seq<char>>::empty();
    assert(none + d.map_values(|c: Seq<char>| winpath::encoded(Host::Posix, c)) =~= d);
    lemma_way(d, name);
    assert(layer_cache::resolved(p).parts == d.push(name));
    // The file.
    text::lemma_trimmed_kept(name);
    let q = dir.joined_with(name);
    assert(name[0] != '/') by {
        assert(name.contains(name[0]));
    }
    assert(q.parts =~= d.push(name));
    let more = d.push(name);
    assert forall|i: int| 0 <= i < more.len() implies paths::component(#[trigger] more[i]) by {
        if i < d.len() {
            assert(more[i] == d[i]);
        }
    }
    paths::lemma_down(Host::Posix, Seq::empty(), more);
    assert(none + more.map_values(|c: Seq<char>| winpath::encoded(Host::Posix, c)) =~= more);
    assert(layer_cache::resolved(q).parts == d.push(name));
}

proof fn lemma_kept(parts: Seq<Seq<char>>)
    requires
        forall|i: int|
            0 <= i < parts.len() ==> (#[trigger] parts[i]).len() > 0 && parts[i] != seq!['.'],
    ensures
        path::named_parts(parts, false) == parts,
    decreases parts.len(),
{
    paths::lemma_dots();
    if parts.len() > 0 {
        let rest = parts.drop_last();
        assert forall|i: int| 0 <= i < rest.len() implies (#[trigger] rest[i]).len() > 0 && rest[i]
            != seq!['.'] by {
            assert(rest[i] == parts[i]);
        }
        lemma_kept(rest);
        assert(parts[parts.len() - 1] == parts.last());
        assert(rest.push(parts.last()) =~= parts);
    }
}

/// Down into a directory, up again, and down to a name.
proof fn lemma_way(base: Seq<Seq<char>>, name: Seq<char>)
    requires
        paths::component(name),
    ensures
        winpath::reached(
            Host::Posix,
            base,
            seq!["l"@] + seq![seq!['.', '.']] + seq![name],
        ) == base.push(name),
{
    paths::lemma_dots();
    reveal_strlit("l");
    let none = Seq::<Seq<char>>::empty();
    let up = seq!['.', '.'];
    let one = seq!["l"@];
    let two = one + seq![up];
    let all = two + seq![name];
    assert(one.drop_last() =~= none);
    assert(two.drop_last() =~= one);
    assert(all.drop_last() =~= two);
    assert(all.last() == name);
    assert(two.last() == up);
    assert("l"@.len() == 1 && "l"@[0] == 'l');
    assert("l"@ != seq!['.']) by {
        assert(seq!['.'][0] == '.');
    }
    assert(winpath::reached(Host::Posix, base, none) == base);
    assert(winpath::reached(Host::Posix, base, one) == base.push("l"@));
    assert(winpath::reached(Host::Posix, base, two) =~= base);
}

} // verus!
