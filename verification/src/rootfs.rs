//! Links of a root filesystem.

use vstd::prelude::*;
use vstd::utf8::encode_utf8;

use crate::fs::{self, no_steps, push_must, push_steps, push_try, FsOp, FsOpView, Step, StepView};
use crate::path::{HostPath, PathView};
use crate::text::{self, bytes_of, same_text, starts_with_char};
use crate::tree::{Entry, Node};
use crate::unpack::{self, show};
use crate::winpath::{self, join_inside, Host};

verus! {

broadcast use vstd::seq_lib::group_seq_properties;

/// The number of leading components that two paths share.
pub open spec fn common(a: Seq<Seq<char>>, b: Seq<Seq<char>>) -> int
    decreases a.len(),
{
    if a.len() == 0 || b.len() == 0 || a[0] != b[0] {
        0
    } else {
        1 + common(a.skip(1), b.skip(1))
    }
}

/// `n` steps upwards.
pub open spec fn ups(n: int) -> Seq<Seq<char>> {
    Seq::new(
        if n > 0 {
            n as nat
        } else {
            0
        },
        |i: int| ".."@,
    )
}

/// The number of components that an anchor counts for: a root is one, a drive or
/// share with its root is two.
pub open spec fn anchor_count(anchor: Seq<char>) -> int {
    if anchor.len() == 0 {
        0
    } else if anchor == "/"@ {
        1
    } else {
        2
    }
}

/// `parts`, or the directory itself where there are none.
pub open spec fn or_here(parts: Seq<Seq<char>>) -> Seq<Seq<char>> {
    if parts.len() == 0 {
        seq!["."@]
    } else {
        parts
    }
}

/// The path that leads from a directory to `to`: up to what both share, then down.
/// Where they share no root, the way down starts at the root of `to`.
pub open spec fn relative_path(from: PathView, to: PathView) -> PathView {
    if from.anchor == to.anchor {
        let i = common(from.parts, to.parts);
        PathView {
            anchor: Seq::empty(),
            parts: or_here(ups(from.parts.len() - i) + to.parts.skip(i)),
        }
    } else if to.anchor.len() > 0 {
        to
    } else {
        PathView {
            anchor: Seq::empty(),
            parts: or_here(ups(anchor_count(from.anchor) + from.parts.len()) + to.parts),
        }
    }
}

/// The bounds of what two paths share.
proof fn lemma_common(a: Seq<Seq<char>>, b: Seq<Seq<char>>)
    ensures
        0 <= common(a, b) <= a.len(),
        common(a, b) <= b.len(),
        a.take(common(a, b)) == b.take(common(a, b)),
    decreases a.len(),
{
    if !(a.len() == 0 || b.len() == 0 || a[0] != b[0]) {
        lemma_common(a.skip(1), b.skip(1));
        let n = common(a, b);
        assert forall|k: int| 0 <= k < n implies a[k] == b[k] by {
            if k > 0 {
                assert(a.skip(1).take(n - 1)[k - 1] == a[k]);
                assert(b.skip(1).take(n - 1)[k - 1] == b[k]);
            }
        }
        assert(a.take(n) =~= b.take(n));
    }
}

/// A first difference ends what two paths share.
proof fn lemma_common_is(a: Seq<Seq<char>>, b: Seq<Seq<char>>, i: int)
    requires
        0 <= i <= a.len(),
        i <= b.len(),
        forall|k: int| 0 <= k < i ==> #[trigger] a[k] == b[k],
        i < a.len() && i < b.len() ==> a[i] != b[i],
    ensures
        common(a, b) == i,
    decreases i,
{
    if i > 0 {
        assert(a[0] == b[0]);
        assert forall|k: int| 0 <= k < i - 1 implies #[trigger] a.skip(1)[k] == b.skip(1)[k] by {
            assert(a[k + 1] == b[k + 1]);
        }
        lemma_common_is(a.skip(1), b.skip(1), i - 1);
    }
}

/// The path that leads from a directory to `to`.
pub fn path_relative_to(from_dir: &HostPath, to: &HostPath) -> (r: HostPath)
    ensures
        r@ == relative_path(from_dir@, to@),
{
    let mut up: usize = from_dir.parts.len();
    let mut down: usize = 0;
    let ghost a = from_dir.parts.deep_view();
    let ghost b = to.parts.deep_view();
    let same = same_text(from_dir.anchor.as_str(), to.anchor.as_str());
    if same {
        while down < from_dir.parts.len() && down < to.parts.len() && same_text(
            from_dir.parts[down].as_str(),
            to.parts[down].as_str(),
        )
            invariant
                a == from_dir.parts.deep_view(),
                b == to.parts.deep_view(),
                down <= a.len(),
                down <= b.len(),
                forall|k: int| 0 <= k < down ==> #[trigger] a[k] == b[k],
            decreases a.len() - down,
        {
            assert(a[down as int] == b[down as int]);
            down += 1;
        }
        proof {
            if down < a.len() && down < b.len() {
                assert(a[down as int] != b[down as int]);
            }
            lemma_common_is(a, b, down as int);
        }
        up = from_dir.parts.len() - down;
    } else if !to.anchor.as_str().is_empty() {
        return to.copy();
    }
    let mut rel: Vec<String> = Vec::new();
    if !same && !from_dir.anchor.as_str().is_empty() {
        rel.push("..".to_owned());
        if !same_text(from_dir.anchor.as_str(), "/") {
            rel.push("..".to_owned());
        }
    }
    let ghost head: int = if same {
        0
    } else {
        anchor_count(from_dir@.anchor)
    };
    assert(rel.deep_view() =~= ups(head));
    for k in 0..up
        invariant
            0 <= head,
            rel.deep_view() == ups(head + k),
    {
        let ghost before = rel.deep_view();
        rel.push("..".to_owned());
        assert(rel.deep_view() =~= before.push(".."@));
        assert(rel.deep_view() =~= ups(head + k + 1));
    }
    let ghost climbed = rel.deep_view();
    let end: usize = to.parts.len();
    for k in down..end
        invariant
            b == to.parts.deep_view(),
            end == b.len(),
            down <= k,
            rel.deep_view() == climbed + b.subrange(down as int, k as int),
    {
        let ghost before = rel.deep_view();
        rel.push(to.parts[k].clone());
        assert(rel.deep_view() =~= before.push(b[k as int]));
        assert(rel.deep_view() =~= climbed + b.subrange(down as int, k + 1));
    }
    assert(b.subrange(down as int, end as int) =~= b.skip(down as int));
    assert(!same ==> b.skip(0) =~= b);
    if rel.len() == 0 {
        rel.push(".".to_owned());
        assert(rel.deep_view() =~= seq!["."@]);
    }
    let anchor = String::new();
    assert(anchor@ =~= Seq::<char>::empty());
    HostPath { anchor, parts: rel }
}

/// How a link is rewritten: one with an absolute target is made anew, with a target
/// that leads from its directory to the same place in the root filesystem.
pub open spec fn rewritten_link(
    host: Host,
    rootfs: PathView,
    dir: PathView,
    name: Seq<char>,
    target: Seq<u8>,
) -> Seq<StepView> {
    let text = unpack::shown(target);
    if text.len() > 0 && text[0] == '/' {
        let to = winpath::inside(host, rootfs, text);
        seq![
            fs::must(FsOpView::RemoveFile(dir.child(name))),
            fs::try_to(
                FsOpView::Symlink(encode_utf8(relative_path(dir, to).shown()), dir.child(name)),
            ),
        ]
    } else {
        Seq::empty()
    }
}

/// How the links below a directory are rewritten, in order.
pub open spec fn rewritten(
    host: Host,
    rootfs: PathView,
    entries: Seq<Entry>,
    dir: PathView,
) -> Seq<StepView>
    decreases entries, 1int,
{
    if entries.len() == 0 {
        Seq::empty()
    } else {
        rewritten(host, rootfs, entries.drop_last(), dir) + rewritten_one(
            host,
            rootfs,
            entries.last(),
            dir,
        )
    }
}

/// How the links at or below an entry are rewritten.
pub open spec fn rewritten_one(host: Host, rootfs: PathView, e: Entry, dir: PathView) -> Seq<
    StepView,
>
    decreases e, 0int,
{
    match e.node {
        Node::Link { target } => rewritten_link(host, rootfs, dir, e.name@, target@),
        Node::Dir { entries } => rewritten(host, rootfs, entries@, dir.child(e.name@)),
        _ => Seq::empty(),
    }
}

/// Plan how one link is rewritten.
fn rewrite_one(
    host: Host,
    rootfs: &HostPath,
    dir: &HostPath,
    name: &str,
    target: &Vec<u8>,
) -> (r: Vec<Step>)
    ensures
        fs::step_views(r@) == rewritten_link(host, rootfs@, dir@, name@, target@),
{
    let mut steps = no_steps();
    let text = show(target);
    if !starts_with_char(text.as_str(), '/') {
        return steps;
    }
    let to = join_inside(host, rootfs, text.as_str());
    let rel = path_relative_to(dir, &to);
    push_must(&mut steps, FsOp::RemoveFile(dir.join(name)));
    push_try(&mut steps, FsOp::Symlink(bytes_of(rel.to_text().as_str()), dir.join(name)));
    assert(fs::step_views(steps@) =~= rewritten_link(host, rootfs@, dir@, name@, target@));
    steps
}

/// Plan how the links at or below an entry are rewritten.
fn walk_entry(host: Host, rootfs: &HostPath, e: &Entry, dir: &HostPath) -> (r: Vec<Step>)
    ensures
        fs::step_views(r@) == rewritten_one(host, rootfs@, *e, dir@),
    decreases e, 0int,
{
    match &e.node {
        Node::Link { target } => rewrite_one(
            host,
            rootfs,
            dir,
            e.name.as_str(),
            target,
        ),
        Node::Dir { entries } => {
            let below = dir.join(e.name.as_str());
            walk(host, rootfs, entries, &below)
        },
        _ => no_steps(),
    }
}

/// Plan how the links below a directory are rewritten.
fn walk(host: Host, rootfs: &HostPath, entries: &Vec<Entry>, dir: &HostPath) -> (r: Vec<Step>)
    ensures
        fs::step_views(r@) == rewritten(host, rootfs@, entries@, dir@),
    decreases entries, 1int,
{
    let mut steps = no_steps();
    for i in 0..entries.len()
        invariant
            fs::step_views(steps@) == rewritten(host, rootfs@, entries@.take(i as int), dir@),
        decreases entries.len() - i,
    {
        assert(entries@.take(i + 1).drop_last() =~= entries@.take(i as int));
        let more = walk_entry(host, rootfs, &entries[i], dir);
        push_steps(&mut steps, more);
    }
    assert(entries@.take(entries@.len() as int) =~= entries@);
    steps
}

/// Plan how absolute link targets are turned into relative ones that stay in the
/// root filesystem, whose entries are given with links not followed.
pub fn rewrite_absolute_symlinks(host: Host, rootfs: &HostPath, entries: &Vec<Entry>) -> (r: Vec<
    Step,
>)
    ensures
        fs::step_views(r@) == rewritten(host, rootfs@, entries@, rootfs@),
{
    walk(host, rootfs, entries, rootfs)
}

// ---------------------------------------------------------------------------
// Laws
// ---------------------------------------------------------------------------

/// A component that names something below its directory.
pub open spec fn plain_component(c: Seq<char>) -> bool {
    c.len() > 0 && c != "."@ && c != ".."@ && c[0] != '/'
}

/// Going up and down again.
proof fn lemma_walk(base: Seq<Seq<char>>, n: int, down: Seq<Seq<char>>)
    requires
        0 <= n <= base.len(),
        forall|k: int| 0 <= k < down.len() ==> plain_component(#[trigger] down[k]),
    ensures
        winpath::reached(Host::Posix, base, ups(n) + down) == base.take(base.len() - n) + down,
    decreases n + down.len(),
{
    let way = ups(n) + down;
    if down.len() > 0 {
        let rest = down.drop_last();
        assert(way.drop_last() =~= ups(n) + rest);
        assert forall|k: int| 0 <= k < rest.len() implies plain_component(#[trigger] rest[k]) by {
            assert(rest[k] == down[k]);
        }
        lemma_walk(base, n, rest);
        assert(way.last() == down[down.len() - 1]);
        assert(plain_component(way.last()));
        assert((base.take(base.len() - n) + rest).push(way.last()) =~= base.take(base.len() - n)
            + down);
    } else if n > 0 {
        assert(way.drop_last() =~= ups(n - 1) + down);
        lemma_walk(base, n - 1, down);
        assert(way.last() == ".."@);
        reveal_strlit("..");
        reveal_strlit(".");
        assert("."@ != ".."@) by {
            assert("."@.len() == 1);
            assert(".."@.len() == 2);
        }
        assert((base.take(base.len() - n + 1) + down).drop_last() =~= base.take(base.len() - n)
            + down);
    } else {
        assert(way =~= Seq::<Seq<char>>::empty());
        assert(base.take(base.len() as int) + down =~= base);
    }
}

/// A relative path leads from its directory to where it is meant to lead.
pub proof fn relative_path_leads_there(from: PathView, to: PathView)
    requires
        from.anchor == to.anchor,
        forall|k: int| 0 <= k < to.parts.len() ==> plain_component(#[trigger] to.parts[k]),
    ensures
        winpath::reached(Host::Posix, from.parts, relative_path(from, to).parts) == to.parts,
{
    let i = common(from.parts, to.parts);
    lemma_common(from.parts, to.parts);
    let n = from.parts.len() - i;
    let down = to.parts.skip(i);
    assert forall|k: int| 0 <= k < down.len() implies plain_component(#[trigger] down[k]) by {
        assert(down[k] == to.parts[k + i]);
    }
    lemma_walk(from.parts, n, down);
    assert(from.parts.take(i) + down =~= to.parts);
    let way = ups(n) + down;
    if way.len() == 0 {
        assert(way =~= Seq::<Seq<char>>::empty());
        assert(seq!["."@].drop_last() =~= Seq::<Seq<char>>::empty());
        assert(winpath::reached(Host::Posix, from.parts, Seq::empty()) == from.parts);
    }
}

/// What an absolute path adds below the root are components that name something.
proof fn lemma_held_plain(host: Host, base: Seq<Seq<char>>, pieces: Seq<Seq<char>>)
    requires
        forall|k: int| 0 <= k < base.len() ==> plain_component(#[trigger] base[k]),
        forall|k: int| 0 <= k < pieces.len() ==> !(#[trigger] pieces[k]).contains('/'),
    ensures
        forall|k: int|
            0 <= k < winpath::held(host, base, pieces).len() ==> plain_component(
                #[trigger] winpath::held(host, base, pieces)[k],
            ),
    decreases pieces.len(),
{
    if pieces.len() > 0 {
        let rest = pieces.drop_last();
        let last = pieces[pieces.len() - 1];
        assert forall|k: int| 0 <= k < rest.len() implies !(#[trigger] rest[k]).contains('/') by {
            assert(rest[k] == pieces[k]);
        }
        lemma_held_plain(host, base, rest);
        let before = winpath::held(host, base, rest);
        let all = winpath::held(host, base, pieces);
        assert forall|k: int| 0 <= k < all.len() implies plain_component(#[trigger] all[k]) by {
            if k < before.len() {
                assert(all[k] == before[k]);
            } else {
                reveal_strlit(".");
                reveal_strlit("..");
                reveal_strlit("#bk#");
                assert(all[k] == winpath::encoded(host, last));
                assert(!last.contains('/'));
                assert(last.contains(last[0]));
                if all[k] != last {
                    assert(all[k][0] == '#');
                    assert("."@[0] == '.' && ".."@[0] == '.');
                }
            }
        }
    }
}

/// A rewritten link stays in its root filesystem: its target leads from its directory
/// to a place there, the one that the absolute target names.
pub proof fn rewritten_links_stay_inside(
    host: Host,
    rootfs: PathView,
    dir: PathView,
    target: Seq<char>,
)
    requires
        dir.within(rootfs),
        forall|k: int| 0 <= k < rootfs.parts.len() ==> plain_component(#[trigger] rootfs.parts[k]),
    ensures
        ({
            let to = winpath::inside(host, rootfs, target);
            let way = relative_path(dir, to);
            &&& to.within(rootfs)
            &&& winpath::reached(Host::Posix, dir.parts, way.parts) == to.parts
            &&& way.shown().len() > 0 && way.shown()[0] != '/'
        }),
{
    let to = winpath::inside(host, rootfs, target);
    text::lemma_pieces_free(target, '/', '\\');
    lemma_held_plain(host, rootfs.parts, text::pieces(target, '/', '\\'));
    winpath::absolute_paths_stay_inside(host, rootfs, target);
    relative_path_leads_there(dir, to);
    rewritten_target_is_relative(dir, to);
}

/// The target of a rewritten link is not absolute, so that nothing outside of the
/// root filesystem decides where the link leads.
pub proof fn rewritten_target_is_relative(from: PathView, to: PathView)
    requires
        from.anchor == to.anchor,
        forall|k: int| 0 <= k < to.parts.len() ==> plain_component(#[trigger] to.parts[k]),
    ensures
        relative_path(from, to).shown().len() > 0,
        relative_path(from, to).shown()[0] != '/',
{
    let i = common(from.parts, to.parts);
    lemma_common(from.parts, to.parts);
    let way = relative_path(from, to).parts;
    reveal_strlit("..");
    reveal_strlit(".");
    assert(way[0].len() > 0 && way[0][0] != '/') by {
        if from.parts.len() - i == 0 && to.parts.len() > i {
            assert(way[0] == to.parts[i]);
        }
    }
    text::lemma_joined_front(way);
    assert(relative_path(from, to).shown() =~= text::joined(way, "/"@));
}

} // verus!
