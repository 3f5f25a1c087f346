//! What is packed into a layer comes out of it again.

use vstd::prelude::*;
use vstd::utf8::*;

use crate::archive::{self, PackView, RawView};
use crate::effect;
use crate::error::Error;
use crate::fs::{self, FsOpView, StepView};
use crate::overlay2;
use crate::path::{self, PathView};
use crate::text;
use crate::tree::{self, Entry, Node, Shape};
use crate::unpack;
use crate::winpath::{self, Host};

verus! {

/// A name that a layer can carry: one component, stored on the host as it is, that
/// is no whiteout.
pub open spec fn packable_name(host: Host, name: Seq<char>) -> bool {
    &&& name.len() > 0
    &&& name != "."@
    &&& name != ".."@
    &&& !name.contains('/')
    &&& !name.contains('\\')
    &&& !name.contains('\0')
    &&& !text::has_prefix(name, overlay2::whiteout_prefix())
    &&& winpath::encoded(host, name) == name
    &&& !(host == Host::Windows && name.contains(':'))
}

/// Every name at or below a directory can be carried by a layer.
pub open spec fn packable(host: Host, entries: Seq<Entry>) -> bool
    decreases entries, 1int,
{
    forall|i: int|
        0 <= i < entries.len() ==> packable_name(host, (#[trigger] entries[i]).name@)
            && packable_below(host, entries[i].node)
}

/// Every name below a node can be carried by a layer.
pub open spec fn packable_below(host: Host, n: Node) -> bool
    decreases n, 0int,
{
    match n {
        Node::Dir { entries } => packable(host, entries@),
        _ => true,
    }
}

/// The directories and files of a directory; links and special files are left out.
pub open spec fn kept(entries: Seq<Entry>) -> Map<Seq<char>, Shape>
    decreases entries, 1int,
{
    if entries.len() == 0 {
        Map::empty()
    } else {
        match kept_node(entries.last().node) {
            Some(s) => kept(entries.drop_last()).insert(entries.last().name@, s),
            None => kept(entries.drop_last()),
        }
    }
}

/// What a layer keeps of a node.
pub open spec fn kept_node(n: Node) -> Option<Shape>
    decreases n, 0int,
{
    match n {
        Node::File { data } => Some(Shape::File(data@)),
        Node::Dir { entries } => Some(Shape::Dir(kept(entries@))),
        _ => None,
    }
}

/// What a step does to the tree at `root`; it changes nothing elsewhere, and modes
/// and owners are no part of the tree.
pub open spec fn performed(t: Shape, root: PathView, op: FsOpView) -> Shape {
    let n = root.parts.len() as int;
    match op {
        FsOpView::CreateDirAll(p) if p.within(root) => effect::with_dirs(t, p.parts.skip(n)),
        FsOpView::Remove(p) if p.within(root) => effect::without(t, p.parts.skip(n)),
        FsOpView::MakeWay(p) if p.within(root) => effect::with_way(t, p.parts.skip(n)),
        FsOpView::Write(p, data) if p.within(root) => effect::put(
            t,
            p.parts.skip(n),
            Shape::File(data),
        ),
        FsOpView::ClearDirectory(p) if p.within(root) => effect::emptied(t, p.parts.skip(n)),
        _ => t,
    }
}

/// What steps in a row do to the tree at `root`.
pub open spec fn all_performed(t: Shape, root: PathView, steps: Seq<StepView>) -> Shape
    decreases steps.len(),
{
    if steps.len() == 0 {
        t
    } else {
        performed(all_performed(t, root, steps.drop_last()), root, steps.last().op)
    }
}

/// What the entries of a layer do to the tree at `root`.
pub open spec fn layer_applied(host: Host, t: Shape, root: PathView, layer: Seq<RawView>) -> Shape
    decreases layer.len(),
{
    if layer.len() == 0 {
        t
    } else {
        all_performed(
            layer_applied(host, t, root, layer.drop_last()),
            root,
            unpack::entry_plan(host, root, layer.last()).0,
        )
    }
}

/// A directory or file that a layer puts somewhere.
pub enum Deposit {
    Dir(Seq<Seq<char>>),
    File(Seq<Seq<char>>, Seq<u8>),
}

/// The same deposit one directory further down.
spec fn deeper(name: Seq<char>, d: Deposit) -> Deposit {
    match d {
        Deposit::Dir(rel) => Deposit::Dir(seq![name] + rel),
        Deposit::File(rel, data) => Deposit::File(seq![name] + rel, data),
    }
}

/// Where a deposit goes.
spec fn place(d: Deposit) -> Seq<Seq<char>> {
    match d {
        Deposit::Dir(rel) => rel,
        Deposit::File(rel, _) => rel,
    }
}

/// The deposits of a directory, in order.
spec fn deposits(entries: Seq<Entry>) -> Seq<Deposit>
    decreases entries, 1int,
{
    if entries.len() == 0 {
        Seq::empty()
    } else {
        deposits(entries.drop_last()) + deposits_of(entries.last().name@, entries.last().node)
    }
}

/// The deposits of what stands under a name.
spec fn deposits_of(name: Seq<char>, n: Node) -> Seq<Deposit>
    decreases n, 0int,
{
    match n {
        Node::Dir { entries } => seq![Deposit::Dir(seq![name])] + deposits(entries@).map_values(
            |d: Deposit| deeper(name, d),
        ),
        Node::File { data } => seq![Deposit::File(seq![name], data@)],
        _ => Seq::empty(),
    }
}

/// The archive entry of a deposit below a prefix.
spec fn packed_as(prefix: Seq<Seq<char>>, d: Deposit) -> PackView {
    match d {
        Deposit::Dir(rel) => archive::dir_entry(archive::packed_path(prefix + rel) + "/"@),
        Deposit::File(rel, data) => archive::file_entry(archive::packed_path(prefix + rel), data),
    }
}

/// The archive holds one entry for each deposit.
proof fn lemma_packed_is_deposited(entries: Seq<Entry>, prefix: Seq<Seq<char>>)
    ensures
        archive::packed_entries(entries, prefix) == deposits(entries).map_values(
            |d: Deposit| packed_as(prefix, d),
        ),
    decreases entries, 1int,
{
    let all = deposits(entries).map_values(|d: Deposit| packed_as(prefix, d));
    if entries.len() == 0 {
        assert(archive::packed_entries(entries, prefix) =~= all);
    } else {
        let e = entries.last();
        lemma_packed_is_deposited(entries.drop_last(), prefix);
        lemma_packed_node(e, prefix);
        let one = deposits_of(e.name@, e.node);
        assert(archive::packed_one(e, prefix) == one.map_values(
            |d: Deposit| packed_as(prefix, d),
        ));
        assert(archive::packed_entries(entries, prefix) =~= all);
    }
}

/// The archive holds one entry for each deposit of what stands under a name.
proof fn lemma_packed_node(e: Entry, prefix: Seq<Seq<char>>)
    ensures
        archive::packed_one(e, prefix) == deposits_of(e.name@, e.node).map_values(
            |d: Deposit| packed_as(prefix, d),
        ),
    decreases e, 0int,
{
    let name = e.name@;
    let rel = prefix.push(name);
    assert(prefix + seq![name] =~= rel);
    let want = deposits_of(name, e.node).map_values(|d: Deposit| packed_as(prefix, d));
    match e.node {
        Node::Dir { entries } => {
            lemma_packed_is_deposited(entries@, rel);
            let inner = deposits(entries@);
            let down = inner.map_values(|d: Deposit| deeper(name, d));
            assert(deposits_of(name, e.node) == seq![Deposit::Dir(seq![name])] + down);
            assert forall|i: int| 0 <= i < inner.len() implies #[trigger] packed_as(
                prefix,
                down[i],
            ) == packed_as(rel, inner[i]) by {
                assert(down[i] == deeper(name, inner[i]));
                assert(prefix + (seq![name] + place(inner[i])) =~= rel + place(inner[i]));
            }
            let below = archive::packed_entries(entries@, rel);
            assert(archive::packed_one(e, prefix) == seq![
                archive::dir_entry(archive::packed_path(rel) + "/"@),
            ] + below);
            assert forall|i: int| 0 <= i < want.len() implies want[i] == #[trigger] archive::packed_one(
                e,
                prefix,
            )[i] by {
                if i > 0 {
                    assert(below[i - 1] == packed_as(rel, inner[i - 1]));
                    assert(packed_as(prefix, down[i - 1]) == packed_as(rel, inner[i - 1]));
                }
            }
            assert(archive::packed_one(e, prefix) =~= want);
        },
        Node::File { data } => {
            assert(archive::packed_one(e, prefix) =~= want);
        },
        _ => {
            assert(archive::packed_one(e, prefix) =~= want);
        },
    }
}

/// What a deposit does to a tree.
spec fn deposited(t: Shape, d: Deposit) -> Shape {
    match d {
        Deposit::Dir(rel) => effect::with_dirs(t, rel),
        Deposit::File(rel, data) => effect::put(
            effect::without(effect::with_dirs(t, rel.drop_last()), rel),
            rel,
            Shape::File(data),
        ),
    }
}

/// What deposits in a row do to a tree.
spec fn all_deposited(t: Shape, ds: Seq<Deposit>) -> Shape
    decreases ds.len(),
{
    if ds.len() == 0 {
        t
    } else {
        deposited(all_deposited(t, ds.drop_last()), ds.last())
    }
}

/// Deposits in two lists in a row.
proof fn lemma_deposited_add(t: Shape, a: Seq<Deposit>, b: Seq<Deposit>)
    ensures
        all_deposited(t, a + b) == all_deposited(all_deposited(t, a), b),
    decreases b.len(),
{
    if b.len() == 0 {
        assert(a + b =~= a);
    } else {
        assert((a + b).drop_last() =~= a + b.drop_last());
        lemma_deposited_add(t, a, b.drop_last());
    }
}

/// A deposit one directory further down goes into what stands under the name.
proof fn lemma_deposited_deeper(dm: Map<Seq<char>, Shape>, name: Seq<char>, d: Deposit)
    requires
        place(d).len() > 0,
    ensures
        deposited(Shape::Dir(dm), deeper(name, d)) == Shape::Dir(
            dm.insert(name, deposited(effect::child_or_dir(dm, name), d)),
        ),
{
    let rel = place(d);
    let deep = seq![name] + rel;
    assert(deep[0] == name);
    assert(deep.skip(1) =~= rel);
    match d {
        Deposit::Dir(_) => {},
        Deposit::File(_, data) => {
            let up = deep.drop_last();
            assert(up[0] == name);
            assert(up.skip(1) =~= rel.drop_last());
            let inner = effect::with_dirs(effect::child_or_dir(dm, name), rel.drop_last());
            let m1 = dm.insert(name, inner);
            assert(effect::with_dirs(Shape::Dir(dm), up) == Shape::Dir(m1));
            let bare = effect::without(inner, rel);
            let m2 = m1.insert(name, bare);
            assert(effect::without(Shape::Dir(m1), deep) == Shape::Dir(m2));
            assert(effect::child_or_dir(m2, name) == bare);
            let leaf = effect::put(bare, rel, Shape::File(data));
            assert(m2.insert(name, leaf) =~= dm.insert(name, leaf));
        },
    }
}

/// Deposits one directory further down go into what stands under the name.
proof fn lemma_all_deposited_deeper(
    dm: Map<Seq<char>, Shape>,
    name: Seq<char>,
    ds: Seq<Deposit>,
)
    requires
        dm.contains_key(name),
        forall|i: int| 0 <= i < ds.len() ==> place(#[trigger] ds[i]).len() > 0,
    ensures
        all_deposited(Shape::Dir(dm), ds.map_values(|d: Deposit| deeper(name, d))) == Shape::Dir(
            dm.insert(name, all_deposited(dm[name], ds)),
        ),
    decreases ds.len(),
{
    let down = ds.map_values(|d: Deposit| deeper(name, d));
    if ds.len() == 0 {
        assert(dm.insert(name, dm[name]) =~= dm);
    } else {
        let rest = ds.drop_last();
        assert(down.drop_last() =~= rest.map_values(|d: Deposit| deeper(name, d)));
        assert forall|i: int| 0 <= i < rest.len() implies place(#[trigger] rest[i]).len() > 0 by {
            assert(rest[i] == ds[i]);
        }
        lemma_all_deposited_deeper(dm, name, rest);
        let inner = all_deposited(dm[name], rest);
        let m = dm.insert(name, inner);
        assert(place(ds[ds.len() - 1]).len() > 0);
        lemma_deposited_deeper(m, name, ds.last());
        assert(m.insert(name, deposited(inner, ds.last())) =~= dm.insert(
            name,
            deposited(inner, ds.last()),
        ));
    }
}

/// Every component of a deposit's place is a name of the tree.
spec fn named(host: Host, rel: Seq<Seq<char>>) -> bool {
    &&& rel.len() > 0
    &&& forall|k: int| 0 <= k < rel.len() ==> packable_name(host, #[trigger] rel[k])
}

/// Deposits of a packable directory have packable places.
proof fn lemma_deposits_named(host: Host, entries: Seq<Entry>)
    requires
        packable(host, entries),
    ensures
        forall|i: int| 0 <= i < deposits(entries).len() ==> named(
            host,
            place(#[trigger] deposits(entries)[i]),
        ),
    decreases entries, 1int,
{
    if entries.len() > 0 {
        let rest = entries.drop_last();
        assert forall|i: int| 0 <= i < rest.len() implies packable_name(
            host,
            (#[trigger] rest[i]).name@,
        ) && packable_below(host, rest[i].node) by {
            assert(rest[i] == entries[i]);
        }
        let e = entries.last();
        assert(entries[entries.len() - 1] == e);
        lemma_deposits_named(host, rest);
        let one = deposits_of(e.name@, e.node);
        assert forall|i: int| 0 <= i < one.len() implies named(host, place(#[trigger] one[i])) by {
            match e.node {
                Node::Dir { entries: inner } => {
                    lemma_deposits_named(host, inner@);
                    if i > 0 {
                        let d = deposits(inner@)[i - 1];
                        assert(one[i] == deeper(e.name@, d));
                        assert(named(host, place(d)));
                        let rel = place(one[i]);
                        assert(rel == seq![e.name@] + place(d));
                        assert forall|k: int| 0 <= k < rel.len() implies packable_name(
                            host,
                            #[trigger] rel[k],
                        ) by {
                            if k > 0 {
                                assert(rel[k] == place(d)[k - 1]);
                            }
                        }
                    }
                },
                _ => {},
            }
        }
        let all = deposits(entries);
        assert forall|i: int| 0 <= i < all.len() implies named(host, place(#[trigger] all[i])) by {
            if i < deposits(rest).len() {
                assert(all[i] == deposits(rest)[i]);
            } else {
                assert(all[i] == one[i - deposits(rest).len()]);
            }
        }
    }
}

/// The names that are kept are those of entries.
proof fn lemma_kept_names(entries: Seq<Entry>, name: Seq<char>)
    requires
        forall|i: int| 0 <= i < entries.len() ==> (#[trigger] entries[i]).name@ != name,
    ensures
        !kept(entries).contains_key(name),
    decreases entries.len(),
{
    if entries.len() > 0 {
        let rest = entries.drop_last();
        assert forall|i: int| 0 <= i < rest.len() implies (#[trigger] rest[i]).name@ != name by {
            assert(rest[i] == entries[i]);
        }
        lemma_kept_names(rest, name);
        assert(entries[entries.len() - 1].name@ != name);
    }
}

/// The deposits of a directory add its directories and files.
proof fn lemma_deposits_add(host: Host, entries: Seq<Entry>, dm: Map<Seq<char>, Shape>)
    requires
        tree::distinct(entries),
        packable(host, entries),
        forall|i: int| 0 <= i < entries.len() ==> !dm.contains_key((#[trigger] entries[i]).name@),
    ensures
        all_deposited(Shape::Dir(dm), deposits(entries)) == Shape::Dir(
            dm.union_prefer_right(kept(entries)),
        ),
    decreases entries,
{
    if entries.len() == 0 {
        assert(dm.union_prefer_right(kept(entries)) =~= dm);
    } else {
        let rest = entries.drop_last();
        let e = entries.last();
        let name = e.name@;
        let names = tree::names(entries);
        effect::lemma_distinct_prefix(entries);
        assert forall|i: int| 0 <= i < rest.len() implies !dm.contains_key(
            (#[trigger] rest[i]).name@,
        ) && packable_name(host, rest[i].name@) && packable_below(host, rest[i].node)
            && rest[i].name@ != name by {
            assert(rest[i] == entries[i]);
            assert(names[i] != names[entries.len() - 1]);
        }
        lemma_deposits_add(host, rest, dm);
        lemma_kept_names(rest, name);
        let m = dm.union_prefer_right(kept(rest));
        assert(entries[entries.len() - 1] == e);
        assert(!m.contains_key(name));
        let one = deposits_of(name, e.node);
        lemma_deposited_add(Shape::Dir(dm), deposits(rest), one);
        match e.node {
            Node::Dir { entries: inner } => {
                let head = seq![Deposit::Dir(seq![name])];
                let down = deposits(inner@).map_values(|d: Deposit| deeper(name, d));
                assert(one == head + down);
                lemma_deposited_add(Shape::Dir(m), head, down);
                let empty = Map::<Seq<char>, Shape>::empty();
                let m1 = m.insert(name, Shape::Dir(empty));
                assert(head.drop_last() =~= Seq::<Deposit>::empty());
                assert(all_deposited(Shape::Dir(m), Seq::<Deposit>::empty()) == Shape::Dir(m));
                assert(seq![name].skip(1) =~= Seq::<Seq<char>>::empty());
                assert(effect::with_dirs(Shape::Dir(empty), Seq::<Seq<char>>::empty())
                    == Shape::Dir(empty));
                assert(all_deposited(Shape::Dir(m), head) == Shape::Dir(m1));
                lemma_deposits_named(host, inner@);
                assert forall|i: int| 0 <= i < deposits(inner@).len() implies place(
                    #[trigger] deposits(inner@)[i],
                ).len() > 0 by {
                    assert(named(host, place(deposits(inner@)[i])));
                }
                lemma_all_deposited_deeper(m1, name, deposits(inner@));
                lemma_deposits_add(host, inner@, empty);
                assert(empty.union_prefer_right(kept(inner@)) =~= kept(inner@));
                assert(kept_node(e.node) == Some(Shape::Dir(kept(inner@))));
                assert(m1.insert(name, Shape::Dir(kept(inner@))) =~= dm.union_prefer_right(
                    kept(entries),
                ));
            },
            Node::File { data } => {
                let d = Deposit::File(seq![name], data@);
                assert(one.drop_last() =~= Seq::<Deposit>::empty());
                assert(all_deposited(Shape::Dir(m), one.drop_last()) == Shape::Dir(m));
                assert(seq![name].drop_last() =~= Seq::<Seq<char>>::empty());
                assert(seq![name].skip(1) =~= Seq::<Seq<char>>::empty());
                assert(kept_node(e.node) == Some(Shape::File(data@)));
                let none = Seq::<Seq<char>>::empty();
                assert(effect::with_dirs(Shape::Dir(m), none) == Shape::Dir(m));
                assert(effect::without(Shape::Dir(m), seq![name]) == Shape::Dir(m));
                assert(effect::put(effect::child_or_dir(m, name), none, Shape::File(data@))
                    == Shape::File(data@));
                assert(deposited(Shape::Dir(m), d) == Shape::Dir(
                    m.insert(name, Shape::File(data@)),
                ));
                assert(m.insert(name, Shape::File(data@)) =~= dm.union_prefer_right(
                    kept(entries),
                ));
            },
            _ => {
                assert(all_deposited(Shape::Dir(m), one) == Shape::Dir(m));
                assert(kept_node(e.node) is None);
                assert(m =~= dm.union_prefer_right(kept(entries)));
            },
        }
    }
}

/// A character that no part holds is not in the joined text either.
proof fn lemma_joined_free(parts: Seq<Seq<char>>, c: char)
    requires
        c != '/',
        forall|i: int| 0 <= i < parts.len() ==> !(#[trigger] parts[i]).contains(c),
    ensures
        !text::joined(parts, "/"@).contains(c),
    decreases parts.len(),
{
    reveal_strlit("/");
    let all = text::joined(parts, "/"@);
    if parts.len() == 1 {
        assert(!parts[0].contains(c));
    } else if parts.len() > 1 {
        let rest = parts.drop_last();
        assert forall|i: int| 0 <= i < rest.len() implies !(#[trigger] rest[i]).contains(c) by {
            assert(rest[i] == parts[i]);
        }
        lemma_joined_free(rest, c);
        assert(!parts[parts.len() - 1].contains(c));
        let before = text::joined(rest, "/"@);
        assert(all == before + "/"@ + parts.last());
        if all.contains(c) {
            let k = choose|k: int| 0 <= k < all.len() && all[k] == c;
            if k < before.len() {
                assert(before[k] == c);
            } else if k > before.len() {
                assert(parts.last()[k - before.len() - 1] == c);
            }
        }
    }
}

/// A separator that does not occur makes no difference.
proof fn lemma_one_separator(s: Seq<char>, b: char)
    requires
        !s.contains(b) || b == '/',
    ensures
        text::pieces(s, '/', b) == text::split_at_char(s, '/'),
    decreases s.len(),
{
    if s.len() > 0 {
        let t = s.drop_last();
        assert(!t.contains(b) || b == '/') by {
            if t.contains(b) {
                let k = choose|k: int| 0 <= k < t.len() && t[k] == b;
                assert(s[k] == b);
            }
        }
        assert(s.contains(s.last()));
        lemma_one_separator(t, b);
    }
}

/// Plain components are named by themselves, with or without an empty piece behind
/// them, and lead to themselves.
proof fn lemma_plain_parts(host: Host, rel: Seq<Seq<char>>, base: Seq<Seq<char>>)
    requires
        forall|k: int| 0 <= k < rel.len() ==> packable_name(host, #[trigger] rel[k]),
    ensures
        path::named_parts(rel, true) == rel,
        path::named_parts(rel.push(Seq::empty()), true) == rel,
        winpath::reached(host, base, rel) == base + rel,
        winpath::reached(host, base, rel.push(Seq::empty())) == base + rel,
    decreases rel.len(),
{
    if rel.len() > 0 {
        let rest = rel.drop_last();
        assert forall|k: int| 0 <= k < rest.len() implies packable_name(
            host,
            #[trigger] rest[k],
        ) by {
            assert(rest[k] == rel[k]);
        }
        lemma_plain_parts(host, rest, base);
        assert(packable_name(host, rel[rel.len() - 1]));
        assert(rest.push(rel.last()) =~= rel);
        assert((base + rest).push(rel.last()) =~= base + rel);
    } else {
        assert(base + rel =~= base);
        assert(path::named_parts(rel, true) =~= rel);
    }
    let more = rel.push(Seq::empty());
    assert(more.drop_last() =~= rel);
    assert(more.last().len() == 0);
    assert(path::named_parts(more, true) == path::named_parts(more.drop_last(), true));
    assert(winpath::reached(host, base, more) == winpath::reached(host, base, more.drop_last()));
}

/// How a layer spells a path, and what it is taken for when it is unpacked.
proof fn lemma_spelled(host: Host, root: PathView, rel: Seq<Seq<char>>, tail: Seq<char>)
    requires
        named(host, rel),
        tail.len() == 0 || tail == "/"@,
    ensures
        ({
            let spelled = archive::packed_path(rel) + tail;
            &&& archive::clean_path(host, spelled)
            &&& unpack::safe_path(host, spelled)
            &&& unpack::entry_parts(host, spelled) == rel
            &&& winpath::pushed(host, root, spelled) == fs::below(root, rel)
        }),
{
    reveal_strlit("/");
    let p = text::joined(rel, "/"@);
    let slash = tail.len() > 0;
    let spelled = p + tail;
    assert("/"@ =~= seq!['/']);
    assert forall|k: int| 0 <= k < rel.len() implies !(#[trigger] rel[k]).contains('/')
        && !rel[k].contains('\\') && !rel[k].contains('\0') && !(host == Host::Windows
        && rel[k].contains(':')) by {
        assert(packable_name(host, rel[k]));
    }
    lemma_joined_free(rel, '\\');
    lemma_joined_free(rel, '\0');
    if host == Host::Windows {
        lemma_joined_free(rel, ':');
    }
    assert(text::forward_slashes(p) =~= p) by {
        assert forall|k: int| 0 <= k < p.len() implies #[trigger] p[k] != '\\' by {
            assert(p.contains(p[k]));
        }
    }
    assert(packable_name(host, rel[0]));
    text::lemma_joined_front(rel);
    text::lemma_split_joined(rel, '/');
    let none = Seq::<char>::empty();
    assert forall|c: char| c != '/' && !p.contains(c) implies !spelled.contains(c) by {
        if spelled.contains(c) {
            let k = choose|k: int| 0 <= k < spelled.len() && spelled[k] == c;
            if k < p.len() {
                assert(p[k] == c);
            }
        }
    }
    assert(text::split_at_char(spelled, '/') == if slash { rel.push(none) } else { rel }) by {
        if slash {
            assert(spelled.drop_last() =~= p);
            assert(text::split_at_char(spelled, '/') =~= rel.push(none));
        } else {
            assert(spelled =~= p);
        }
    }
    lemma_one_separator(spelled, unpack::separator(host));
    lemma_one_separator(spelled, '\\');
    lemma_plain_parts(host, rel, root.parts);
    assert(spelled[0] == rel[0][0]);
    assert(rel[0].contains(rel[0][0]));
    if host == Host::Windows && spelled.len() >= 2 {
        assert(spelled.contains(spelled[1]));
    }
    assert(!rel.contains(".."@)) by {
        if rel.contains(".."@) {
            let k = choose|k: int| 0 <= k < rel.len() && rel[k] == ".."@;
            assert(packable_name(host, rel[k]));
        }
    }
    assert(!text::pieces(spelled, '/', '\\').contains(".."@)) by {
        reveal_strlit("..");
        let all = text::pieces(spelled, '/', '\\');
        if all.contains(".."@) {
            let k = choose|k: int| 0 <= k < all.len() && all[k] == ".."@;
            if k < rel.len() {
                assert(packable_name(host, rel[k]));
            }
        }
    }
    // The spelling is clean.
    let bare = if spelled.len() > 0 && spelled.last() == '/' { spelled.drop_last() } else { spelled };
    assert(bare =~= p) by {
        if !slash {
            assert(spelled =~= p);
            lemma_joined_back(rel);
            assert(packable_name(host, rel[rel.len() - 1]));
            assert(rel.last().contains(rel.last().last()));
        }
    }
    assert forall|i: int| 0 <= i < text::split_at_char(bare, '/').len() implies (
    #[trigger] text::split_at_char(bare, '/')[i]).len() > 0 && text::split_at_char(bare, '/')[i]
        != "."@ && text::split_at_char(bare, '/')[i] != ".."@ by {
        assert(packable_name(host, rel[i]));
    }
}

/// The last part stands at the end of the joined text.
proof fn lemma_joined_back(parts: Seq<Seq<char>>)
    requires
        parts.len() > 0,
        parts.last().len() > 0,
    ensures
        text::joined(parts, "/"@).len() > 0,
        text::joined(parts, "/"@).last() == parts.last().last(),
{
    if parts.len() > 1 {
        let all = text::joined(parts, "/"@);
        assert(all == text::joined(parts.drop_last(), "/"@) + "/"@ + parts.last());
    }
}

/// A step by itself.
proof fn lemma_performed_push(t: Shape, root: PathView, steps: Seq<StepView>, s: StepView)
    ensures
        all_performed(t, root, steps.push(s)) == performed(
            all_performed(t, root, steps),
            root,
            s.op,
        ),
{
    assert(steps.push(s).drop_last() =~= steps);
}

/// Steps that leave the tree as it is.
proof fn lemma_performed_idle(t: Shape, root: PathView, steps: Seq<StepView>, idle: Seq<StepView>)
    requires
        forall|i: int|
            0 <= i < idle.len() ==> (#[trigger] idle[i]).op is SetPermissions
                || idle[i].op is SetVirtualOwner,
    ensures
        all_performed(t, root, steps + idle) == all_performed(t, root, steps),
    decreases idle.len(),
{
    if idle.len() == 0 {
        assert(steps + idle =~= steps);
    } else {
        let rest = idle.drop_last();
        assert forall|i: int| 0 <= i < rest.len() implies (#[trigger] rest[i]).op is SetPermissions
            || rest[i].op is SetVirtualOwner by {
            assert(rest[i] == idle[i]);
        }
        lemma_performed_idle(t, root, steps, rest);
        assert((steps + idle).drop_last() =~= steps + rest);
        assert((steps + idle).last() == idle[idle.len() - 1]);
    }
}

/// Unpacking the entry of a deposit makes the deposit.
proof fn lemma_unpacked_is_deposited(host: Host, t: Shape, root: PathView, d: Deposit)
    requires
        named(host, place(d)),
    ensures
        all_performed(
            t,
            root,
            unpack::entry_plan(host, root, archive::unpacked(packed_as(Seq::empty(), d))).0,
        ) == deposited(t, d),
        archive::clean_path(host, packed_as(Seq::empty(), d).path),
{
    let rel = place(d);
    let e = packed_as(Seq::empty(), d);
    let raw = archive::unpacked(e);
    let none = Seq::<StepView>::empty();
    assert(Seq::<Seq<char>>::empty() + rel =~= rel);
    let tail = if d is Dir { "/"@ } else { Seq::empty() };
    lemma_spelled(host, root, rel, tail);
    assert(archive::packed_path(rel) + tail =~= e.path);
    encode_utf8_valid_utf8(e.path);
    encode_utf8_decode_utf8(e.path);
    assert(unpack::shown(raw.path) == e.path);
    let name = rel.last();
    assert(packable_name(host, rel[rel.len() - 1]));
    assert(unpack::entry_name(host, raw.path) == Some(name));
    assert(name != overlay2::opaque_name()) by {
        reveal_strlit(".wh.");
        reveal_strlit(".wh..wh..opq");
        assert(overlay2::opaque_name().take(overlay2::whiteout_prefix().len() as int)
            =~= overlay2::whiteout_prefix());
    }
    let dest = fs::below(root, rel);
    let plan = unpack::unpack_steps(host, dest, raw);
    assert(unpack::entry_plan(host, root, raw).0 == plan);
    let n = root.parts.len() as int;
    assert(dest.parts.take(n) =~= root.parts);
    assert(dest.parts.skip(n) =~= rel);
    assert(all_performed(t, root, none) == t);
    match d {
        Deposit::Dir(_) => {
            let make = fs::must(FsOpView::CreateDirAll(dest));
            let owner = unpack::owner_steps(host, dest, raw);
            assert(plan == seq![make] + owner);
            lemma_performed_idle(t, root, seq![make], owner);
            lemma_performed_push(t, root, none, make);
            assert(none.push(make) =~= seq![make]);
        },
        Deposit::File(_, data) => {
            let up = PathView { anchor: dest.anchor, parts: dest.parts.drop_last() };
            assert(dest.parent() == Some(up));
            assert(up.parts.take(n) =~= root.parts);
            assert(up.parts.skip(n) =~= rel.drop_last());
            let make = fs::must(FsOpView::CreateDirAll(up));
            let clear = fs::must(FsOpView::Remove(dest));
            let write = fs::must(FsOpView::Write(dest, data));
            let mode = unpack::mode_steps(host, dest, raw);
            let owner = unpack::owner_steps(host, dest, raw);
            assert(unpack::parent_dir(dest) =~= none.push(make));
            let work = none.push(make).push(clear).push(write);
            assert(plan =~= work + (mode + owner));
            let idle = mode + owner;
            assert forall|i: int| 0 <= i < idle.len() implies (#[trigger] idle[i]).op
                is SetPermissions || idle[i].op is SetVirtualOwner by {}
            lemma_performed_idle(t, root, work, idle);
            lemma_performed_push(t, root, none, make);
            lemma_performed_push(t, root, none.push(make), clear);
            lemma_performed_push(t, root, none.push(make).push(clear), write);
        },
    }
}

/// Unpacking the entries of deposits makes the deposits.
proof fn lemma_layer_is_deposited(host: Host, t: Shape, root: PathView, ds: Seq<Deposit>)
    requires
        forall|i: int| 0 <= i < ds.len() ==> named(host, place(#[trigger] ds[i])),
    ensures
        layer_applied(
            host,
            t,
            root,
            ds.map_values(|d: Deposit| archive::unpacked(packed_as(Seq::empty(), d))),
        ) == all_deposited(t, ds),
    decreases ds.len(),
{
    let layer = ds.map_values(|d: Deposit| archive::unpacked(packed_as(Seq::empty(), d)));
    if ds.len() > 0 {
        let rest = ds.drop_last();
        assert forall|i: int| 0 <= i < rest.len() implies named(host, place(#[trigger] rest[i])) by {
            assert(rest[i] == ds[i]);
        }
        lemma_layer_is_deposited(host, t, root, rest);
        assert(layer.drop_last() =~= rest.map_values(
            |d: Deposit| archive::unpacked(packed_as(Seq::empty(), d)),
        ));
        assert(named(host, place(ds[ds.len() - 1])));
        lemma_unpacked_is_deposited(host, all_deposited(t, rest), root, ds.last());
    }
}

/// A root filesystem that is packed and unpacked into an empty directory gives the
/// same directories and files, with the same contents, under the same names. Links
/// and special files are not packed.
pub proof fn packed_files_come_back(host: Host, root: PathView, entries: Seq<Entry>)
    requires
        tree::distinct(entries),
        packable(host, entries),
    ensures
        layer_applied(
            host,
            Shape::Dir(Map::empty()),
            root,
            archive::packed_entries(entries, Seq::empty()).map_values(
                |e: PackView| archive::unpacked(e),
            ),
        ) == Shape::Dir(kept(entries)),
        forall|i: int|
            0 <= i < archive::packed_entries(entries, Seq::empty()).len() ==> archive::clean_path(
                host,
                (#[trigger] archive::packed_entries(entries, Seq::empty())[i]).path,
            ),
{
    let none = Seq::<Seq<char>>::empty();
    let ds = deposits(entries);
    let packed = archive::packed_entries(entries, none);
    let empty = Map::<Seq<char>, Shape>::empty();
    lemma_packed_is_deposited(entries, none);
    lemma_deposits_named(host, entries);
    lemma_layer_is_deposited(host, Shape::Dir(empty), root, ds);
    assert(packed.map_values(|e: PackView| archive::unpacked(e)) =~= ds.map_values(
        |d: Deposit| archive::unpacked(packed_as(Seq::empty(), d)),
    ));
    lemma_deposits_add(host, entries, empty);
    assert(empty.union_prefer_right(kept(entries)) =~= kept(entries));
    assert forall|i: int| 0 <= i < packed.len() implies archive::clean_path(
        host,
        (#[trigger] packed[i]).path,
    ) by {
        assert(packed[i] == packed_as(none, ds[i]));
        assert(named(host, place(ds[i])));
        lemma_unpacked_is_deposited(host, Shape::Dir(empty), root, ds[i]);
    }
}

/// A tree of files and directories alone.
pub open spec fn linkless(entries: Seq<Entry>) -> bool
    decreases entries, 1int,
{
    forall|i: int| 0 <= i < entries.len() ==> linkless_node((#[trigger] entries[i]).node)
}

/// A file, or a directory with nothing but files and directories below it.
pub open spec fn linkless_node(n: Node) -> bool
    decreases n, 0int,
{
    match n {
        Node::File { .. } => true,
        Node::Dir { entries } => linkless(entries@),
        _ => false,
    }
}

/// A layer keeps all of a tree of files and directories.
proof fn lemma_all_kept(entries: Seq<Entry>)
    requires
        linkless(entries),
    ensures
        kept(entries) == tree::shapes(entries),
    decreases entries, 1int,
{
    if entries.len() > 0 {
        let rest = entries.drop_last();
        let last = entries[entries.len() - 1];
        assert forall|i: int| 0 <= i < rest.len() implies linkless_node(
            (#[trigger] rest[i]).node,
        ) by {
            assert(rest[i] == entries[i]);
        }
        lemma_all_kept(rest);
        assert(linkless_node(last.node));
        match last.node {
            Node::Dir { entries: inner } => {
                lemma_all_kept(inner@);
            },
            _ => {},
        }
        assert(kept_node(last.node) == Some(tree::shape(last.node)));
        assert(entries.last() == last);
    } else {
        assert(kept(entries) =~= tree::shapes(entries));
    }
}

/// The layer of a tree of files and directories unpacks to that tree again, from the
/// bytes on: packing succeeds, the layer can be applied to its end, and unpacked into
/// an empty directory it gives the same directories and files, with the same contents,
/// under the same names.
pub proof fn packed_tree_comes_back(
    host: Host,
    root: PathView,
    entries: Seq<Entry>,
    packed: Result<Vec<u8>, Error>,
)
    requires
        tree::distinct(entries),
        packable(host, entries),
        linkless(entries),
        archive::packed_rootfs(packed, host, entries),
    ensures
        packed matches Ok(layer) && {
            let listing = archive::tar_listing(layer@);
            &&& unpack::layer_fault(host, listing) is None
            &&& unpack::planned(host, listing.0) == listing.0.len()
            &&& layer_applied(host, Shape::Dir(Map::empty()), root, listing.0) == Shape::Dir(
                tree::shapes(entries),
            )
        },
{
    let all = archive::packed_entries(entries, Seq::empty());
    packed_files_come_back(host, root, entries);
    lemma_all_kept(entries);
    assert(packed is Ok);
    let listing = archive::tar_listing(packed->Ok_0@);
    assert(listing.0 =~= all.map_values(|e: PackView| archive::unpacked(e)));
    assert forall|i: int| 0 <= i < listing.0.len() implies unpack::entry_fault(
        host,
        #[trigger] listing.0[i],
    ) is None by {
        assert(listing.0[i] == archive::unpacked(all[i]));
        encode_utf8_valid_utf8(all[i].path);
        assert(valid_utf8(Seq::<u8>::empty()));
    }
    lemma_no_fault(host, listing.0);
}

/// Where no entry ends the layer early, all are planned.
proof fn lemma_no_fault(host: Host, entries: Seq<RawView>)
    requires
        forall|i: int|
            0 <= i < entries.len() ==> unpack::entry_fault(host, #[trigger] entries[i]) is None,
    ensures
        unpack::first_fault(host, entries) == entries.len(),
    decreases entries.len(),
{
    if entries.len() > 0 {
        let rest = entries.drop_last();
        assert forall|i: int| 0 <= i < rest.len() implies unpack::entry_fault(
            host,
            #[trigger] rest[i],
        ) is None by {
            assert(rest[i] == entries[i]);
        }
        lemma_no_fault(host, rest);
        assert(entries[entries.len() - 1] == entries.last());
    }
}

} // verus!
