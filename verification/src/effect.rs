//! What file operations do to a directory tree.

use vstd::prelude::*;

use crate::fs::{self, RelOp};
use crate::tree::{self, Entry, Node, Shape};

verus! {

/// What stands under `name`, or an empty directory where nothing does.
pub open spec fn child_or_dir(m: Map<Seq<char>, Shape>, name: Seq<char>) -> Shape {
    if m.contains_key(name) {
        m[name]
    } else {
        Shape::Dir(Map::empty())
    }
}

/// What stands at a relative path.
pub open spec fn at(t: Shape, rel: Seq<Seq<char>>) -> Shape
    decreases rel.len(),
{
    if rel.len() == 0 {
        t
    } else {
        match t {
            Shape::Dir(m) => if m.contains_key(rel[0]) {
                at(m[rel[0]], rel.skip(1))
            } else {
                Shape::Other
            },
            _ => Shape::Other,
        }
    }
}

/// The tree with `new` at a relative path; missing directories are created.
pub open spec fn put(t: Shape, rel: Seq<Seq<char>>, new: Shape) -> Shape
    decreases rel.len(),
{
    if rel.len() == 0 {
        new
    } else {
        match t {
            Shape::Dir(m) => Shape::Dir(
                m.insert(rel[0], put(child_or_dir(m, rel[0]), rel.skip(1), new)),
            ),
            _ => t,
        }
    }
}

/// The tree with a directory at a relative path, unless something stands there.
pub open spec fn with_dirs(t: Shape, rel: Seq<Seq<char>>) -> Shape
    decreases rel.len(),
{
    if rel.len() == 0 {
        t
    } else {
        match t {
            Shape::Dir(m) => Shape::Dir(
                m.insert(rel[0], with_dirs(child_or_dir(m, rel[0]), rel.skip(1))),
            ),
            _ => t,
        }
    }
}

/// The tree without what stands at a relative path.
pub open spec fn without(t: Shape, rel: Seq<Seq<char>>) -> Shape
    decreases rel.len(),
{
    if rel.len() == 0 {
        t
    } else {
        match t {
            Shape::Dir(m) => if !m.contains_key(rel[0]) {
                t
            } else if rel.len() == 1 {
                Shape::Dir(m.remove(rel[0]))
            } else {
                Shape::Dir(m.insert(rel[0], without(m[rel[0]], rel.skip(1))))
            },
            _ => t,
        }
    }
}

/// The tree with the directory at a relative path emptied.
pub open spec fn emptied(t: Shape, rel: Seq<Seq<char>>) -> Shape
    decreases rel.len(),
{
    match t {
        Shape::Dir(m) => if rel.len() == 0 {
            Shape::Dir(Map::empty())
        } else if m.contains_key(rel[0]) {
            Shape::Dir(m.insert(rel[0], emptied(m[rel[0]], rel.skip(1))))
        } else {
            t
        },
        _ => t,
    }
}

/// The tree without what stands at a relative path, unless it is a directory.
pub open spec fn with_way(t: Shape, rel: Seq<Seq<char>>) -> Shape {
    match at(t, rel) {
        Shape::Dir(_) => t,
        _ => without(t, rel),
    }
}

/// The destination tree after one operation.
pub open spec fn effect(src: Shape, dest: Shape, op: RelOp) -> Shape {
    match op {
        RelOp::MakeDir(rel) => with_dirs(dest, rel),
        RelOp::CopyFile(rel) => put(dest, rel, at(src, rel)),
        RelOp::MakeLink(rel, target) => put(dest, rel, Shape::Link(target)),
        RelOp::Mark(rel, name) => put(
            with_dirs(dest, rel),
            rel.push(name),
            Shape::File(Seq::empty()),
        ),
        RelOp::Remove(rel) => without(dest, rel),
        RelOp::MakeWay(rel) => with_way(dest, rel),
        RelOp::Clear(rel) => emptied(dest, rel),
    }
}

/// The destination tree after several operations in a row.
pub open spec fn run(src: Shape, dest: Shape, ops: Seq<RelOp>) -> Shape
    decreases ops.len(),
{
    if ops.len() == 0 {
        dest
    } else {
        effect(src, run(src, dest, ops.drop_last()), ops.last())
    }
}

/// Running two lists in a row.
pub proof fn lemma_run_add(src: Shape, dest: Shape, a: Seq<RelOp>, b: Seq<RelOp>)
    ensures
        run(src, dest, a + b) == run(src, run(src, dest, a), b),
    decreases b.len(),
{
    if b.len() == 0 {
        assert(a + b =~= a);
    } else {
        assert((a + b).drop_last() =~= a + b.drop_last());
        assert((a + b).last() == b.last());
        lemma_run_add(src, dest, a, b.drop_last());
    }
}

/// Running a single operation.
pub proof fn lemma_run_single(src: Shape, dest: Shape, op: RelOp)
    ensures
        run(src, dest, seq![op]) == effect(src, dest, op),
{
    assert(seq![op].drop_last() =~= Seq::<RelOp>::empty());
    assert(run(src, dest, Seq::<RelOp>::empty()) == dest);
}

/// An operation that needs nothing to stand at its path yet.
pub open spec fn creates(op: RelOp) -> bool {
    op is MakeDir || op is CopyFile || op is MakeLink || op is Mark
}

/// An operation that stays below the directory: it does not remove the
/// directory itself.
pub open spec fn inside(op: RelOp) -> bool {
    match op {
        RelOp::Remove(rel) => rel.len() > 0,
        RelOp::MakeWay(rel) => rel.len() > 0,
        _ => true,
    }
}

/// An operation one directory further down acts on what stands under the name.
proof fn lemma_effect_under(
    sm: Map<Seq<char>, Shape>,
    dm: Map<Seq<char>, Shape>,
    name: Seq<char>,
    op: RelOp,
)
    requires
        sm.contains_key(name) || !(op is CopyFile),
        dm.contains_key(name) || creates(op),
        inside(op),
    ensures
        effect(Shape::Dir(sm), Shape::Dir(dm), fs::under_one(name, op)) == Shape::Dir(
            dm.insert(name, effect(sm[name], child_or_dir(dm, name), op)),
        ),
{
    let rel = match op {
        RelOp::MakeDir(rel) => rel,
        RelOp::CopyFile(rel) => rel,
        RelOp::MakeLink(rel, _) => rel,
        RelOp::Mark(rel, _) => rel,
        RelOp::Remove(rel) => rel,
        RelOp::MakeWay(rel) => rel,
        RelOp::Clear(rel) => rel,
    };
    let deep = seq![name] + rel;
    assert(deep[0] == name);
    assert(deep.skip(1) =~= rel);
    match op {
        RelOp::Mark(_, file) => {
            let made = with_dirs(Shape::Dir(dm), deep);
            let inner = with_dirs(child_or_dir(dm, name), rel);
            assert(made == Shape::Dir(dm.insert(name, inner)));
            let all = deep.push(file);
            assert(all[0] == name);
            assert(all.skip(1) =~= rel.push(file));
            let m2 = dm.insert(name, inner);
            assert(child_or_dir(m2, name) == inner);
            let leaf = put(inner, rel.push(file), Shape::File(Seq::empty()));
            assert(put(made, all, Shape::File(Seq::empty())) == Shape::Dir(m2.insert(name, leaf)));
            assert(m2.insert(name, leaf) =~= dm.insert(name, leaf));
        },
        RelOp::MakeWay(_) => {
            assert(dm.insert(name, dm[name]) =~= dm);
        },
        _ => {},
    }
}

/// Operations one directory further down act on what stands under the name.
pub proof fn lemma_run_under(
    sm: Map<Seq<char>, Shape>,
    dm: Map<Seq<char>, Shape>,
    name: Seq<char>,
    ops: Seq<RelOp>,
)
    requires
        ops.len() > 0,
        dm.contains_key(name) || creates(ops[0]),
        forall|i: int|
            0 <= i < ops.len() ==> inside(#[trigger] ops[i]) && (sm.contains_key(name)
                || !(ops[i] is CopyFile)),
    ensures
        run(Shape::Dir(sm), Shape::Dir(dm), fs::under(name, ops)) == Shape::Dir(
            dm.insert(name, run(sm[name], child_or_dir(dm, name), ops)),
        ),
    decreases ops.len(),
{
    let down = fs::under(name, ops);
    assert(down.last() == fs::under_one(name, ops.last()));
    assert(down.drop_last() =~= fs::under(name, ops.drop_last()));
    let op = ops[ops.len() - 1];
    assert(inside(op));
    if ops.len() == 1 {
        assert(fs::under(name, ops.drop_last()) =~= Seq::<RelOp>::empty());
        assert(run(Shape::Dir(sm), Shape::Dir(dm), down.drop_last()) == Shape::Dir(dm));
        assert(run(sm[name], child_or_dir(dm, name), ops.drop_last()) == child_or_dir(dm, name));
        lemma_effect_under(sm, dm, name, op);
    } else {
        let rest = ops.drop_last();
        assert forall|i: int| 0 <= i < rest.len() implies inside(#[trigger] rest[i]) && (
        sm.contains_key(name) || !(rest[i] is CopyFile)) by {
            assert(rest[i] == ops[i]);
        }
        lemma_run_under(sm, dm, name, rest);
        let inner = run(sm[name], child_or_dir(dm, name), rest);
        let m2 = dm.insert(name, inner);
        lemma_effect_under(sm, m2, name, op);
        assert(child_or_dir(m2, name) == inner);
        assert(m2.insert(name, effect(sm[name], inner, op)) =~= dm.insert(
            name,
            effect(sm[name], inner, op),
        ));
    }
}

/// The names that `shapes` knows are those of the entries.
pub proof fn lemma_shapes_dom(entries: Seq<Entry>, name: Seq<char>)
    ensures
        tree::shapes(entries).contains_key(name) <==> exists|i: int|
            0 <= i < entries.len() && (#[trigger] entries[i]).name@ == name,
    decreases entries.len(),
{
    if entries.len() > 0 {
        let rest = entries.drop_last();
        lemma_shapes_dom(rest, name);
        if tree::shapes(rest).contains_key(name) {
            let i = choose|i: int| 0 <= i < rest.len() && (#[trigger] rest[i]).name@ == name;
            assert(entries[i].name@ == name);
        }
        if exists|i: int| 0 <= i < entries.len() && (#[trigger] entries[i]).name@ == name {
            let i = choose|i: int| 0 <= i < entries.len() && (#[trigger] entries[i]).name@ == name;
            if i < rest.len() {
                assert(rest[i].name@ == name);
            } else {
                assert(entries.last().name@ == name);
            }
        }
        if entries.last().name@ == name {
            assert(entries[entries.len() - 1].name@ == name);
        }
    }
}

/// Where names are distinct, an entry's name leads to the entry's tree.
pub proof fn lemma_shapes_at(entries: Seq<Entry>, i: int)
    requires
        tree::names(entries).no_duplicates(),
        0 <= i < entries.len(),
    ensures
        tree::shapes(entries).contains_key(entries[i].name@),
        tree::shapes(entries)[entries[i].name@] == tree::shape(entries[i].node),
    decreases entries.len(),
{
    let names = tree::names(entries);
    if i < entries.len() - 1 {
        let rest = entries.drop_last();
        assert(tree::names(rest) =~= names.drop_last());
        lemma_shapes_at(rest, i);
        assert(rest[i] == entries[i]);
        assert(names[i] != names[entries.len() - 1]);
    }
}

/// Distinct names stay distinct without the last entry.
pub proof fn lemma_distinct_prefix(entries: Seq<Entry>)
    requires
        entries.len() > 0,
        tree::distinct(entries),
    ensures
        tree::distinct(entries.drop_last()),
        tree::distinct_below(entries.last().node),
        !tree::shapes(entries.drop_last()).contains_key(entries.last().name@),
{
    let rest = entries.drop_last();
    let names = tree::names(entries);
    assert(tree::names(rest) =~= names.drop_last());
    assert forall|i: int| 0 <= i < rest.len() implies tree::distinct_below(
        (#[trigger] rest[i]).node,
    ) by {
        assert(rest[i] == entries[i]);
    }
    assert(tree::distinct_below(entries[entries.len() - 1].node));
    lemma_shapes_dom(rest, entries.last().name@);
    if tree::shapes(rest).contains_key(entries.last().name@) {
        let i = choose|i: int|
            0 <= i < rest.len() && (#[trigger] rest[i]).name@ == entries.last().name@;
        assert(names[i] == names[entries.len() - 1]);
    }
}

/// Copying a node only creates, and stays inside the destination.
pub proof fn lemma_node_ops_create(n: Node)
    ensures
        fs::node_ops(n).len() > 0,
        forall|i: int|
            0 <= i < fs::node_ops(n).len() ==> creates(#[trigger] fs::node_ops(n)[i]) && inside(
                fs::node_ops(n)[i],
            ),
    decreases n,
{
    match n {
        Node::Dir { entries } => {
            lemma_entry_ops_create(entries@);
            let ops = fs::node_ops(n);
            assert forall|i: int| 0 <= i < ops.len() implies creates(#[trigger] ops[i]) && inside(
                ops[i],
            ) by {
                if i > 0 {
                    assert(ops[i] == fs::entry_ops(entries@)[i - 1]);
                }
            }
        },
        _ => {},
    }
}

/// Copying entries only creates, and stays inside the destination.
pub proof fn lemma_entry_ops_create(entries: Seq<Entry>)
    ensures
        forall|i: int|
            0 <= i < fs::entry_ops(entries).len() ==> creates(#[trigger] fs::entry_ops(entries)[i])
                && inside(fs::entry_ops(entries)[i]),
    decreases entries,
{
    if entries.len() > 0 {
        let before = fs::entry_ops(entries.drop_last());
        let node = fs::node_ops(entries.last().node);
        lemma_entry_ops_create(entries.drop_last());
        lemma_node_ops_create(entries.last().node);
        let ops = fs::entry_ops(entries);
        assert forall|i: int| 0 <= i < ops.len() implies creates(#[trigger] ops[i]) && inside(
            ops[i],
        ) by {
            if i < before.len() {
                assert(ops[i] == before[i]);
            } else {
                assert(ops[i] == fs::under_one(entries.last().name@, node[i - before.len()]));
                assert(creates(node[i - before.len()]));
            }
        }
    }
}

/// Copying the entries of a directory into a directory where none of their names
/// is taken adds exactly those entries.
pub proof fn lemma_run_entry_ops(
    entries: Seq<Entry>,
    sm: Map<Seq<char>, Shape>,
    dm: Map<Seq<char>, Shape>,
)
    requires
        tree::distinct(entries),
        forall|i: int|
            0 <= i < entries.len() ==> sm.contains_key((#[trigger] entries[i]).name@)
                && sm[entries[i].name@] == tree::shape(entries[i].node),
        forall|i: int| 0 <= i < entries.len() ==> !dm.contains_key((#[trigger] entries[i]).name@),
    ensures
        run(Shape::Dir(sm), Shape::Dir(dm), fs::entry_ops(entries)) == Shape::Dir(
            dm.union_prefer_right(tree::shapes(entries)),
        ),
    decreases entries,
{
    if entries.len() == 0 {
        assert(dm.union_prefer_right(tree::shapes(entries)) =~= dm);
    } else {
        let rest = entries.drop_last();
        let last = entries.last();
        lemma_distinct_prefix(entries);
        assert forall|i: int| 0 <= i < rest.len() implies sm.contains_key(
            (#[trigger] rest[i]).name@,
        ) && sm[rest[i].name@] == tree::shape(rest[i].node) && !dm.contains_key(rest[i].name@) by {
            assert(rest[i] == entries[i]);
        }
        lemma_run_entry_ops(rest, sm, dm);
        let m = dm.union_prefer_right(tree::shapes(rest));
        assert(entries[entries.len() - 1] == last);
        assert(!m.contains_key(last.name@));
        let ops = fs::node_ops(last.node);
        lemma_node_ops_create(last.node);
        lemma_run_add(
            Shape::Dir(sm),
            Shape::Dir(dm),
            fs::entry_ops(rest),
            fs::under(last.name@, ops),
        );
        lemma_run_under(sm, m, last.name@, ops);
        lemma_run_node_ops(last.node);
        assert(m.insert(last.name@, tree::shape(last.node)) =~= dm.union_prefer_right(
            tree::shapes(entries),
        ));
    }
}

/// Copying a node into an empty place reproduces it.
pub proof fn lemma_run_node_ops(n: Node)
    requires
        tree::distinct_below(n),
    ensures
        run(tree::shape(n), Shape::Dir(Map::empty()), fs::node_ops(n)) == tree::shape(n),
    decreases n,
{
    let empty = Map::<Seq<char>, Shape>::empty();
    match n {
        Node::Dir { entries } => {
            let sm = tree::shapes(entries@);
            let head = seq![RelOp::MakeDir(Seq::<Seq<char>>::empty())];
            lemma_run_add(Shape::Dir(sm), Shape::Dir(empty), head, fs::entry_ops(entries@));
            lemma_run_single(
                Shape::Dir(sm),
                Shape::Dir(empty),
                RelOp::MakeDir(Seq::<Seq<char>>::empty()),
            );
            assert forall|i: int| 0 <= i < entries@.len() implies sm.contains_key(
                (#[trigger] entries@[i]).name@,
            ) && sm[entries@[i].name@] == tree::shape(entries@[i].node) by {
                lemma_shapes_at(entries@, i);
            }
            lemma_run_entry_ops(entries@, sm, empty);
            assert(empty.union_prefer_right(sm) =~= sm);
        },
        Node::Link { target } => {
            lemma_run_single(
                tree::shape(n),
                Shape::Dir(empty),
                RelOp::MakeLink(Seq::<Seq<char>>::empty(), target@),
            );
        },
        _ => {
            lemma_run_single(
                tree::shape(n),
                Shape::Dir(empty),
                RelOp::CopyFile(Seq::<Seq<char>>::empty()),
            );
        },
    }
}

/// Copying a directory into an empty directory reproduces it: the copy holds the
/// same files, links and directories under the same names.
pub proof fn copied_tree_is_the_same(entries: Seq<Entry>)
    requires
        tree::distinct(entries),
    ensures
        run(
            Shape::Dir(tree::shapes(entries)),
            Shape::Dir(Map::empty()),
            seq![RelOp::MakeDir(Seq::empty())] + fs::entry_ops(entries),
        ) == Shape::Dir(tree::shapes(entries)),
{
    let sm = tree::shapes(entries);
    let empty = Map::<Seq<char>, Shape>::empty();
    let head = seq![RelOp::MakeDir(Seq::<Seq<char>>::empty())];
    lemma_run_add(Shape::Dir(sm), Shape::Dir(empty), head, fs::entry_ops(entries));
    lemma_run_single(
        Shape::Dir(sm),
        Shape::Dir(empty),
        RelOp::MakeDir(Seq::<Seq<char>>::empty()),
    );
    assert forall|i: int| 0 <= i < entries.len() implies sm.contains_key(
        (#[trigger] entries[i]).name@,
    ) && sm[entries[i].name@] == tree::shape(entries[i].node) by {
        lemma_shapes_at(entries, i);
    }
    lemma_run_entry_ops(entries, sm, empty);
    assert(empty.union_prefer_right(sm) =~= sm);
}

} // verus!
