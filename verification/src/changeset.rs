//! A changeset leads from the parent's tree to the current one.

use vstd::prelude::*;

use crate::effect;
use crate::fs::{self, RelOp};
use crate::overlay2;
use crate::text;
use crate::tree::{self, Entry, Node, Shape};

verus! {

/// A tree of files, links and directories in which no name is one that
/// changesets use for their own purposes.
pub open spec fn plain(entries: Seq<Entry>) -> bool
    decreases entries,
{
    forall|i: int|
        0 <= i < entries.len() ==> !overlay2::whiteout_name((#[trigger] entries[i]).name@)
            && plain_node(entries[i].node)
}

/// What stands at a path of a plain tree.
pub open spec fn plain_node(n: Node) -> bool
    decreases n,
{
    match n {
        Node::Dir { entries } => plain(entries@),
        Node::Other => false,
        _ => true,
    }
}

/// What a changeset holds under the name of `e`, if anything.
pub open spec fn change_of(parent: Seq<Entry>, e: Entry) -> Option<Shape>
    decreases e, 0int,
{
    let j = tree::first_named(parent, e.name@);
    if overlay2::whiteout_name(e.name@) {
        None
    } else if !(0 <= j < parent.len()) {
        Some(tree::shape(e.node))
    } else {
        match (parent[j].node, e.node) {
            (Node::Dir { entries: p }, Node::Dir { entries: c }) => if overlay2::diff_ops(
                p@,
                c@,
            ).len() == 0 {
                None
            } else {
                Some(Shape::Dir(delta(p@, c@)))
            },
            _ => if overlay2::same_node(parent[j].node, e.node) {
                None
            } else {
                Some(tree::shape(e.node))
            },
        }
    }
}

/// What a changeset holds under the names of the current directory.
pub open spec fn changed(parent: Seq<Entry>, current: Seq<Entry>) -> Map<Seq<char>, Shape>
    decreases current, 1int,
{
    if current.len() == 0 {
        Map::empty()
    } else {
        let before = changed(parent, current.drop_last());
        match change_of(parent, current.last()) {
            None => before,
            Some(s) => before.insert(current.last().name@, s),
        }
    }
}

/// `m` with the whiteouts for names of `parent` that `current` does not have.
pub open spec fn with_gone(
    m: Map<Seq<char>, Shape>,
    parent: Seq<Entry>,
    current: Seq<Entry>,
) -> Map<Seq<char>, Shape>
    decreases parent.len(),
{
    if parent.len() == 0 {
        m
    } else {
        let before = with_gone(m, parent.drop_last(), current);
        let name = parent.last().name@;
        if overlay2::whiteout_name(name) || overlay2::has_entry(current, name) {
            before
        } else {
            before.insert(overlay2::whiteout_prefix() + name, Shape::File(Seq::empty()))
        }
    }
}

/// What the changeset between two directories holds.
pub open spec fn delta(parent: Seq<Entry>, current: Seq<Entry>) -> Map<Seq<char>, Shape>
    decreases current, 2int,
{
    with_gone(changed(parent, current), parent, current)
}

// ---------------------------------------------------------------------------
// The changeset's plan produces the changeset
// ---------------------------------------------------------------------------

/// Every operation of a list creates, and stays inside the destination.
spec fn all_create(ops: Seq<RelOp>) -> bool {
    forall|i: int|
        0 <= i < ops.len() ==> effect::creates(#[trigger] ops[i]) && effect::inside(ops[i])
}

proof fn lemma_all_create_add(a: Seq<RelOp>, b: Seq<RelOp>)
    requires
        all_create(a),
        all_create(b),
    ensures
        all_create(a + b),
{
    let all = a + b;
    assert forall|i: int| 0 <= i < all.len() implies effect::creates(#[trigger] all[i])
        && effect::inside(all[i]) by {
        if i < a.len() {
            assert(all[i] == a[i]);
        } else {
            assert(all[i] == b[i - a.len()]);
        }
    }
}

proof fn lemma_all_create_under(name: Seq<char>, ops: Seq<RelOp>)
    requires
        all_create(ops),
    ensures
        all_create(fs::under(name, ops)),
{
    let all = fs::under(name, ops);
    assert forall|i: int| 0 <= i < all.len() implies effect::creates(#[trigger] all[i])
        && effect::inside(all[i]) by {
        assert(all[i] == fs::under_one(name, ops[i]));
        assert(effect::creates(ops[i]));
    }
}

proof fn lemma_copied_create(e: Entry)
    ensures
        all_create(
            seq![RelOp::MakeDir(Seq::empty())] + fs::under(e.name@, fs::node_ops(e.node)),
        ),
{
    effect::lemma_node_ops_create(e.node);
    lemma_all_create_under(e.name@, fs::node_ops(e.node));
    lemma_all_create_add(
        seq![RelOp::MakeDir(Seq::empty())],
        fs::under(e.name@, fs::node_ops(e.node)),
    );
}

proof fn lemma_change_create(parent: Seq<Entry>, e: Entry)
    ensures
        all_create(overlay2::change_ops(parent, e)),
    decreases e, 0int,
{
    lemma_copied_create(e);
    let j = tree::first_named(parent, e.name@);
    if !overlay2::whiteout_name(e.name@) && 0 <= j < parent.len() {
        match (parent[j].node, e.node) {
            (Node::Dir { entries: p }, Node::Dir { entries: c }) => {
                lemma_diff_create(p@, c@);
                lemma_all_create_under(e.name@, overlay2::diff_ops(p@, c@));
            },
            _ => {},
        }
    }
}

proof fn lemma_changed_create(parent: Seq<Entry>, current: Seq<Entry>)
    ensures
        all_create(overlay2::changed_ops(parent, current)),
    decreases current, 1int,
{
    if current.len() > 0 {
        lemma_changed_create(parent, current.drop_last());
        lemma_change_create(parent, current.last());
        lemma_all_create_add(
            overlay2::changed_ops(parent, current.drop_last()),
            overlay2::change_ops(parent, current.last()),
        );
    }
}

proof fn lemma_gone_create(parent: Seq<Entry>, current: Seq<Entry>)
    ensures
        all_create(overlay2::gone_ops(parent, current)),
        forall|i: int|
            0 <= i < overlay2::gone_ops(parent, current).len() ==> (
            #[trigger] overlay2::gone_ops(parent, current)[i]) is Mark,
    decreases parent.len(),
{
    if parent.len() > 0 {
        lemma_gone_create(parent.drop_last(), current);
        let before = overlay2::gone_ops(parent.drop_last(), current);
        let all = overlay2::gone_ops(parent, current);
        assert forall|i: int| 0 <= i < all.len() implies effect::creates(#[trigger] all[i])
            && effect::inside(all[i]) && all[i] is Mark by {
            if i < before.len() {
                assert(all[i] == before[i]);
            }
        }
    }
}

proof fn lemma_diff_create(parent: Seq<Entry>, current: Seq<Entry>)
    ensures
        all_create(overlay2::diff_ops(parent, current)),
    decreases current, 2int,
{
    lemma_changed_create(parent, current);
    lemma_gone_create(parent, current);
    lemma_all_create_add(
        overlay2::changed_ops(parent, current),
        overlay2::gone_ops(parent, current),
    );
}

/// The names under which a changeset holds something are names of the current
/// directory.
proof fn lemma_changed_names(parent: Seq<Entry>, current: Seq<Entry>, name: Seq<char>)
    ensures
        changed(parent, current).contains_key(name) ==> overlay2::has_entry(current, name),
    decreases current.len(),
{
    if current.len() > 0 {
        let rest = current.drop_last();
        lemma_changed_names(parent, rest, name);
        if changed(parent, rest).contains_key(name) {
            let i = choose|i: int| 0 <= i < rest.len() && (#[trigger] rest[i]).name@ == name;
            assert(current[i].name@ == name);
        }
        assert(current[current.len() - 1] == current.last());
    }
}

/// Copying a changed entry puts it under its name.
proof fn lemma_run_copied(
    sm: Map<Seq<char>, Shape>,
    m: Map<Seq<char>, Shape>,
    e: Entry,
)
    requires
        sm.contains_key(e.name@),
        sm[e.name@] == tree::shape(e.node),
        tree::distinct_below(e.node),
        !m.contains_key(e.name@) || !(e.node is Dir),
    ensures
        effect::run(
            Shape::Dir(sm),
            Shape::Dir(m),
            seq![RelOp::MakeDir(Seq::empty())] + fs::under(e.name@, fs::node_ops(e.node)),
        ) == Shape::Dir(m.insert(e.name@, tree::shape(e.node))),
{
    let head = seq![RelOp::MakeDir(Seq::<Seq<char>>::empty())];
    let ops = fs::node_ops(e.node);
    effect::lemma_run_add(Shape::Dir(sm), Shape::Dir(m), head, fs::under(e.name@, ops));
    effect::lemma_run_single(
        Shape::Dir(sm),
        Shape::Dir(m),
        RelOp::MakeDir(Seq::<Seq<char>>::empty()),
    );
    effect::lemma_node_ops_create(e.node);
    effect::lemma_run_under(sm, m, e.name@, ops);
    if m.contains_key(e.name@) {
        let was = m[e.name@];
        match e.node {
            Node::Link { target } => {
                effect::lemma_run_single(
                    tree::shape(e.node),
                    was,
                    RelOp::MakeLink(Seq::<Seq<char>>::empty(), target@),
                );
            },
            _ => {
                effect::lemma_run_single(
                    tree::shape(e.node),
                    was,
                    RelOp::CopyFile(Seq::<Seq<char>>::empty()),
                );
            },
        }
    } else {
        effect::lemma_run_node_ops(e.node);
    }
}

/// Running the plan for the current directory's names.
proof fn lemma_run_changed(
    parent: Seq<Entry>,
    current: Seq<Entry>,
    sm: Map<Seq<char>, Shape>,
)
    requires
        tree::distinct(parent),
        tree::distinct(current),
        forall|i: int|
            0 <= i < current.len() ==> sm.contains_key((#[trigger] current[i]).name@)
                && sm[current[i].name@] == tree::shape(current[i].node),
    ensures
        effect::run(
            Shape::Dir(sm),
            Shape::Dir(Map::empty()),
            overlay2::changed_ops(parent, current),
        ) == Shape::Dir(changed(parent, current)),
    decreases current, 1int,
{
    let none = Shape::Dir(Map::empty());
    if current.len() > 0 {
        let rest = current.drop_last();
        let e = current.last();
        effect::lemma_distinct_prefix(current);
        assert forall|i: int| 0 <= i < rest.len() implies sm.contains_key(
            (#[trigger] rest[i]).name@,
        ) && sm[rest[i].name@] == tree::shape(rest[i].node) by {
            assert(rest[i] == current[i]);
        }
        lemma_run_changed(parent, rest, sm);
        effect::lemma_run_add(
            Shape::Dir(sm),
            none,
            overlay2::changed_ops(parent, rest),
            overlay2::change_ops(parent, e),
        );
        let m = changed(parent, rest);
        lemma_changed_names(parent, rest, e.name@);
        effect::lemma_shapes_dom(rest, e.name@);
        assert(!m.contains_key(e.name@));
        assert(current[current.len() - 1] == e);
        let j = tree::first_named(parent, e.name@);
        let ops_e = overlay2::change_ops(parent, e);
        if overlay2::whiteout_name(e.name@) {
            assert(change_of(parent, e) is None);
        } else if !(0 <= j < parent.len()) {
            assert(change_of(parent, e) == Some(tree::shape(e.node)));
            lemma_run_copied(sm, m, e);
        } else {
            match (parent[j].node, e.node) {
                (Node::Dir { entries: p }, Node::Dir { entries: c }) => {
                    assert(tree::distinct_below(parent[j].node));
                    let ops = overlay2::diff_ops(p@, c@);
                    lemma_run_diff(p@, c@);
                    lemma_diff_create(p@, c@);
                    assert(ops_e == fs::under(e.name@, ops));
                    if ops.len() > 0 {
                        assert(change_of(parent, e) == Some(Shape::Dir(delta(p@, c@))));
                        effect::lemma_run_under(sm, m, e.name@, ops);
                    } else {
                        assert(change_of(parent, e) is None);
                        assert(fs::under(e.name@, ops) =~= Seq::<RelOp>::empty());
                    }
                },
                _ => {
                    if !overlay2::same_node(parent[j].node, e.node) {
                        assert(change_of(parent, e) == Some(tree::shape(e.node)));
                        lemma_run_copied(sm, m, e);
                    } else {
                        assert(change_of(parent, e) is None);
                    }
                },
            }
        }
    }
}

/// Running the plan for the names that are gone.
proof fn lemma_run_gone(
    src: Shape,
    m: Map<Seq<char>, Shape>,
    parent: Seq<Entry>,
    current: Seq<Entry>,
)
    ensures
        effect::run(src, Shape::Dir(m), overlay2::gone_ops(parent, current)) == Shape::Dir(
            with_gone(m, parent, current),
        ),
    decreases parent.len(),
{
    if parent.len() > 0 {
        let rest = parent.drop_last();
        let name = parent.last().name@;
        lemma_run_gone(src, m, rest, current);
        if !(overlay2::whiteout_name(name) || overlay2::has_entry(current, name)) {
            let before = overlay2::gone_ops(rest, current);
            let mark = overlay2::whiteout_prefix() + name;
            let op = RelOp::Mark(Seq::<Seq<char>>::empty(), mark);
            let all = overlay2::gone_ops(parent, current);
            assert(all.drop_last() =~= before);
            assert(all.last() == op);
            let b = with_gone(m, rest, current);
            let path = Seq::<Seq<char>>::empty().push(mark);
            assert(path[0] == mark);
            assert(path.skip(1) =~= Seq::<Seq<char>>::empty());
            assert(effect::with_dirs(Shape::Dir(b), Seq::<Seq<char>>::empty()) == Shape::Dir(b));
            let file = Shape::File(Seq::<u8>::empty());
            assert(effect::put(effect::child_or_dir(b, mark), path.skip(1), file) == file);
            assert(effect::put(Shape::Dir(b), path, file) == Shape::Dir(b.insert(mark, file)));
        }
    }
}

/// The plan of a changeset, run into an empty directory, produces the changeset.
pub proof fn lemma_run_diff(parent: Seq<Entry>, current: Seq<Entry>)
    requires
        tree::distinct(parent),
        tree::distinct(current),
    ensures
        effect::run(
            Shape::Dir(tree::shapes(current)),
            Shape::Dir(Map::empty()),
            overlay2::diff_ops(parent, current),
        ) == Shape::Dir(delta(parent, current)),
    decreases current, 2int,
{
    let sm = tree::shapes(current);
    assert forall|i: int| 0 <= i < current.len() implies sm.contains_key(
        (#[trigger] current[i]).name@,
    ) && sm[current[i].name@] == tree::shape(current[i].node) by {
        effect::lemma_shapes_at(current, i);
    }
    lemma_run_changed(parent, current, sm);
    lemma_run_gone(Shape::Dir(sm), changed(parent, current), parent, current);
    effect::lemma_run_add(
        Shape::Dir(sm),
        Shape::Dir(Map::empty()),
        overlay2::changed_ops(parent, current),
        overlay2::gone_ops(parent, current),
    );
}

// ---------------------------------------------------------------------------
// Applying the changeset to the parent gives the current directory
// ---------------------------------------------------------------------------

/// What a changeset holds under the name of an entry.
proof fn lemma_changed_at(parent: Seq<Entry>, current: Seq<Entry>, i: int)
    requires
        tree::distinct(current),
        0 <= i < current.len(),
    ensures
        match change_of(parent, current[i]) {
            Some(s) => changed(parent, current).contains_key(current[i].name@) && changed(
                parent,
                current,
            )[current[i].name@] == s,
            None => !changed(parent, current).contains_key(current[i].name@),
        },
    decreases current.len(),
{
    let rest = current.drop_last();
    effect::lemma_distinct_prefix(current);
    if i < rest.len() {
        lemma_changed_at(parent, rest, i);
        assert(rest[i] == current[i]);
        assert(tree::names(current)[i] != tree::names(current)[current.len() - 1]);
    } else {
        lemma_changed_names(parent, rest, current[i].name@);
        effect::lemma_shapes_dom(rest, current[i].name@);
    }
}

/// Some name of `parent` that `current` does not have gets the whiteout `w`.
spec fn marked(parent: Seq<Entry>, current: Seq<Entry>, w: Seq<char>) -> bool {
    exists|k: int|
        {
            &&& 0 <= k < parent.len()
            &&& !overlay2::whiteout_name((#[trigger] parent[k]).name@)
            &&& !overlay2::has_entry(current, parent[k].name@)
            &&& w == overlay2::whiteout_prefix() + parent[k].name@
        }
}

/// Which names the whiteouts add.
proof fn lemma_with_gone_at(
    m: Map<Seq<char>, Shape>,
    parent: Seq<Entry>,
    current: Seq<Entry>,
    w: Seq<char>,
)
    ensures
        with_gone(m, parent, current).contains_key(w) == (m.contains_key(w) || marked(
            parent,
            current,
            w,
        )),
        !marked(parent, current, w) ==> with_gone(m, parent, current)[w] == m[w],
    decreases parent.len(),
{
    if parent.len() > 0 {
        let rest = parent.drop_last();
        let last = parent[parent.len() - 1];
        lemma_with_gone_at(m, rest, current, w);
        if marked(rest, current, w) {
            let k = choose|k: int|
                {
                    &&& 0 <= k < rest.len()
                    &&& !overlay2::whiteout_name((#[trigger] rest[k]).name@)
                    &&& !overlay2::has_entry(current, rest[k].name@)
                    &&& w == overlay2::whiteout_prefix() + rest[k].name@
                };
            assert(parent[k] == rest[k]);
            assert(marked(parent, current, w));
        } else if marked(parent, current, w) {
            let k = choose|k: int|
                {
                    &&& 0 <= k < parent.len()
                    &&& !overlay2::whiteout_name((#[trigger] parent[k]).name@)
                    &&& !overlay2::has_entry(current, parent[k].name@)
                    &&& w == overlay2::whiteout_prefix() + parent[k].name@
                };
            if k < rest.len() {
                assert(rest[k] == parent[k]);
            }
        } else if !(overlay2::whiteout_name(last.name@) || overlay2::has_entry(
            current,
            last.name@,
        )) {
            assert(w != overlay2::whiteout_prefix() + last.name@);
        }
    }
}

/// The prefix with a name behind it is a whiteout name, leads back to the name,
/// and is not the opaque marker unless the name is one of its own.
proof fn lemma_whiteout(name: Seq<char>)
    ensures
        overlay2::whiteout_name(overlay2::whiteout_prefix() + name),
        text::after_prefix(overlay2::whiteout_prefix() + name, overlay2::whiteout_prefix())
            == Some(name),
        !overlay2::whiteout_name(name) ==> overlay2::whiteout_prefix() + name
            != overlay2::opaque_name(),
{
    reveal_strlit(".wh.");
    reveal_strlit(".wh..wh..opq");
    let p = overlay2::whiteout_prefix();
    let w = p + name;
    assert(w.take(p.len() as int) =~= p);
    assert(w.skip(p.len() as int) =~= name);
    if w == overlay2::opaque_name() {
        assert(name.take(4) =~= p) by {
            assert forall|i: int| 0 <= i < 4 implies name[i] == p[i] by {
                assert(w[4 + i] == name[i]);
                assert(overlay2::opaque_name()[4 + i] == p[i]);
            }
        }
    }
}

/// Trees with the same contents are plain together.
proof fn lemma_plain_transfer(a: Seq<Entry>, b: Seq<Entry>)
    requires
        tree::distinct(a),
        tree::distinct(b),
        tree::shapes(a) == tree::shapes(b),
        plain(b),
    ensures
        plain(a),
    decreases a,
{
    assert forall|i: int| 0 <= i < a.len() implies !overlay2::whiteout_name(
        (#[trigger] a[i]).name@,
    ) && plain_node(a[i].node) by {
        let name = a[i].name@;
        effect::lemma_shapes_at(a, i);
        effect::lemma_shapes_dom(b, name);
        let j = choose|j: int| 0 <= j < b.len() && (#[trigger] b[j]).name@ == name;
        effect::lemma_shapes_at(b, j);
        assert(plain_node(b[j].node));
        assert(tree::shape(a[i].node) == tree::shape(b[j].node));
        match (a[i].node, b[j].node) {
            (Node::Dir { entries: x }, Node::Dir { entries: y }) => {
                assert(tree::distinct_below(a[i].node));
                assert(tree::distinct_below(b[j].node));
                lemma_plain_transfer(x@, y@);
            },
            _ => {},
        }
    }
}

/// Applying an entry that is no directory puts it under its name, whatever stood
/// there.
proof fn lemma_apply_leaf(sm: Map<Seq<char>, Shape>, m: Map<Seq<char>, Shape>, e: Entry)
    requires
        sm.contains_key(e.name@),
        sm[e.name@] == tree::shape(e.node),
        !(e.node is Dir),
        !overlay2::whiteout_name(e.name@),
    ensures
        effect::run(Shape::Dir(sm), Shape::Dir(m), overlay2::apply_one_ops(e)) == Shape::Dir(
            m.insert(e.name@, tree::shape(e.node)),
        ),
{
    let first = RelOp::Remove(seq![e.name@]);
    let copied = seq![RelOp::MakeDir(Seq::empty())] + fs::under(e.name@, fs::node_ops(e.node));
    lemma_plain_name(e.name@);
    assert(overlay2::apply_one_ops(e) == seq![first] + copied);
    effect::lemma_run_add(Shape::Dir(sm), Shape::Dir(m), seq![first], copied);
    effect::lemma_run_single(Shape::Dir(sm), Shape::Dir(m), first);
    let free = m.remove(e.name@);
    assert(effect::without(Shape::Dir(m), seq![e.name@]) == Shape::Dir(free)) by {
        if !m.contains_key(e.name@) {
            assert(free =~= m);
        }
    }
    lemma_run_copied(sm, free, e);
    assert(free.insert(e.name@, tree::shape(e.node)) =~= m.insert(e.name@, tree::shape(e.node)));
}

/// Applying a directory merges it into the directory under its name; what else
/// stood there gives way to an empty one.
proof fn lemma_apply_dir(sm: Map<Seq<char>, Shape>, m: Map<Seq<char>, Shape>, e: Entry)
    requires
        sm.contains_key(e.name@),
        e.node is Dir,
        !overlay2::whiteout_name(e.name@),
    ensures
        effect::run(Shape::Dir(sm), Shape::Dir(m), overlay2::apply_one_ops(e)) == Shape::Dir(
            m.insert(
                e.name@,
                effect::run(
                    sm[e.name@],
                    if m.contains_key(e.name@) && m[e.name@] is Dir {
                        m[e.name@]
                    } else {
                        Shape::Dir(Map::empty())
                    },
                    overlay2::apply_ops(e.node->Dir_entries@),
                ),
            ),
        ),
{
    let first = RelOp::MakeWay(seq![e.name@]);
    let inner = overlay2::apply_ops(e.node->Dir_entries@);
    lemma_plain_name(e.name@);
    assert(overlay2::apply_one_ops(e) == seq![first] + fs::under(e.name@, inner));
    effect::lemma_run_add(Shape::Dir(sm), Shape::Dir(m), seq![first], fs::under(e.name@, inner));
    effect::lemma_run_single(Shape::Dir(sm), Shape::Dir(m), first);
    let free = if m.contains_key(e.name@) && m[e.name@] is Dir {
        m
    } else {
        m.remove(e.name@)
    };
    assert(effect::with_way(Shape::Dir(m), seq![e.name@]) == Shape::Dir(free)) by {
        let way = seq![e.name@];
        assert(way.skip(1) =~= Seq::<Seq<char>>::empty());
        if m.contains_key(e.name@) {
            assert(effect::at(m[e.name@], way.skip(1)) == m[e.name@]);
        } else {
            assert(free =~= m);
        }
    }
    lemma_apply_inside(e.node->Dir_entries@);
    effect::lemma_run_under(sm, free, e.name@, inner);
    let made = effect::run(sm[e.name@], effect::child_or_dir(free, e.name@), inner);
    assert(free.insert(e.name@, made) =~= m.insert(e.name@, made));
}

/// A name without the prefix is no marker.
proof fn lemma_plain_name(name: Seq<char>)
    requires
        !overlay2::whiteout_name(name),
    ensures
        name != overlay2::opaque_name(),
        text::after_prefix(name, overlay2::whiteout_prefix()) is None,
{
    reveal_strlit(".wh.");
    reveal_strlit(".wh..wh..opq");
    assert(overlay2::opaque_name().take(4) =~= overlay2::whiteout_prefix());
}

/// Applying entries of a plain tree to a directory where none of their names is
/// taken adds exactly those entries.
proof fn lemma_apply_plain_entries(
    entries: Seq<Entry>,
    sm: Map<Seq<char>, Shape>,
    dm: Map<Seq<char>, Shape>,
)
    requires
        tree::distinct(entries),
        plain(entries),
        forall|i: int|
            0 <= i < entries.len() ==> sm.contains_key((#[trigger] entries[i]).name@)
                && sm[entries[i].name@] == tree::shape(entries[i].node),
        forall|i: int| 0 <= i < entries.len() ==> !dm.contains_key((#[trigger] entries[i]).name@),
    ensures
        effect::run(Shape::Dir(sm), Shape::Dir(dm), overlay2::apply_entry_ops(entries))
            == Shape::Dir(dm.union_prefer_right(tree::shapes(entries))),
    decreases entries, 0int,
{
    if entries.len() == 0 {
        assert(dm.union_prefer_right(tree::shapes(entries)) =~= dm);
    } else {
        let rest = entries.drop_last();
        let e = entries[entries.len() - 1];
        effect::lemma_distinct_prefix(entries);
        assert forall|i: int| 0 <= i < rest.len() implies sm.contains_key(
            (#[trigger] rest[i]).name@,
        ) && sm[rest[i].name@] == tree::shape(rest[i].node) && !dm.contains_key(rest[i].name@)
            && !overlay2::whiteout_name(rest[i].name@) && plain_node(rest[i].node) by {
            assert(rest[i] == entries[i]);
        }
        lemma_apply_plain_entries(rest, sm, dm);
        let m = dm.union_prefer_right(tree::shapes(rest));
        assert(!m.contains_key(e.name@));
        assert(!overlay2::whiteout_name(e.name@));
        assert(text::after_prefix(e.name@, overlay2::whiteout_prefix()) is None);
        effect::lemma_run_add(
            Shape::Dir(sm),
            Shape::Dir(dm),
            overlay2::apply_entry_ops(rest),
            overlay2::apply_one_ops(e),
        );
        assert(m.insert(e.name@, tree::shape(e.node)) =~= dm.union_prefer_right(
            tree::shapes(entries),
        ));
        match e.node {
            Node::Dir { entries: inner } => {
                assert(plain_node(e.node));
                lemma_apply_plain(inner@);
                lemma_apply_dir(sm, m, e);
            },
            _ => {
                lemma_apply_leaf(sm, m, e);
            },
        }
    }
}

/// Applying a plain tree to an empty directory reproduces it.
proof fn lemma_apply_plain(entries: Seq<Entry>)
    requires
        tree::distinct(entries),
        plain(entries),
    ensures
        effect::run(
            Shape::Dir(tree::shapes(entries)),
            Shape::Dir(Map::empty()),
            overlay2::apply_ops(entries),
        ) == Shape::Dir(tree::shapes(entries)),
    decreases entries, 1int,
{
    let sm = tree::shapes(entries);
    let none = Map::<Seq<char>, Shape>::empty();
    let head = seq![RelOp::MakeDir(Seq::<Seq<char>>::empty())];
    assert forall|i: int| 0 <= i < entries.len() implies sm.contains_key(
        (#[trigger] entries[i]).name@,
    ) && sm[entries[i].name@] == tree::shape(entries[i].node) by {
        effect::lemma_shapes_at(entries, i);
    }
    effect::lemma_run_add(
        Shape::Dir(sm),
        Shape::Dir(none),
        head,
        overlay2::apply_entry_ops(entries),
    );
    effect::lemma_run_single(
        Shape::Dir(sm),
        Shape::Dir(none),
        RelOp::MakeDir(Seq::<Seq<char>>::empty()),
    );
    lemma_apply_plain_entries(entries, sm, none);
    assert(none.union_prefer_right(sm) =~= sm);
}

/// Applying a changeset stays inside the destination.
proof fn lemma_apply_inside(diff: Seq<Entry>)
    ensures
        overlay2::apply_ops(diff).len() > 0,
        effect::creates(overlay2::apply_ops(diff)[0]),
        forall|i: int|
            0 <= i < overlay2::apply_ops(diff).len() ==> effect::inside(
                #[trigger] overlay2::apply_ops(diff)[i],
            ),
    decreases diff, 1int,
{
    lemma_apply_entries_inside(diff);
    let all = overlay2::apply_ops(diff);
    assert forall|i: int| 0 <= i < all.len() implies effect::inside(#[trigger] all[i]) by {
        if i > 0 {
            assert(all[i] == overlay2::apply_entry_ops(diff)[i - 1]);
        }
    }
}

proof fn lemma_apply_entries_inside(diff: Seq<Entry>)
    ensures
        forall|i: int|
            0 <= i < overlay2::apply_entry_ops(diff).len() ==> effect::inside(
                #[trigger] overlay2::apply_entry_ops(diff)[i],
            ),
    decreases diff, 0int,
{
    if diff.len() > 0 {
        let before = overlay2::apply_entry_ops(diff.drop_last());
        let e = diff.last();
        let one = overlay2::apply_one_ops(e);
        let all = overlay2::apply_entry_ops(diff);
        lemma_apply_entries_inside(diff.drop_last());
        assert forall|i: int| 0 <= i < one.len() implies effect::inside(#[trigger] one[i]) by {
            match e.node {
                Node::Dir { entries } => {
                    lemma_apply_inside(entries@);
                    let inner = overlay2::apply_ops(entries@);
                    let first = seq![RelOp::MakeWay(seq![e.name@])];
                    if one == first + fs::under(e.name@, inner) && i > 0 {
                        assert(one[i] == fs::under_one(e.name@, inner[i - 1]));
                        assert(effect::inside(inner[i - 1]));
                    }
                },
                _ => {
                    lemma_copied_create(e);
                    let copied = seq![RelOp::MakeDir(Seq::empty())] + fs::under(
                        e.name@,
                        fs::node_ops(e.node),
                    );
                    if one == seq![RelOp::Remove(seq![e.name@])] + copied && i > 0 {
                        assert(one[i] == copied[i - 1]);
                    }
                },
            }
        }
        assert forall|i: int| 0 <= i < all.len() implies effect::inside(#[trigger] all[i]) by {
            if i < before.len() {
                assert(all[i] == before[i]);
            } else {
                assert(all[i] == one[i - before.len()]);
            }
        }
    }
}

/// `m` is `pm` with everything settled that the entries `done` of a changeset
/// speak of: it holds what `cm` holds under their names, and nothing under the
/// names that have a whiteout among them.
spec fn settled(
    m: Map<Seq<char>, Shape>,
    done: Seq<Entry>,
    pm: Map<Seq<char>, Shape>,
    cm: Map<Seq<char>, Shape>,
) -> bool {
    forall|n: Seq<char>|
        #![trigger m.contains_key(n)]
        if overlay2::has_entry(done, n) && !overlay2::whiteout_name(n) {
            m.contains_key(n) && cm.contains_key(n) && m[n] == cm[n]
        } else if overlay2::has_entry(done, overlay2::whiteout_prefix() + n) {
            !m.contains_key(n)
        } else {
            m.contains_key(n) == pm.contains_key(n) && (pm.contains_key(n) ==> m[n] == pm[n])
        }
}

/// An entry that is applied settles its own name and no other.
proof fn lemma_settled_insert(
    m: Map<Seq<char>, Shape>,
    done: Seq<Entry>,
    pm: Map<Seq<char>, Shape>,
    cm: Map<Seq<char>, Shape>,
)
    requires
        done.len() > 0,
        settled(m, done.drop_last(), pm, cm),
        !overlay2::whiteout_name(done.last().name@),
        cm.contains_key(done.last().name@),
    ensures
        settled(m.insert(done.last().name@, cm[done.last().name@]), done, pm, cm),
{
    let name = done.last().name@;
    let out = m.insert(name, cm[name]);
    let prefix = overlay2::whiteout_prefix();
    assert forall|n: Seq<char>| #![trigger out.contains_key(n)]
        if overlay2::has_entry(done, n) && !overlay2::whiteout_name(n) {
            out.contains_key(n) && cm.contains_key(n) && out[n] == cm[n]
        } else if overlay2::has_entry(done, prefix + n) {
            !out.contains_key(n)
        } else {
            out.contains_key(n) == pm.contains_key(n) && (pm.contains_key(n) ==> out[n] == pm[n])
        } by {
        assert(m.contains_key(n) || !m.contains_key(n));
        lemma_has_entry_push(done, n);
        lemma_has_entry_push(done, prefix + n);
        lemma_whiteout(n);
        assert(name != prefix + n);
    }
}

/// What one more entry adds to the names that are there.
proof fn lemma_has_entry_push(done: Seq<Entry>, name: Seq<char>)
    requires
        done.len() > 0,
    ensures
        overlay2::has_entry(done, name) == (overlay2::has_entry(done.drop_last(), name)
            || done.last().name@ == name),
{
    let rest = done.drop_last();
    if overlay2::has_entry(rest, name) {
        let i = choose|i: int| 0 <= i < rest.len() && (#[trigger] rest[i]).name@ == name;
        assert(done[i].name@ == name);
    }
    if overlay2::has_entry(done, name) {
        let i = choose|i: int| 0 <= i < done.len() && (#[trigger] done[i]).name@ == name;
        if i < rest.len() {
            assert(rest[i].name@ == name);
        }
    }
    assert(done[done.len() - 1] == done.last());
}

/// The first entry called by the name of an entry of a directory with distinct
/// names is that entry.
proof fn lemma_first_is(entries: Seq<Entry>, i: int)
    requires
        tree::names(entries).no_duplicates(),
        0 <= i < entries.len(),
    ensures
        tree::first_named(entries, entries[i].name@) == i,
{
    assert forall|k: int| 0 <= k < i implies (#[trigger] entries[k]).name@ != entries[i].name@ by {
        assert(tree::names(entries)[k] != tree::names(entries)[i]);
    }
    tree::lemma_first_named(entries, entries[i].name@, i);
}

/// Where no entry has the name, there is no first one.
proof fn lemma_first_none(entries: Seq<Entry>, name: Seq<char>)
    requires
        !overlay2::has_entry(entries, name),
    ensures
        tree::first_named(entries, name) == entries.len(),
{
    assert forall|k: int| 0 <= k < entries.len() implies (#[trigger] entries[k]).name@ != name by {
    }
    tree::lemma_first_named(entries, name, entries.len() as int);
}

/// Applying the first entries of a changeset settles what they speak of.
proof fn lemma_apply_prefix(
    parent: Seq<Entry>,
    current: Seq<Entry>,
    diff: Seq<Entry>,
    done: Seq<Entry>,
) -> (m: Map<Seq<char>, Shape>)
    requires
        tree::distinct(parent),
        tree::distinct(current),
        tree::distinct(diff),
        plain(parent),
        plain(current),
        tree::shapes(diff) == delta(parent, current),
        done.len() <= diff.len(),
        done == diff.take(done.len() as int),
    ensures
        effect::run(
            Shape::Dir(tree::shapes(diff)),
            Shape::Dir(tree::shapes(parent)),
            overlay2::apply_entry_ops(done),
        ) == Shape::Dir(m),
        settled(m, done, tree::shapes(parent), tree::shapes(current)),
    decreases current, 0int, done.len(),
{
    let pm = tree::shapes(parent);
    let cm = tree::shapes(current);
    let dm = tree::shapes(diff);
    let prefix = overlay2::whiteout_prefix();
    if done.len() == 0 {
        pm
    } else {
        let rest = done.drop_last();
        let e = done.last();
        let k = done.len() - 1;
        assert(rest =~= diff.take(rest.len() as int));
        let m = lemma_apply_prefix(parent, current, diff, rest);
        effect::lemma_run_add(
            Shape::Dir(dm),
            Shape::Dir(pm),
            overlay2::apply_entry_ops(rest),
            overlay2::apply_one_ops(e),
        );
        assert(diff[k] == e);
        effect::lemma_shapes_at(diff, k);
        lemma_with_gone_at(changed(parent, current), parent, current, e.name@);
        lemma_changed_names(parent, current, e.name@);
        // No earlier entry has this name.
        assert(!overlay2::has_entry(rest, e.name@)) by {
            if overlay2::has_entry(rest, e.name@) {
                let i = choose|i: int| 0 <= i < rest.len() && (#[trigger] rest[i]).name@ == e.name@;
                assert(tree::names(diff)[i] != tree::names(diff)[k]);
                assert(rest[i] == diff[i]);
            }
        }
        if marked(parent, current, e.name@) {
            let q = choose|q: int|
                {
                    &&& 0 <= q < parent.len()
                    &&& !overlay2::whiteout_name((#[trigger] parent[q]).name@)
                    &&& !overlay2::has_entry(current, parent[q].name@)
                    &&& e.name@ == prefix + parent[q].name@
                };
            let t = parent[q].name@;
            lemma_whiteout(t);
            assert(overlay2::apply_one_ops(e) == seq![RelOp::Remove(seq![t])]);
            effect::lemma_run_single(Shape::Dir(dm), Shape::Dir(m), RelOp::Remove(seq![t]));
            let out = m.remove(t);
            assert(effect::without(Shape::Dir(m), seq![t]) == Shape::Dir(out)) by {
                if !m.contains_key(t) {
                    assert(out =~= m);
                }
            }
            assert(settled(out, done, pm, cm)) by {
                assert forall|n: Seq<char>| #![trigger out.contains_key(n)]
                    if overlay2::has_entry(done, n) && !overlay2::whiteout_name(n) {
                        out.contains_key(n) && cm.contains_key(n) && out[n] == cm[n]
                    } else if overlay2::has_entry(done, prefix + n) {
                        !out.contains_key(n)
                    } else {
                        out.contains_key(n) == pm.contains_key(n) && (pm.contains_key(n) ==> out[n]
                            == pm[n])
                    } by {
                    assert(m.contains_key(n) || !m.contains_key(n));
                    lemma_has_entry_push(done, n);
                    lemma_has_entry_push(done, prefix + n);
                    lemma_whiteout(n);
                    if e.name@ == prefix + n {
                        assert(n == t);
                    }
                    if n == t {
                        effect::lemma_shapes_dom(current, t);
                        if overlay2::has_entry(done, n) {
                            assert(overlay2::has_entry(rest, n));
                            assert(cm.contains_key(n));
                        }
                    }
                }
            }
            out
        } else {
            assert(changed(parent, current).contains_key(e.name@));
            assert(overlay2::has_entry(current, e.name@));
            let i = choose|i: int|
                0 <= i < current.len() && (#[trigger] current[i]).name@ == e.name@;
            let c = current[i];
            effect::lemma_shapes_at(current, i);
            lemma_changed_at(parent, current, i);
            assert(change_of(parent, c) == Some(tree::shape(e.node)));
            assert(!overlay2::whiteout_name(e.name@));
            assert(text::after_prefix(e.name@, prefix) is None);
            let j = tree::first_named(parent, e.name@);
            lemma_whiteout(e.name@);
            // Nothing has touched the name yet.
            assert(!overlay2::has_entry(rest, prefix + e.name@)) by {
                if overlay2::has_entry(rest, prefix + e.name@) {
                    let w = prefix + e.name@;
                    let x = choose|x: int| 0 <= x < rest.len() && (#[trigger] rest[x]).name@ == w;
                    assert(rest[x] == diff[x]);
                    effect::lemma_shapes_at(diff, x);
                    lemma_with_gone_at(changed(parent, current), parent, current, w);
                    lemma_changed_names(parent, current, w);
                    if changed(parent, current).contains_key(w) {
                        let y = choose|y: int|
                            0 <= y < current.len() && (#[trigger] current[y]).name@ == w;
                        assert(!overlay2::whiteout_name(current[y].name@));
                    } else {
                        let q = choose|q: int|
                            {
                                &&& 0 <= q < parent.len()
                                &&& !overlay2::whiteout_name((#[trigger] parent[q]).name@)
                                &&& !overlay2::has_entry(current, parent[q].name@)
                                &&& w == prefix + parent[q].name@
                            };
                        lemma_whiteout(parent[q].name@);
                        assert(parent[q].name@ == e.name@);
                    }
                }
            }
            assert(m.contains_key(e.name@) == pm.contains_key(e.name@));
            assert(tree::distinct_below(e.node));
            assert(tree::distinct_below(c.node));
            assert(plain_node(c.node));
            let out = m.insert(e.name@, tree::shape(c.node));
            assert(effect::run(Shape::Dir(dm), Shape::Dir(m), overlay2::apply_one_ops(e))
                == Shape::Dir(out)) by {
                if !overlay2::has_entry(parent, e.name@) {
                    lemma_first_none(parent, e.name@);
                    effect::lemma_shapes_dom(parent, e.name@);
                    assert(!m.contains_key(e.name@));
                    match (e.node, c.node) {
                        (Node::Dir { entries: x }, Node::Dir { entries: y }) => {
                            lemma_plain_transfer(x@, y@);
                            lemma_apply_plain(x@);
                            lemma_apply_dir(dm, m, e);
                        },
                        _ => {
                            lemma_apply_leaf(dm, m, e);
                        },
                    }
                } else {
                    let q = choose|q: int|
                        0 <= q < parent.len() && (#[trigger] parent[q]).name@ == e.name@;
                    lemma_first_is(parent, q);
                    assert(j == q);
                    effect::lemma_shapes_at(parent, q);
                    assert(tree::distinct_below(parent[j].node));
                    assert(plain_node(parent[j].node));
                    match (parent[j].node, c.node) {
                        (Node::Dir { entries: p }, Node::Dir { entries: y }) => {
                            match e.node {
                                Node::Dir { entries: x } => {
                                    assert(tree::shapes(x@) == delta(p@, y@));
                                    lemma_apply_delta(p@, y@, x@);
                                    lemma_apply_dir(dm, m, e);
                                },
                                _ => {},
                            }
                        },
                        (_, Node::Dir { entries: y }) => {
                            match e.node {
                                Node::Dir { entries: x } => {
                                    lemma_plain_transfer(x@, y@);
                                    lemma_apply_plain(x@);
                                    lemma_apply_dir(dm, m, e);
                                },
                                _ => {},
                            }
                        },
                        _ => {
                            assert(tree::shape(e.node) == tree::shape(c.node));
                            lemma_apply_leaf(dm, m, e);
                        },
                    }
                }
            }
            lemma_settled_insert(m, done, pm, cm);
            out
        }
    }
}

/// Applying a changeset to the parent gives the current directory.
proof fn lemma_apply_delta(parent: Seq<Entry>, current: Seq<Entry>, diff: Seq<Entry>)
    requires
        tree::distinct(parent),
        tree::distinct(current),
        tree::distinct(diff),
        plain(parent),
        plain(current),
        tree::shapes(diff) == delta(parent, current),
    ensures
        effect::run(
            Shape::Dir(tree::shapes(diff)),
            Shape::Dir(tree::shapes(parent)),
            overlay2::apply_ops(diff),
        ) == Shape::Dir(tree::shapes(current)),
    decreases current, 1int, 0nat,
{
    let pm = tree::shapes(parent);
    let cm = tree::shapes(current);
    let dm = tree::shapes(diff);
    let prefix = overlay2::whiteout_prefix();
    let head = seq![RelOp::MakeDir(Seq::<Seq<char>>::empty())];
    assert(diff =~= diff.take(diff.len() as int));
    let m = lemma_apply_prefix(parent, current, diff, diff);
    effect::lemma_run_add(
        Shape::Dir(dm),
        Shape::Dir(pm),
        head,
        overlay2::apply_entry_ops(diff),
    );
    effect::lemma_run_single(
        Shape::Dir(dm),
        Shape::Dir(pm),
        RelOp::MakeDir(Seq::<Seq<char>>::empty()),
    );
    assert forall|n: Seq<char>|
        #![trigger m.contains_key(n)]
        m.contains_key(n) == cm.contains_key(n) && (cm.contains_key(n) ==> m[n] == cm[n]) by {
        let w = prefix + n;
        lemma_whiteout(n);
        effect::lemma_shapes_dom(diff, n);
        effect::lemma_shapes_dom(diff, w);
        effect::lemma_shapes_dom(current, n);
        effect::lemma_shapes_dom(parent, n);
        lemma_with_gone_at(changed(parent, current), parent, current, n);
        lemma_with_gone_at(changed(parent, current), parent, current, w);
        lemma_changed_names(parent, current, n);
        lemma_changed_names(parent, current, w);
        if overlay2::has_entry(diff, n) && !overlay2::whiteout_name(n) {
        } else if overlay2::has_entry(diff, w) {
            if changed(parent, current).contains_key(w) {
                let y = choose|y: int| 0 <= y < current.len() && (#[trigger] current[y]).name@ == w;
                assert(!overlay2::whiteout_name(current[y].name@));
            }
            assert(marked(parent, current, w));
            let q = choose|q: int|
                {
                    &&& 0 <= q < parent.len()
                    &&& !overlay2::whiteout_name((#[trigger] parent[q]).name@)
                    &&& !overlay2::has_entry(current, parent[q].name@)
                    &&& w == prefix + parent[q].name@
                };
            lemma_whiteout(parent[q].name@);
            assert(parent[q].name@ == n);
        } else if overlay2::has_entry(current, n) {
            let i = choose|i: int| 0 <= i < current.len() && (#[trigger] current[i]).name@ == n;
            let c = current[i];
            assert(!overlay2::whiteout_name(n));
            effect::lemma_shapes_at(current, i);
            lemma_changed_at(parent, current, i);
            assert(change_of(parent, c) is None);
            if !overlay2::has_entry(parent, n) {
                lemma_first_none(parent, n);
            } else {
                let q = choose|q: int| 0 <= q < parent.len() && (#[trigger] parent[q]).name@ == n;
                lemma_first_is(parent, q);
                effect::lemma_shapes_at(parent, q);
                assert(tree::distinct_below(parent[q].node));
                assert(tree::distinct_below(c.node));
                assert(plain_node(parent[q].node));
                assert(plain_node(c.node));
                match (parent[q].node, c.node) {
                    (Node::Dir { entries: p }, Node::Dir { entries: y }) => {
                        lemma_no_change(p@, y@);
                    },
                    _ => {
                        assert(overlay2::same_node(parent[q].node, c.node));
                    },
                }
                assert(tree::shape(parent[q].node) == tree::shape(c.node));
            }
        } else if overlay2::has_entry(parent, n) {
            let q = choose|q: int| 0 <= q < parent.len() && (#[trigger] parent[q]).name@ == n;
            assert(!overlay2::whiteout_name(parent[q].name@));
            assert(marked(parent, current, w));
        } 
    }
    assert(m =~= cm);
}

/// Directories with nothing to change between them hold the same.
proof fn lemma_no_change(parent: Seq<Entry>, current: Seq<Entry>)
    requires
        tree::distinct(parent),
        tree::distinct(current),
        plain(parent),
        plain(current),
        overlay2::diff_ops(parent, current).len() == 0,
    ensures
        tree::shapes(parent) == tree::shapes(current),
    decreases current, 2int, 0nat,
{
    let none = Seq::<Entry>::empty();
    let pm = tree::shapes(parent);
    lemma_run_diff(parent, current);
    assert(effect::run(
        Shape::Dir(tree::shapes(current)),
        Shape::Dir(Map::empty()),
        overlay2::diff_ops(parent, current),
    ) == Shape::Dir(Map::<Seq<char>, Shape>::empty()));
    assert(tree::shapes(none) == delta(parent, current));
    lemma_apply_delta(parent, current, none);
    assert(overlay2::apply_entry_ops(none) =~= Seq::<RelOp>::empty());
    assert(overlay2::apply_ops(none) =~= seq![RelOp::MakeDir(Seq::empty())]);
    effect::lemma_run_single(
        Shape::Dir(tree::shapes(none)),
        Shape::Dir(pm),
        RelOp::MakeDir(Seq::<Seq<char>>::empty()),
    );
}

/// A changeset leads from the parent to the current directory: what the plan of
/// the changeset produces in an empty directory, applied to the parent's tree,
/// gives the current tree.
///
/// A name may be of another kind in the two trees. The trees consist of files, links
/// and directories, and no name is one that changesets use for their own purposes.
pub proof fn changeset_leads_to_current(
    parent: Seq<Entry>,
    current: Seq<Entry>,
    stored: Seq<Entry>,
)
    requires
        tree::distinct(parent),
        tree::distinct(current),
        tree::distinct(stored),
        plain(parent),
        plain(current),
        Shape::Dir(tree::shapes(stored)) == effect::run(
            Shape::Dir(tree::shapes(current)),
            Shape::Dir(Map::empty()),
            overlay2::layer_ops(Some(parent), current),
        ),
    ensures
        effect::run(
            Shape::Dir(tree::shapes(stored)),
            Shape::Dir(tree::shapes(parent)),
            overlay2::apply_ops(stored),
        ) == Shape::Dir(tree::shapes(current)),
{
    let head = seq![RelOp::MakeDir(Seq::<Seq<char>>::empty())];
    let sm = Shape::Dir(tree::shapes(current));
    let none = Shape::Dir(Map::<Seq<char>, Shape>::empty());
    effect::lemma_run_add(sm, none, head, overlay2::diff_ops(parent, current));
    effect::lemma_run_single(sm, none, RelOp::MakeDir(Seq::<Seq<char>>::empty()));
    lemma_run_diff(parent, current);
    lemma_apply_delta(parent, current, stored);
}

/// The first layer of a chain, applied to an empty directory, gives the tree
/// that it was saved from.
pub proof fn first_layer_is_the_tree(current: Seq<Entry>, stored: Seq<Entry>)
    requires
        tree::distinct(current),
        tree::distinct(stored),
        plain(current),
        Shape::Dir(tree::shapes(stored)) == effect::run(
            Shape::Dir(tree::shapes(current)),
            Shape::Dir(Map::empty()),
            overlay2::layer_ops(None, current),
        ),
    ensures
        effect::run(
            Shape::Dir(tree::shapes(stored)),
            Shape::Dir(Map::empty()),
            overlay2::apply_ops(stored),
        ) == Shape::Dir(tree::shapes(current)),
{
    let head = seq![RelOp::MakeDir(Seq::<Seq<char>>::empty())];
    let sm = Shape::Dir(tree::shapes(current));
    let none = Shape::Dir(Map::<Seq<char>, Shape>::empty());
    effect::lemma_run_add(sm, none, head, head + fs::entry_ops(current));
    effect::lemma_run_single(sm, none, RelOp::MakeDir(Seq::<Seq<char>>::empty()));
    effect::copied_tree_is_the_same(current);
    lemma_plain_transfer(stored, current);
    lemma_apply_plain(stored);
}

/// The tree of a chain of layers: their changesets applied to an empty directory,
/// from the lowest layer to the highest.
pub open spec fn merged(chain: Seq<Seq<Entry>>) -> Shape
    decreases chain.len(),
{
    if chain.len() == 0 {
        Shape::Dir(Map::empty())
    } else {
        effect::run(
            Shape::Dir(tree::shapes(chain.last())),
            merged(chain.drop_last()),
            overlay2::apply_ops(chain.last()),
        )
    }
}

/// The cache gives back what was saved: a layer that stores the changeset of a tree
/// against the merged tree `parent` of the layers below it makes the merged tree of
/// the chain that tree again. The same trees are left out as in
/// [`changeset_leads_to_current`].
pub proof fn saved_layer_gives_back_the_tree(
    below: Seq<Seq<Entry>>,
    parent: Seq<Entry>,
    current: Seq<Entry>,
    stored: Seq<Entry>,
)
    requires
        tree::distinct(current),
        tree::distinct(stored),
        plain(current),
        below.len() > 0 ==> tree::distinct(parent) && plain(parent) && merged(below) == Shape::Dir(tree::shapes(parent)),
        Shape::Dir(tree::shapes(stored)) == effect::run(
            Shape::Dir(tree::shapes(current)),
            Shape::Dir(Map::empty()),
            overlay2::layer_ops(
                if below.len() > 0 {
                    Some(parent)
                } else {
                    None
                },
                current,
            ),
        ),
    ensures
        merged(below.push(stored)) == Shape::Dir(tree::shapes(current)),
{
    assert(below.push(stored).drop_last() =~= below);
    if below.len() > 0 {
        changeset_leads_to_current(parent, current, stored);
    } else {
        first_layer_is_the_tree(current, stored);
    }
}

/// The cache gives back every tree of a chain: where each layer stores the changeset of
/// its tree against the merged tree of the layers below it, as it was listed in
/// `parents`, the merged tree of the chain is the last tree that was saved. The same
/// trees are left out as in [`changeset_leads_to_current`].
pub proof fn saved_chain_gives_back_its_tree(
    trees: Seq<Seq<Entry>>,
    parents: Seq<Seq<Entry>>,
    stored: Seq<Seq<Entry>>,
)
    requires
        trees.len() > 0,
        parents.len() == trees.len(),
        stored.len() == trees.len(),
        forall|i: int|
            #![trigger trees[i]]
            0 <= i < trees.len() ==> {
                &&& tree::distinct(trees[i])
                &&& plain(trees[i])
                &&& tree::distinct(stored[i])
                &&& i > 0 ==> tree::distinct(parents[i]) && tree::shapes(parents[i])
                    == tree::shapes(trees[i - 1])
                &&& Shape::Dir(tree::shapes(stored[i])) == effect::run(
                    Shape::Dir(tree::shapes(trees[i])),
                    Shape::Dir(Map::empty()),
                    overlay2::layer_ops(
                        if i > 0 {
                            Some(parents[i])
                        } else {
                            None
                        },
                        trees[i],
                    ),
                )
            },
    ensures
        merged(stored) == Shape::Dir(tree::shapes(trees.last())),
    decreases trees.len(),
{
    let n = trees.len() - 1;
    let below = stored.drop_last();
    let current = trees[n];
    assert(below.push(stored[n]) =~= stored);
    if n > 0 {
        let rest = trees.drop_last();
        assert forall|i: int|
            #![trigger rest[i]]
            0 <= i < rest.len() implies rest[i] == trees[i] && below[i] == stored[i]
            && parents.drop_last()[i] == parents[i] && (i > 0 ==> rest[i - 1] == trees[i - 1]) by {
        }
        saved_chain_gives_back_its_tree(rest, parents.drop_last(), below);
        assert(rest.last() == trees[n - 1]);
        assert(plain(trees[n - 1]) && tree::distinct(trees[n - 1]));
        lemma_plain_transfer(parents[n], trees[n - 1]);
    }
    saved_layer_gives_back_the_tree(below, parents[n], current, stored[n]);
}

/// A layer without a changeset has the merged tree of the layers below it.
pub proof fn empty_layer_keeps_the_tree(below: Seq<Seq<Entry>>)
    ensures
        merged(below.push(Seq::empty())) == merged(below),
{
    let none = Seq::<Entry>::empty();
    assert(below.push(none).drop_last() =~= below);
    let src = Shape::Dir(tree::shapes(none));
    assert(overlay2::apply_ops(none) =~= seq![RelOp::MakeDir(Seq::empty())]);
    effect::lemma_run_single(src, merged(below), RelOp::MakeDir(Seq::empty()));
}

} // verus!
