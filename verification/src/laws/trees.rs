//! What planned steps make of a directory tree.

use vstd::prelude::*;

use crate::effect;
use crate::executor;
use crate::fs::{self, FsOpView, RelOp, StepView};
use crate::layer_cache;
use crate::materialize;
use crate::path::PathView;
use crate::pull;
use crate::stage::StateView;
use crate::tree::{self, Entry, Shape};

verus! {

/// The path from `base` to a path below it.
pub open spec fn rest_of(p: PathView, base: PathView) -> Seq<Seq<char>> {
    p.parts.skip(base.parts.len() as int)
}

/// The tree at `dest` after a step, with the tree `from` at `src`. A directory that is
/// removed as a whole is as good as empty, and what stands elsewhere is not changed.
pub open spec fn carried_out(
    src: PathView,
    from: Shape,
    dest: PathView,
    t: Shape,
    op: FsOpView,
) -> Shape {
    match op {
        FsOpView::CreateDirAll(p) if p.within(dest) => effect::with_dirs(t, rest_of(p, dest)),
        FsOpView::RemoveDirAll(p) if p == dest => Shape::Dir(Map::empty()),
        FsOpView::RemoveFile(p) if p.within(dest) => effect::with_way(t, rest_of(p, dest)),
        FsOpView::Remove(p) if p.within(dest) => effect::without(t, rest_of(p, dest)),
        FsOpView::MakeWay(p) if p.within(dest) => effect::with_way(t, rest_of(p, dest)),
        FsOpView::ClearDirectory(p) if p.within(dest) => effect::emptied(t, rest_of(p, dest)),
        FsOpView::Write(p, data) if p.within(dest) => effect::put(
            t,
            rest_of(p, dest),
            Shape::File(data),
        ),
        FsOpView::Copy(a, b) if a.within(src) && b.within(dest) => effect::put(
            t,
            rest_of(b, dest),
            effect::at(from, rest_of(a, src)),
        ),
        FsOpView::Symlink(target, p) if p.within(dest) => effect::put(
            t,
            rest_of(p, dest),
            Shape::Link(target),
        ),
        _ => t,
    }
}

/// The tree at `dest` after steps in a row.
pub open spec fn all_carried_out(
    src: PathView,
    from: Shape,
    dest: PathView,
    t: Shape,
    steps: Seq<StepView>,
) -> Shape
    decreases steps.len(),
{
    if steps.len() == 0 {
        t
    } else {
        carried_out(
            src,
            from,
            dest,
            all_carried_out(src, from, dest, t, steps.drop_last()),
            steps.last().op,
        )
    }
}

pub proof fn lemma_push(
    src: PathView,
    from: Shape,
    dest: PathView,
    t: Shape,
    steps: Seq<StepView>,
    s: StepView,
)
    ensures
        all_carried_out(src, from, dest, t, steps.push(s)) == carried_out(
            src,
            from,
            dest,
            all_carried_out(src, from, dest, t, steps),
            s.op,
        ),
{
    assert(steps.push(s).drop_last() =~= steps);
}

proof fn lemma_add(
    src: PathView,
    from: Shape,
    dest: PathView,
    t: Shape,
    a: Seq<StepView>,
    b: Seq<StepView>,
)
    ensures
        all_carried_out(src, from, dest, t, a + b) == all_carried_out(
            src,
            from,
            dest,
            all_carried_out(src, from, dest, t, a),
            b,
        ),
    decreases b.len(),
{
    if b.len() == 0 {
        assert(a + b =~= a);
    } else {
        assert((a + b).drop_last() =~= a + b.drop_last());
        lemma_add(src, from, dest, t, a, b.drop_last());
    }
}

pub proof fn lemma_below(base: PathView, rel: Seq<Seq<char>>)
    ensures
        fs::below(base, rel).within(base),
        rest_of(fs::below(base, rel), base) == rel,
{
    assert((base.parts + rel).take(base.parts.len() as int) =~= base.parts);
    assert((base.parts + rel).skip(base.parts.len() as int) =~= rel);
}

/// What is put where something was taken away replaces it.
proof fn lemma_put_without(t: Shape, rel: Seq<Seq<char>>, new: Shape)
    ensures
        effect::put(effect::without(t, rel), rel, new) == effect::put(t, rel, new),
    decreases rel.len(),
{
    if rel.len() > 0 {
        match t {
            Shape::Dir(m) => {
                if m.contains_key(rel[0]) {
                    if rel.len() == 1 {
                        let end = rel.skip(1);
                        let less = m.remove(rel[0]);
                        assert(end.len() == 0);
                        assert(effect::put(effect::child_or_dir(m, rel[0]), end, new) == new);
                        assert(effect::put(effect::child_or_dir(less, rel[0]), end, new) == new);
                        assert(m.remove(rel[0]).insert(rel[0], new) =~= m.insert(rel[0], new));
                    } else {
                        let inner = effect::without(m[rel[0]], rel.skip(1));
                        let m2 = m.insert(rel[0], inner);
                        lemma_put_without(m[rel[0]], rel.skip(1), new);
                        let put = effect::put(inner, rel.skip(1), new);
                        assert(m2[rel[0]] == inner);
                        assert(m2.insert(rel[0], put) =~= m.insert(rel[0], put));
                        assert(effect::child_or_dir(m2, rel[0]) == inner);
                        assert(effect::without(t, rel) == Shape::Dir(m2));
                        assert(effect::put(Shape::Dir(m2), rel, new) == Shape::Dir(
                            m2.insert(rel[0], put),
                        ));
                    }
                }
            },
            _ => {},
        }
    }
}

/// The steps of an operation do to the destination what the operation stands for: a
/// directory is made, a file is that of the same path below the source, a link has its
/// target, a mark is an empty file, and what is removed is gone.
pub proof fn steps_do_what_the_operation_says(
    op: RelOp,
    src: PathView,
    from: Shape,
    dest: PathView,
    t: Shape,
)
    ensures
        all_carried_out(src, from, dest, t, fs::placed_one(op, src, dest)) == effect::effect(
            from,
            t,
            op,
        ),
{
    let steps = fs::placed_one(op, src, dest);
    let none = Seq::<StepView>::empty();
    assert(all_carried_out(src, from, dest, t, none) == t);
    match op {
        RelOp::MakeLink(rel, target) => {
            lemma_below(dest, rel);
            let first = none.push(steps[0]);
            assert(steps =~= first.push(steps[1]));
            lemma_push(src, from, dest, t, none, steps[0]);
            lemma_push(src, from, dest, t, first, steps[1]);
            lemma_put_without(t, rel, Shape::Link(target));
        },
        RelOp::Mark(rel, name) => {
            lemma_below(dest, rel);
            lemma_below(dest, rel.push(name));
            assert(fs::below(dest, rel).child(name).parts =~= fs::below(
                dest,
                rel.push(name),
            ).parts);
            let first = none.push(steps[0]);
            assert(steps =~= first.push(steps[1]));
            lemma_push(src, from, dest, t, none, steps[0]);
            lemma_push(src, from, dest, t, first, steps[1]);
        },
        RelOp::CopyFile(rel) => {
            lemma_below(src, rel);
            lemma_below(dest, rel);
            assert(steps =~= none.push(steps[0]));
            lemma_push(src, from, dest, t, none, steps[0]);
        },
        RelOp::MakeDir(rel) => {
            lemma_below(dest, rel);
            assert(steps =~= none.push(steps[0]));
            lemma_push(src, from, dest, t, none, steps[0]);
        },
        RelOp::Remove(rel) => {
            lemma_below(dest, rel);
            assert(steps =~= none.push(steps[0]));
            lemma_push(src, from, dest, t, none, steps[0]);
        },
        RelOp::MakeWay(rel) => {
            lemma_below(dest, rel);
            assert(steps =~= none.push(steps[0]));
            lemma_push(src, from, dest, t, none, steps[0]);
        },
        RelOp::Clear(rel) => {
            lemma_below(dest, rel);
            assert(steps =~= none.push(steps[0]));
            lemma_push(src, from, dest, t, none, steps[0]);
        },
    }
}

/// Operations below two directories do to the second, one after the other, what they
/// stand for.
pub proof fn placed_operations_do_what_they_say(
    ops: Seq<RelOp>,
    src: PathView,
    from: Shape,
    dest: PathView,
    t: Shape,
)
    ensures
        all_carried_out(src, from, dest, t, fs::placed(ops, src, dest)) == effect::run(
            from,
            t,
            ops,
        ),
    decreases ops.len(),
{
    if ops.len() > 0 {
        let rest = ops.drop_last();
        placed_operations_do_what_they_say(rest, src, from, dest, t);
        lemma_add(
            src,
            from,
            dest,
            t,
            fs::placed(rest, src, dest),
            fs::placed_one(ops.last(), src, dest),
        );
        steps_do_what_the_operation_says(
            ops.last(),
            src,
            from,
            dest,
            effect::run(from, t, rest),
        );
    }
}

/// A tree that is copied into an empty directory is there as a whole.
pub proof fn lemma_copied(
    entries: Seq<Entry>,
    src: PathView,
    dest: PathView,
    before: Seq<StepView>,
    t: Shape,
)
    requires
        tree::distinct(entries),
        all_carried_out(src, Shape::Dir(tree::shapes(entries)), dest, t, before) == Shape::Dir(
            Map::empty(),
        ),
    ensures
        all_carried_out(
            src,
            Shape::Dir(tree::shapes(entries)),
            dest,
            t,
            before + fs::placed(
                seq![RelOp::MakeDir(Seq::empty())] + fs::entry_ops(entries),
                src,
                dest,
            ),
        ) == Shape::Dir(tree::shapes(entries)),
{
    let from = Shape::Dir(tree::shapes(entries));
    let ops = seq![RelOp::MakeDir(Seq::empty())] + fs::entry_ops(entries);
    lemma_add(src, from, dest, t, before, fs::placed(ops, src, dest));
    placed_operations_do_what_they_say(ops, src, from, dest, Shape::Dir(Map::empty()));
    effect::copied_tree_is_the_same(entries);
}

/// Making a directory that is there changes nothing.
pub proof fn lemma_made(src: PathView, from: Shape, dest: PathView, t: Shape, steps: Seq<StepView>)
    ensures
        all_carried_out(
            src,
            from,
            dest,
            t,
            steps.push(fs::must(FsOpView::CreateDirAll(dest))),
        ) == all_carried_out(src, from, dest, t, steps),
{
    lemma_push(src, from, dest, t, steps, fs::must(FsOpView::CreateDirAll(dest)));
    assert(dest.parts.take(dest.parts.len() as int) =~= dest.parts);
    assert(rest_of(dest, dest).len() == 0);
}

/// The writable copy of a root filesystem holds the same tree, whatever stood at its
/// place.
pub proof fn writable_copies_hold_the_same_tree(
    state: StateView,
    dest_exists: bool,
    entries: Seq<Entry>,
    t: Shape,
)
    requires
        tree::distinct(entries),
        !dest_exists ==> t == Shape::Dir(Map::empty()),
    ensures
        all_carried_out(
            state.rootfs,
            Shape::Dir(tree::shapes(entries)),
            state.work_rootfs,
            t,
            executor::writable_steps(state, dest_exists, entries),
        ) == Shape::Dir(tree::shapes(entries)),
{
    let src = state.rootfs;
    let dest = state.work_rootfs;
    let from = Shape::Dir(tree::shapes(entries));
    let none = Seq::<StepView>::empty();
    let gone = fs::must(FsOpView::RemoveDirAll(dest));
    let first = if dest_exists {
        none.push(gone)
    } else {
        none
    };
    assert(all_carried_out(src, from, dest, t, none) == t);
    lemma_push(src, from, dest, t, none, gone);
    lemma_made(src, from, dest, t, first);
    let made = first.push(fs::must(FsOpView::CreateDirAll(dest)));
    lemma_copied(entries, src, dest, made, t);
    let ops = seq![RelOp::MakeDir(Seq::empty())] + fs::entry_ops(entries);
    assert(executor::writable_steps(state, dest_exists, entries) =~= made + fs::placed(
        ops,
        src,
        dest,
    ));
}

/// A stage starts on the files of its base image, whatever stood at the place of its
/// root filesystem.
pub proof fn stages_start_on_the_files_of_their_base(
    bundle: PathView,
    rootfs: PathView,
    rootfs_exists: bool,
    entries: Seq<Entry>,
    t: Shape,
)
    requires
        tree::distinct(entries),
        !rootfs_exists ==> t == Shape::Dir(Map::empty()),
    ensures
        all_carried_out(
            bundle,
            Shape::Dir(tree::shapes(entries)),
            rootfs,
            t,
            executor::base_steps(bundle, rootfs, rootfs_exists, Some(entries)),
        ) == Shape::Dir(tree::shapes(entries)),
        executor::base_steps(bundle, rootfs, rootfs_exists, None).len() == 0,
{
    let from = Shape::Dir(tree::shapes(entries));
    let none = Seq::<StepView>::empty();
    let gone = fs::try_to(FsOpView::RemoveDirAll(rootfs));
    let first = if rootfs_exists {
        none.push(gone)
    } else {
        none
    };
    assert(all_carried_out(bundle, from, rootfs, t, none) == t);
    lemma_push(bundle, from, rootfs, t, none, gone);
    lemma_made(bundle, from, rootfs, t, first);
    let made = first.push(fs::must(FsOpView::CreateDirAll(rootfs)));
    lemma_copied(entries, bundle, rootfs, made, t);
    let ops = seq![RelOp::MakeDir(Seq::empty())] + fs::entry_ops(entries);
    assert(executor::base_steps(bundle, rootfs, rootfs_exists, Some(entries)) =~= made
        + fs::placed(ops, bundle, rootfs));
}

/// A directory that is emptied holds nothing, whatever stood there: the destination of
/// an image, a merged tree, and the layers of an image that is pulled.
pub proof fn emptied_directories_hold_nothing(
    dest: PathView,
    exists_already: bool,
    t: Shape,
    src: PathView,
    from: Shape,
)
    requires
        !exists_already ==> t == Shape::Dir(Map::empty()),
    ensures
        all_carried_out(src, from, dest, t, materialize::emptied_dest(dest, exists_already))
            == Shape::Dir(Map::empty()),
        all_carried_out(src, from, dest, t, layer_cache::emptied_merged(dest, exists_already))
            == Shape::Dir(Map::empty()),
        all_carried_out(
            src,
            from,
            dest.child("layers"@),
            t,
            pull::fresh_layers(dest, exists_already),
        ) == Shape::Dir(Map::empty()),
{
    lemma_emptied(dest, exists_already, t, src, from);
    lemma_emptied(dest.child("layers"@), exists_already, t, src, from);
}

proof fn lemma_emptied(dest: PathView, exists_already: bool, t: Shape, src: PathView, from: Shape)
    requires
        !exists_already ==> t == Shape::Dir(Map::empty()),
    ensures
        all_carried_out(
            src,
            from,
            dest,
            t,
            (if exists_already {
                seq![fs::must(FsOpView::RemoveDirAll(dest))]
            } else {
                Seq::empty()
            }) + seq![fs::must(FsOpView::CreateDirAll(dest))],
        ) == Shape::Dir(Map::empty()),
{
    let none = Seq::<StepView>::empty();
    let gone = fs::must(FsOpView::RemoveDirAll(dest));
    let made = fs::must(FsOpView::CreateDirAll(dest));
    let first = if exists_already {
        seq![gone]
    } else {
        Seq::empty()
    };
    assert(all_carried_out(src, from, dest, t, none) == t);
    lemma_push(src, from, dest, t, none, gone);
    lemma_made(src, from, dest, t, first);
    assert(first + seq![made] =~= first.push(made));
}

} // verus!
