//! Docker overlay2-style changesets.
//!
//! Each cached instruction is a layer directory with a `diff/` changeset. A
//! changeset holds what was added or changed, and an empty file `.wh.<name>`
//! (a whiteout) for each name that went away.

use vstd::prelude::*;

use crate::fs::{
    self, copy_node, copy_tree, no_steps, push_must, push_steps, FsOp, RelOp, Step,
};
use crate::path::HostPath;
use crate::text::{self, same_text, starts_with, strip_prefix};
use crate::tree::{self, find_entry, Entry, Node};

verus! {

broadcast use vstd::seq_lib::group_seq_properties;

/// What precedes the removed name in the name of a whiteout.
pub open spec fn whiteout_prefix() -> Seq<char> {
    ".wh."@
}

/// The name of the file that hides everything below its directory.
pub open spec fn opaque_name() -> Seq<char> {
    ".wh..wh..opq"@
}

/// Names that a changeset uses for its own purposes.
pub open spec fn whiteout_name(name: Seq<char>) -> bool {
    name == opaque_name() || text::has_prefix(name, whiteout_prefix())
}

/// Whether a changeset uses `name` for its own purposes.
pub fn is_whiteout_name(name: &str) -> (r: bool)
    ensures
        r == whiteout_name(name@),
{
    same_text(name, ".wh..wh..opq") || starts_with(name, ".wh.")
}

/// Whether two nodes need no change between them, their directories' contents
/// aside: links with one target, two directories, files with the same bytes.
pub open spec fn same_node(a: Node, b: Node) -> bool {
    match (a, b) {
        (Node::Link { target: x }, Node::Link { target: y }) => x@ == y@,
        (Node::Dir { .. }, Node::Dir { .. }) => true,
        (Node::File { data: x }, Node::File { data: y }) => x@ == y@,
        _ => false,
    }
}

/// Whether two byte sequences are the same.
pub fn same_bytes(a: &Vec<u8>, b: &Vec<u8>) -> (r: bool)
    ensures
        r == (a@ == b@),
{
    if a.len() != b.len() {
        return false;
    }
    for i in 0..a.len()
        invariant
            a@.len() == b@.len(),
            forall|k: int| 0 <= k < i ==> a@[k] == #[trigger] b@[k],
    {
        if a[i] != b[i] {
            return false;
        }
    }
    assert(a@ =~= b@);
    true
}

/// Whether two nodes need no change between them, their directories' contents
/// aside.
pub fn same_entry(a: &Node, b: &Node) -> (r: bool)
    ensures
        r == same_node(*a, *b),
{
    match (a, b) {
        (Node::Link { target: x }, Node::Link { target: y }) => same_bytes(x, y),
        (Node::Dir { .. }, Node::Dir { .. }) => true,
        (Node::File { data: x }, Node::File { data: y }) => same_bytes(x, y),
        _ => false,
    }
}

/// Whether some entry is called `name`.
pub open spec fn has_entry(entries: Seq<Entry>, name: Seq<char>) -> bool {
    exists|i: int| 0 <= i < entries.len() && (#[trigger] entries[i]).name@ == name
}

/// How an entry enters the changeset against the directory `parent`.
pub open spec fn change_ops(parent: Seq<Entry>, e: Entry) -> Seq<RelOp>
    decreases e, 0int,
{
    let copied = seq![RelOp::MakeDir(Seq::empty())] + fs::under(e.name@, fs::node_ops(e.node));
    let j = tree::first_named(parent, e.name@);
    if whiteout_name(e.name@) {
        Seq::empty()
    } else if !(0 <= j < parent.len()) {
        copied
    } else {
        match (parent[j].node, e.node) {
            (Node::Dir { entries: p }, Node::Dir { entries: c }) => fs::under(
                e.name@,
                diff_ops(p@, c@),
            ),
            _ => if same_node(parent[j].node, e.node) {
                Seq::empty()
            } else {
                copied
            },
        }
    }
}

/// How the entries of a directory enter the changeset, in order.
pub open spec fn changed_ops(parent: Seq<Entry>, current: Seq<Entry>) -> Seq<RelOp>
    decreases current, 1int,
{
    if current.len() == 0 {
        Seq::empty()
    } else {
        changed_ops(parent, current.drop_last()) + change_ops(parent, current.last())
    }
}

/// The whiteouts for names of `parent` that `current` does not have.
pub open spec fn gone_ops(parent: Seq<Entry>, current: Seq<Entry>) -> Seq<RelOp>
    decreases parent.len(),
{
    if parent.len() == 0 {
        Seq::empty()
    } else {
        let before = gone_ops(parent.drop_last(), current);
        let name = parent.last().name@;
        if whiteout_name(name) || has_entry(current, name) {
            before
        } else {
            before.push(RelOp::Mark(Seq::empty(), whiteout_prefix() + name))
        }
    }
}

/// The changeset that leads from the directory `parent` to the directory
/// `current`: what is new or changed is copied, directories on both sides are
/// taken apart, and what is gone gets a whiteout.
pub open spec fn diff_ops(parent: Seq<Entry>, current: Seq<Entry>) -> Seq<RelOp>
    decreases current, 2int,
{
    changed_ops(parent, current) + gone_ops(parent, current)
}

/// Plan the changeset entry of one node that is new or changed.
fn copy_one(e: &Entry, src: &HostPath, dest: &HostPath) -> (r: Vec<Step>)
    ensures
        fs::step_views(r@) == fs::placed(
            seq![RelOp::MakeDir(Seq::empty())] + fs::under(e.name@, fs::node_ops(e.node)),
            src@,
            dest@,
        ),
{
    let mut out = no_steps();
    push_must(&mut out, FsOp::CreateDirAll(dest.copy()));
    let from = src.join(e.name.as_str());
    let to = dest.join(e.name.as_str());
    let steps = copy_node(&e.node, &from, &to);
    push_steps(&mut out, steps);
    proof {
        let head = seq![RelOp::MakeDir(Seq::<Seq<char>>::empty())];
        let ops = fs::node_ops(e.node);
        fs::lemma_placed_single(RelOp::MakeDir(Seq::empty()), src@, dest@);
        assert(fs::below(dest@, Seq::empty()) =~= dest@);
        fs::lemma_placed_under(e.name@, ops, src@, dest@);
        fs::lemma_placed_add(head, fs::under(e.name@, ops), src@, dest@);
        assert(fs::step_views(out@) =~= fs::placed(head + fs::under(e.name@, ops), src@, dest@));
    }
    out
}

/// Plan the changeset entry of one node of the current directory.
fn diff_entry(parent: &Vec<Entry>, e: &Entry, src: &HostPath, dest: &HostPath) -> (r: Vec<Step>)
    ensures
        fs::step_views(r@) == fs::placed(change_ops(parent@, *e), src@, dest@),
    decreases e, 0int,
{
    if is_whiteout_name(e.name.as_str()) {
        return no_steps();
    }
    let j: usize = find_entry(parent, e.name.as_str());
    if j >= parent.len() {
        return copy_one(e, src, dest);
    }
    match (&parent[j].node, &e.node) {
        (Node::Dir { entries: p }, Node::Dir { entries: c }) => {
            let from = src.join(e.name.as_str());
            let to = dest.join(e.name.as_str());
            proof {
                fs::lemma_placed_under(e.name@, diff_ops(p@, c@), src@, dest@);
            }
            diff_walk(p, c, &from, &to)
        },
        _ => {
            if same_entry(&parent[j].node, &e.node) {
                no_steps()
            } else {
                copy_one(e, src, dest)
            }
        },
    }
}

/// Plan the changeset that leads from the directory `parent` to the directory
/// `current`, which stands at `src`; the changeset goes to `dest`.
pub fn diff_walk(
    parent: &Vec<Entry>,
    current: &Vec<Entry>,
    src: &HostPath,
    dest: &HostPath,
) -> (r: Vec<Step>)
    ensures
        fs::step_views(r@) == fs::placed(diff_ops(parent@, current@), src@, dest@),
    decreases current, 1int,
{
    let mut out = no_steps();
    assert(fs::step_views(out@) =~= fs::placed(
        changed_ops(parent@, current@.take(0)),
        src@,
        dest@,
    ));
    for i in 0..current.len()
        invariant
            fs::step_views(out@) == fs::placed(
                changed_ops(parent@, current@.take(i as int)),
                src@,
                dest@,
            ),
        decreases current.len() - i,
    {
        let steps = diff_entry(parent, &current[i], src, dest);
        push_steps(&mut out, steps);
        proof {
            let before = changed_ops(parent@, current@.take(i as int));
            assert(current@.take(i + 1).drop_last() =~= current@.take(i as int));
            fs::lemma_placed_add(before, change_ops(parent@, current@[i as int]), src@, dest@);
        }
    }
    let ghost changed = changed_ops(parent@, current@);
    assert(current@.take(current@.len() as int) =~= current@);
    assert(changed + gone_ops(parent@.take(0), current@) =~= changed);
    for i in 0..parent.len()
        invariant
            changed == changed_ops(parent@, current@),
            fs::step_views(out@) == fs::placed(
                changed + gone_ops(parent@.take(i as int), current@),
                src@,
                dest@,
            ),
    {
        let ghost before = gone_ops(parent@.take(i as int), current@);
        assert(parent@.take(i + 1).drop_last() =~= parent@.take(i as int));
        let name = parent[i].name.as_str();
        let found: usize = find_entry(current, name);
        assert((found < current@.len()) == has_entry(current@, name@));
        if !is_whiteout_name(name) && found >= current.len() {
            let mark = ".wh.".to_owned().concat(name);
            push_must(&mut out, FsOp::CreateDirAll(dest.copy()));
            push_must(&mut out, FsOp::Write(dest.join(mark.as_str()), Vec::new()));
            proof {
                let op = RelOp::Mark(Seq::empty(), whiteout_prefix() + name@);
                fs::lemma_placed_add(changed + before, seq![op], src@, dest@);
                fs::lemma_placed_single(op, src@, dest@);
                assert(fs::below(dest@, Seq::empty()) =~= dest@);
                assert((changed + before) + seq![op] =~= changed + before.push(op));
                assert(fs::step_views(out@) =~= fs::placed(
                    changed + gone_ops(parent@.take(i + 1), current@),
                    src@,
                    dest@,
                ));
            }
        }
    }
    assert(parent@.take(parent@.len() as int) =~= parent@);
    out
}

/// The changeset of a layer: against the parent's merged tree where there is a
/// parent, otherwise the whole tree.
pub open spec fn layer_ops(parent: Option<Seq<Entry>>, current: Seq<Entry>) -> Seq<RelOp> {
    seq![RelOp::MakeDir(Seq::empty())] + match parent {
        None => seq![RelOp::MakeDir(Seq::empty())] + fs::entry_ops(current),
        Some(p) => diff_ops(p, current),
    }
}

/// The entries of the parent, where there is one.
pub open spec fn entries_of(parent: Option<&Vec<Entry>>) -> Option<Seq<Entry>> {
    match parent {
        Some(p) => Some(p@),
        None => None,
    }
}

/// Plan the changeset of a layer whose root filesystem stands at `src`.
pub fn write_layer_diff(
    parent: Option<&Vec<Entry>>,
    current: &Vec<Entry>,
    src: &HostPath,
    dest: &HostPath,
) -> (r: Vec<Step>)
    ensures
        fs::step_views(r@) == fs::placed(layer_ops(entries_of(parent), current@), src@, dest@),
{
    let mut out = no_steps();
    push_must(&mut out, FsOp::CreateDirAll(dest.copy()));
    let steps = match parent {
        None => copy_tree(current, src, dest),
        Some(p) => diff_walk(p, current, src, dest),
    };
    push_steps(&mut out, steps);
    proof {
        let head = seq![RelOp::MakeDir(Seq::<Seq<char>>::empty())];
        fs::lemma_placed_single(RelOp::MakeDir(Seq::empty()), src@, dest@);
        assert(fs::below(dest@, Seq::empty()) =~= dest@);
        match parent {
            None => {
                fs::lemma_placed_add(head, head + fs::entry_ops(current@), src@, dest@);
            },
            Some(p) => {
                fs::lemma_placed_add(head, diff_ops(p@, current@), src@, dest@);
            },
        }
        assert(fs::step_views(out@) =~= fs::placed(
            layer_ops(entries_of(parent), current@),
            src@,
            dest@,
        ));
    }
    out
}

/// What an entry of a changeset does to the directory that it is applied to. What
/// stands under its name gives way first, so that a name can change its kind: a
/// directory is merged into a directory alone, and a file or a link takes the place
/// of anything.
pub open spec fn apply_one_ops(e: Entry) -> Seq<RelOp>
    decreases e, 0int,
{
    if e.name@ == opaque_name() {
        seq![RelOp::Clear(Seq::empty())]
    } else {
        match text::after_prefix(e.name@, whiteout_prefix()) {
            Some(target) => seq![RelOp::Remove(seq![target])],
            None => match e.node {
                Node::Dir { entries } => seq![RelOp::MakeWay(seq![e.name@])] + fs::under(
                    e.name@,
                    apply_ops(entries@),
                ),
                _ => seq![RelOp::Remove(seq![e.name@])] + (seq![RelOp::MakeDir(Seq::empty())]
                    + fs::under(e.name@, fs::node_ops(e.node))),
            },
        }
    }
}

/// What the entries of a changeset do, in order.
pub open spec fn apply_entry_ops(diff: Seq<Entry>) -> Seq<RelOp>
    decreases diff, 1int,
{
    if diff.len() == 0 {
        Seq::empty()
    } else {
        apply_entry_ops(diff.drop_last()) + apply_one_ops(diff.last())
    }
}

/// What a changeset does to the directory that it is applied to.
pub open spec fn apply_ops(diff: Seq<Entry>) -> Seq<RelOp>
    decreases diff, 2int,
{
    seq![RelOp::MakeDir(Seq::empty())] + apply_entry_ops(diff)
}

/// Plan what an entry of a changeset does.
fn apply_entry(e: &Entry, src: &HostPath, dest: &HostPath) -> (r: Vec<Step>)
    ensures
        fs::step_views(r@) == fs::placed(apply_one_ops(*e), src@, dest@),
    decreases e, 0int,
{
    let name = e.name.as_str();
    if same_text(name, ".wh..wh..opq") {
        let mut out = no_steps();
        push_must(&mut out, FsOp::ClearDirectory(dest.copy()));
        proof {
            fs::lemma_placed_single(RelOp::Clear(Seq::empty()), src@, dest@);
            assert(fs::below(dest@, Seq::empty()) =~= dest@);
            assert(fs::step_views(out@) =~= fs::placed(apply_one_ops(*e), src@, dest@));
        }
        return out;
    }
    match strip_prefix(name, ".wh.") {
        Some(target) => {
            let mut out = no_steps();
            push_must(&mut out, FsOp::Remove(dest.join(target.as_str())));
            proof {
                fs::lemma_placed_single(RelOp::Remove(seq![target@]), src@, dest@);
                assert(fs::below(dest@, seq![target@]) =~= dest@.child(target@));
                assert(fs::step_views(out@) =~= fs::placed(apply_one_ops(*e), src@, dest@));
            }
            out
        },
        None => match &e.node {
            Node::Dir { entries } => {
                let from = src.join(name);
                let to = dest.join(name);
                let mut out = no_steps();
                push_must(&mut out, FsOp::MakeWay(to.copy()));
                push_steps(&mut out, apply_diff_dir(entries, &from, &to));
                proof {
                    let first = RelOp::MakeWay(seq![name@]);
                    let rest = fs::under(name@, apply_ops(entries@));
                    fs::lemma_placed_single(first, src@, dest@);
                    assert(fs::below(dest@, seq![name@]) =~= dest@.child(name@));
                    fs::lemma_placed_under(name@, apply_ops(entries@), src@, dest@);
                    fs::lemma_placed_add(seq![first], rest, src@, dest@);
                    assert(fs::step_views(out@) =~= fs::placed(apply_one_ops(*e), src@, dest@));
                }
                out
            },
            _ => {
                let mut out = no_steps();
                push_must(&mut out, FsOp::Remove(dest.join(name)));
                push_steps(&mut out, copy_one(e, src, dest));
                proof {
                    let first = RelOp::Remove(seq![name@]);
                    let rest = seq![RelOp::MakeDir(Seq::empty())] + fs::under(
                        name@,
                        fs::node_ops(e.node),
                    );
                    fs::lemma_placed_single(first, src@, dest@);
                    assert(fs::below(dest@, seq![name@]) =~= dest@.child(name@));
                    fs::lemma_placed_add(seq![first], rest, src@, dest@);
                    assert(fs::step_views(out@) =~= fs::placed(apply_one_ops(*e), src@, dest@));
                }
                out
            },
        },
    }
}

/// Plan how the changeset with the entries `diff`, which stands at `src`, is
/// applied to the directory `dest`.
pub fn apply_diff_dir(diff: &Vec<Entry>, src: &HostPath, dest: &HostPath) -> (r: Vec<Step>)
    ensures
        fs::step_views(r@) == fs::placed(apply_ops(diff@), src@, dest@),
    decreases diff, 1int,
{
    let mut out = no_steps();
    push_must(&mut out, FsOp::CreateDirAll(dest.copy()));
    let ghost head = seq![RelOp::MakeDir(Seq::<Seq<char>>::empty())];
    proof {
        fs::lemma_placed_single(RelOp::MakeDir(Seq::empty()), src@, dest@);
        assert(fs::below(dest@, Seq::empty()) =~= dest@);
        assert(head + apply_entry_ops(diff@.take(0)) =~= head);
        assert(fs::step_views(out@) =~= fs::placed(head, src@, dest@));
    }
    for i in 0..diff.len()
        invariant
            head == seq![RelOp::MakeDir(Seq::<Seq<char>>::empty())],
            fs::step_views(out@) == fs::placed(
                head + apply_entry_ops(diff@.take(i as int)),
                src@,
                dest@,
            ),
        decreases diff.len() - i,
    {
        let steps = apply_entry(&diff[i], src, dest);
        push_steps(&mut out, steps);
        proof {
            let before = head + apply_entry_ops(diff@.take(i as int));
            let more = apply_one_ops(diff@[i as int]);
            assert(diff@.take(i + 1).drop_last() =~= diff@.take(i as int));
            fs::lemma_placed_add(before, more, src@, dest@);
            assert(head + apply_entry_ops(diff@.take(i + 1)) =~= before + more);
        }
    }
    assert(diff@.take(diff@.len() as int) =~= diff@);
    out
}

} // verus!
