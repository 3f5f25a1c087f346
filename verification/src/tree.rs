//! Directory trees: what a walk over a directory found.

use vstd::prelude::*;

use crate::text::same_text;

verus! {

/// What stands at a path.
#[derive(Debug)]
pub enum Node {
    /// A regular file with its bytes.
    File {
        /// Contents of the file.
        data: Vec<u8>,
    },
    /// A symbolic link.
    Link {
        /// Target as stored in the link.
        target: Vec<u8>,
    },
    /// A directory.
    Dir {
        /// The entries in the order in which the directory listed them.
        entries: Vec<Entry>,
    },
    /// Anything else.
    Other,
}

/// One entry of a directory.
#[derive(Debug)]
pub struct Entry {
    /// Name within the directory.
    pub name: String,
    /// What stands under the name.
    pub node: Node,
}

/// A tree without the order in which directories list their entries.
pub enum Shape {
    File(Seq<u8>),
    Link(Seq<u8>),
    Dir(Map<Seq<char>, Shape>),
    Other,
}

/// The tree that a node holds.
pub open spec fn shape(n: Node) -> Shape
    decreases n,
{
    match n {
        Node::File { data } => Shape::File(data@),
        Node::Link { target } => Shape::Link(target@),
        Node::Dir { entries } => Shape::Dir(shapes(entries@)),
        Node::Other => Shape::Other,
    }
}

/// The trees under the names of a directory.
pub open spec fn shapes(entries: Seq<Entry>) -> Map<Seq<char>, Shape>
    decreases entries,
{
    if entries.len() == 0 {
        Map::empty()
    } else {
        shapes(entries.drop_last()).insert(entries.last().name@, shape(entries.last().node))
    }
}

/// The names of the entries, in order.
pub open spec fn names(entries: Seq<Entry>) -> Seq<Seq<char>> {
    entries.map_values(|e: Entry| e.name@)
}

/// No name occurs twice in a directory or in any directory below it.
pub open spec fn distinct(entries: Seq<Entry>) -> bool
    decreases entries,
{
    &&& names(entries).no_duplicates()
    &&& forall|i: int| 0 <= i < entries.len() ==> distinct_below((#[trigger] entries[i]).node)
}

/// No directory at or below `n` has a name twice.
pub open spec fn distinct_below(n: Node) -> bool
    decreases n,
{
    match n {
        Node::Dir { entries } => distinct(entries@),
        _ => true,
    }
}

/// The position of the first entry called `name`, or the number of entries
/// where there is none.
pub open spec fn first_named(entries: Seq<Entry>, name: Seq<char>) -> int
    decreases entries.len(),
{
    if entries.len() == 0 || entries[0].name@ == name {
        0
    } else {
        1 + first_named(entries.skip(1), name)
    }
}

/// Where the first entry called `name` is.
pub proof fn lemma_first_named(entries: Seq<Entry>, name: Seq<char>, i: int)
    requires
        0 <= i <= entries.len(),
        forall|k: int| 0 <= k < i ==> (#[trigger] entries[k]).name@ != name,
        i < entries.len() ==> entries[i].name@ == name,
    ensures
        first_named(entries, name) == i,
    decreases i,
{
    if i > 0 {
        let rest = entries.skip(1);
        assert(entries[0].name@ != name);
        assert forall|k: int| 0 <= k < i - 1 implies (#[trigger] rest[k]).name@ != name by {
            assert(entries[k + 1].name@ != name);
        }
        lemma_first_named(rest, name, i - 1);
    }
}

/// The names of the entries, in order.
pub fn names_of(entries: &Vec<Entry>) -> (r: Vec<String>)
    ensures
        r.deep_view() == names(entries@),
{
    let mut out: Vec<String> = Vec::new();
    for i in 0..entries.len()
        invariant
            out.deep_view() == names(entries@.take(i as int)),
    {
        let ghost seen = out.deep_view();
        out.push(entries[i].name.clone());
        assert(out.deep_view() =~= seen.push(entries@[i as int].name@));
        assert(out.deep_view() =~= names(entries@.take(i + 1)));
    }
    assert(entries@.take(entries@.len() as int) =~= entries@);
    out
}

/// The position of the first entry called `name`, or the number of entries
/// where there is none.
pub fn find_entry(entries: &Vec<Entry>, name: &str) -> (r: usize)
    ensures
        r == first_named(entries@, name@),
        r <= entries@.len(),
        r < entries@.len() ==> entries@[r as int].name@ == name@,
        forall|k: int| 0 <= k < r ==> (#[trigger] entries@[k]).name@ != name@,
{
    let mut i: usize = 0;
    while i < entries.len() && !same_text(entries[i].name.as_str(), name)
        invariant
            i <= entries@.len(),
            forall|k: int| 0 <= k < i ==> (#[trigger] entries@[k]).name@ != name@,
        decreases entries@.len() - i,
    {
        i += 1;
    }
    proof {
        lemma_first_named(entries@, name@, i as int);
    }
    i
}

} // verus!
