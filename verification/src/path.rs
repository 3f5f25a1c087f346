//! Host paths as sequences of components.

use vstd::prelude::*;

use crate::text::{self, join, same_text, split, starts_with_char};

verus! {

broadcast use vstd::seq_lib::group_seq_properties;

/// A path on the machine that stores the files: what stands before the first
/// component (`/`, a drive, or nothing) and the components.
#[derive(Debug, Clone, PartialEq, Eq)]
pub struct HostPath {
    /// What precedes the components; empty for a relative path.
    pub anchor: String,
    /// The components, from the outermost to the innermost.
    pub parts: Vec<String>,
}

/// A [`HostPath`] with its texts as character sequences.
#[verifier::ext_equal]
pub struct PathView {
    pub anchor: Seq<char>,
    pub parts: Seq<Seq<char>>,
}

impl View for HostPath {
    type V = PathView;

    open spec fn view(&self) -> PathView {
        PathView { anchor: self.anchor@, parts: self.parts.deep_view() }
    }
}

/// The components that a slash-separated text names: empty pieces and `.` are
/// dropped, except a `.` at the front of a relative path.
pub open spec fn named_parts(pieces: Seq<Seq<char>>, relative: bool) -> Seq<Seq<char>>
    decreases pieces.len(),
{
    if pieces.len() == 0 {
        Seq::empty()
    } else {
        let before = named_parts(pieces.drop_last(), relative);
        let last = pieces.last();
        if last.len() == 0 || (last == "."@ && !(relative && pieces.len() == 1)) {
            before
        } else {
            before.push(last)
        }
    }
}

impl PathView {
    /// `self` with one more component.
    pub open spec fn child(self, name: Seq<char>) -> PathView {
        PathView { anchor: self.anchor, parts: self.parts.push(name) }
    }

    /// The path without its last component.
    pub open spec fn parent(self) -> Option<PathView> {
        if self.parts.len() == 0 {
            None
        } else {
            Some(PathView { anchor: self.anchor, parts: self.parts.drop_last() })
        }
    }

    /// The last component, where it names a file.
    pub open spec fn file_name(self) -> Option<Seq<char>> {
        if self.parts.len() == 0 || self.parts.last() == ".."@ || self.parts.last() == "."@ {
            None
        } else {
            Some(self.parts.last())
        }
    }

    /// `base` is `self` or one of the directories above it.
    pub open spec fn within(self, base: PathView) -> bool {
        &&& self.anchor == base.anchor
        &&& base.parts.len() <= self.parts.len()
        &&& self.parts.take(base.parts.len() as int) == base.parts
    }

    /// The path written with slashes.
    pub open spec fn shown(self) -> Seq<char> {
        self.anchor + text::joined(self.parts, "/"@)
    }

    /// The path that `text` names.
    pub open spec fn of(text: Seq<char>) -> PathView {
        let absolute = text.len() > 0 && text[0] == '/';
        PathView {
            anchor: if absolute {
                "/"@
            } else {
                Seq::empty()
            },
            parts: named_parts(text::split_at_char(text, '/'), !absolute),
        }
    }

    /// `text` taken relative to `self`: an absolute text replaces the path.
    pub open spec fn joined_with(self, text: Seq<char>) -> PathView {
        if text.len() > 0 && text[0] == '/' {
            PathView::of(text)
        } else {
            PathView {
                anchor: self.anchor,
                parts: self.parts + named_parts(text::split_at_char(text, '/'), false),
            }
        }
    }
}

/// The components among `pieces`.
pub(crate) fn keep_parts(pieces: &Vec<String>, relative: bool) -> (r: Vec<String>)
    ensures
        r.deep_view() == named_parts(pieces.deep_view(), relative),
{
    let mut out: Vec<String> = Vec::new();
    assert(out.deep_view() =~= named_parts(pieces.deep_view().take(0), relative));
    for i in 0..pieces.len()
        invariant
            out.deep_view() == named_parts(pieces.deep_view().take(i as int), relative),
    {
        let ghost before = out.deep_view();
        assert(pieces.deep_view().take(i + 1).drop_last() =~= pieces.deep_view().take(i as int));
        let piece = pieces[i].as_str();
        if !(piece.is_empty() || (same_text(piece, ".") && !(relative && i == 0))) {
            out.push(pieces[i].clone());
            assert(out.deep_view() =~= before.push(pieces[i as int]@));
        }
    }
    assert(pieces.deep_view().take(pieces.deep_view().len() as int) =~= pieces.deep_view());
    out
}

impl HostPath {
    /// The path that `text` names.
    pub fn parse(text: &str) -> (r: HostPath)
        ensures
            r@ == PathView::of(text@),
    {
        let absolute = starts_with_char(text, '/');
        let anchor = if absolute {
            "/".to_owned()
        } else {
            String::new()
        };
        HostPath { anchor, parts: keep_parts(&split(text, '/'), !absolute) }
    }

    /// A copy of the path.
    pub fn copy(&self) -> (r: HostPath)
        ensures
            r@ == self@,
    {
        HostPath { anchor: self.anchor.clone(), parts: self.parts.clone() }
    }

    /// Append one component.
    pub fn push(&mut self, name: &str)
        ensures
            final(self)@ == old(self)@.child(name@),
    {
        let ghost before = self.parts.deep_view();
        self.parts.push(name.to_owned());
        assert(self.parts.deep_view() =~= before.push(name@));
    }

    /// Remove the last component, if there is one.
    pub fn pop(&mut self) -> (r: bool)
        ensures
            r == (old(self)@.parent() is Some),
            final(self)@ == (match old(self)@.parent() {
                Some(p) => p,
                None => old(self)@,
            }),
    {
        let ghost before = self.parts.deep_view();
        match self.parts.pop() {
            Some(_) => {
                assert(self.parts.deep_view() =~= before.drop_last());
                true
            },
            None => {
                assert(self.parts.deep_view() =~= before);
                false
            },
        }
    }

    /// The path with one more component.
    pub fn join(&self, name: &str) -> (r: HostPath)
        ensures
            r@ == self@.child(name@),
    {
        let mut out = self.copy();
        out.push(name);
        out
    }

    /// `text` taken relative to this path.
    pub fn join_text(&self, text: &str) -> (r: HostPath)
        ensures
            r@ == self@.joined_with(text@),
    {
        if starts_with_char(text, '/') {
            HostPath::parse(text)
        } else {
            let mut out = self.copy();
            let mut more = keep_parts(&split(text, '/'), false);
            let ghost a = out.parts.deep_view();
            let ghost b = more.deep_view();
            out.parts.append(&mut more);
            assert(out.parts.deep_view() =~= a + b);
            out
        }
    }

    /// The path without its last component.
    pub fn parent(&self) -> (r: Option<HostPath>)
        ensures
            match r {
                Some(p) => self@.parent() == Some(p@),
                None => self@.parent() is None,
            },
    {
        let mut out = self.copy();
        if out.pop() {
            Some(out)
        } else {
            None
        }
    }

    /// The last component, where it names a file.
    pub fn file_name(&self) -> (r: Option<String>)
        ensures
            r.deep_view() == self@.file_name(),
    {
        if self.parts.len() == 0 {
            return None;
        }
        let last = &self.parts[self.parts.len() - 1];
        if same_text(last.as_str(), "..") || same_text(last.as_str(), ".") {
            None
        } else {
            Some(last.clone())
        }
    }

    /// Whether this path is `base` or lies below it.
    pub fn starts_with(&self, base: &HostPath) -> (r: bool)
        ensures
            r == self@.within(base@),
    {
        if !same_text(self.anchor.as_str(), base.anchor.as_str()) || base.parts.len()
            > self.parts.len() {
            return false;
        }
        let ghost a = self.parts.deep_view();
        let ghost b = base.parts.deep_view();
        for i in 0..base.parts.len()
            invariant
                base.parts@.len() <= self.parts@.len(),
                a == self.parts.deep_view(),
                b == base.parts.deep_view(),
                a == self@.parts,
                b == base@.parts,
                forall|k: int| 0 <= k < i ==> a[k] == #[trigger] b[k],
        {
            if !same_text(self.parts[i].as_str(), base.parts[i].as_str()) {
                assert(a.take(b.len() as int)[i as int] != b[i as int]);
                return false;
            }
        }
        assert(a.take(b.len() as int) =~= b);
        true
    }

    /// The components that lead from `base` to this path, where it lies there.
    pub fn parts_below(&self, base: &HostPath) -> (r: Option<Vec<String>>)
        ensures
            r.deep_view() == (if self@.within(base@) {
                Some(self@.parts.skip(base@.parts.len() as int))
            } else {
                None
            }),
    {
        if !self.starts_with(base) {
            return None;
        }
        let ghost a = self@.parts;
        let n: usize = base.parts.len();
        let mut out: Vec<String> = Vec::new();
        for i in n..self.parts.len()
            invariant
                n <= i,
                n <= self.parts@.len(),
                a == self@.parts,
                out.deep_view() == a.subrange(n as int, i as int),
        {
            let ghost seen = out.deep_view();
            out.push(self.parts[i].clone());
            assert(out.deep_view() =~= seen.push(a[i as int]));
            assert(out.deep_view() =~= a.subrange(n as int, i + 1));
        }
        assert(out.deep_view() =~= a.skip(n as int));
        Some(out)
    }

    /// Whether the two paths have the same anchor and components.
    pub fn same(&self, other: &HostPath) -> (r: bool)
        ensures
            r == (self@ == other@),
    {
        let r = self.starts_with(other) && self.parts.len() == other.parts.len();
        proof {
            if r {
                assert(self@.parts.take(other@.parts.len() as int) =~= self@.parts);
            }
            if self@ == other@ {
                assert(self@.parts.take(other@.parts.len() as int) =~= self@.parts);
            }
        }
        r
    }

    /// The path written with slashes.
    pub fn to_text(&self) -> (r: String)
        ensures
            r@ == self@.shown(),
    {
        self.anchor.clone().concat(join(&self.parts, "/").as_str())
    }
}

} // verus!
