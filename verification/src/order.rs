//! The order of texts, and sorting by it.

use vstd::prelude::*;
use vstd::relations;

use crate::text::chars_of;

verus! {

/// `a` stands strictly before `b` in the order of texts: the first character
/// that differs decides, and a text stands before its own extensions.
pub open spec fn before(a: Seq<char>, b: Seq<char>) -> bool
    decreases a.len(),
{
    if b.len() == 0 {
        false
    } else if a.len() == 0 {
        true
    } else if a[0] != b[0] {
        a[0] < b[0]
    } else {
        before(a.skip(1), b.skip(1))
    }
}

/// `a` does not stand behind `b`.
pub open spec fn at_most(a: Seq<char>, b: Seq<char>) -> bool {
    !before(b, a)
}

/// The texts in ascending order.
pub open spec fn sorted(s: Seq<Seq<char>>) -> Seq<Seq<char>> {
    s.sort_by(|a: Seq<char>, b: Seq<char>| at_most(a, b))
}

/// Of two different texts exactly one stands before the other.
pub proof fn lemma_before_total(a: Seq<char>, b: Seq<char>)
    ensures
        before(a, b) ==> !before(b, a),
        a == b ==> !before(a, b),
        a != b ==> before(a, b) || before(b, a),
    decreases a.len(),
{
    if a.len() > 0 && b.len() > 0 && a[0] == b[0] {
        lemma_before_total(a.skip(1), b.skip(1));
        if a.skip(1) == b.skip(1) {
            assert(a =~= seq![a[0]] + a.skip(1));
            assert(b =~= seq![b[0]] + b.skip(1));
        }
    } else if a.len() == 0 && b.len() == 0 {
        assert(a =~= b);
    }
}

/// Standing before is transitive.
pub proof fn lemma_before_transitive(a: Seq<char>, b: Seq<char>, c: Seq<char>)
    requires
        before(a, b),
        before(b, c),
    ensures
        before(a, c),
    decreases a.len(),
{
    if a.len() > 0 && a[0] == b[0] && b[0] == c[0] {
        lemma_before_transitive(a.skip(1), b.skip(1), c.skip(1));
    }
}

/// The order of texts is a total ordering.
pub proof fn lemma_at_most_total()
    ensures
        relations::total_ordering(|a: Seq<char>, b: Seq<char>| at_most(a, b)),
{
    let le = |a: Seq<char>, b: Seq<char>| at_most(a, b);
    assert forall|a: Seq<char>| #[trigger] le(a, a) by {
        lemma_before_total(a, a);
    }
    assert forall|a: Seq<char>, b: Seq<char>| #[trigger] le(a, b) && #[trigger] le(b, a) implies a
        == b by {
        lemma_before_total(a, b);
    }
    assert forall|a: Seq<char>, b: Seq<char>, c: Seq<char>| #[trigger]
        le(a, b) && #[trigger] le(b, c) implies le(a, c) by {
        if before(c, a) {
            lemma_before_total(a, b);
            lemma_before_total(b, c);
            if a == b || b == c {
            } else {
                lemma_before_transitive(a, b, c);
                lemma_before_total(a, c);
            }
        }
    }
    assert forall|a: Seq<char>, b: Seq<char>| #[trigger] le(a, b) || #[trigger] le(b, a) by {
        lemma_before_total(a, b);
    }
}

/// Whether `a` stands strictly before `b`.
pub fn is_before(a: &str, b: &str) -> (r: bool)
    ensures
        r == before(a@, b@),
{
    let x = chars_of(a);
    let y = chars_of(b);
    let mut i: usize = 0;
    assert(x@.skip(0) =~= x@);
    assert(y@.skip(0) =~= y@);
    while i < x.len() && i < y.len() && x[i] == y[i]
        invariant
            i <= x@.len(),
            i <= y@.len(),
            x@ == a@,
            y@ == b@,
            before(a@, b@) == before(x@.skip(i as int), y@.skip(i as int)),
        decreases x@.len() - i,
    {
        assert(x@.skip(i as int).skip(1) =~= x@.skip(i + 1));
        assert(y@.skip(i as int).skip(1) =~= y@.skip(i + 1));
        i += 1;
    }
    if i >= y.len() {
        false
    } else if i >= x.len() {
        true
    } else {
        x[i] < y[i]
    }
}

/// Putting a text between those that are at most it and those behind it keeps
/// the order.
proof fn lemma_insert_sorted(s: Seq<Seq<char>>, i: int, t: Seq<char>)
    requires
        relations::sorted_by(s, |a: Seq<char>, b: Seq<char>| at_most(a, b)),
        0 <= i <= s.len(),
        i > 0 ==> at_most(s[i - 1], t),
        forall|k: int| i <= k < s.len() ==> before(t, #[trigger] s[k]),
    ensures
        relations::sorted_by(s.insert(i, t), |a: Seq<char>, b: Seq<char>| at_most(a, b)),
        s.insert(i, t).to_multiset() == s.to_multiset().insert(t),
{
    broadcast use {
        vstd::multiset::group_multiset_axioms,
        vstd::seq_lib::group_to_multiset_ensures,
    };

    let le = |a: Seq<char>, b: Seq<char>| at_most(a, b);
    let out = s.insert(i, t);
    lemma_at_most_total();
    assert forall|j: int, k: int| 0 <= j < k < out.len() implies #[trigger] le(out[j], out[k]) by {
        if j == i {
            assert(before(t, s[k - 1]));
            lemma_before_total(t, s[k - 1]);
        } else if k == i {
            if j < i - 1 {
                assert(le(s[j], s[i - 1]));
                assert(le(s[i - 1], t));
            }
        } else {
            let a = if j < i { j } else { j - 1 };
            let b = if k < i { k } else { k - 1 };
            assert(le(s[a], s[b]));
        }
    }
}

/// The texts of `v` in ascending order.
pub fn sort(v: &Vec<String>) -> (r: Vec<String>)
    ensures
        r.deep_view() == sorted(v.deep_view()),
{
    let ghost le = |a: Seq<char>, b: Seq<char>| at_most(a, b);
    let ghost all = v.deep_view();
    let mut out: Vec<String> = Vec::new();
    proof {
        broadcast use vstd::seq_lib::group_to_multiset_ensures;

        assert(out.deep_view() =~= Seq::<Seq<char>>::empty());
        assert(all.take(0) =~= Seq::<Seq<char>>::empty());
    }
    for n in 0..v.len()
        invariant
            all == v.deep_view(),
            le == (|a: Seq<char>, b: Seq<char>| at_most(a, b)),
            relations::sorted_by(out.deep_view(), le),
            out.deep_view().to_multiset() == all.take(n as int).to_multiset(),
    {
        let t = v[n].as_str();
        let mut i: usize = out.len();
        while i > 0 && is_before(t, out[i - 1].as_str())
            invariant
                i <= out@.len(),
                forall|k: int| i <= k < out@.len() ==> before(t@, #[trigger] out.deep_view()[k]),
            decreases i,
        {
            i -= 1;
        }
        let ghost seen = out.deep_view();
        proof {
            lemma_insert_sorted(seen, i as int, t@);
        }
        out.insert(i, v[n].clone());
        proof {
            broadcast use {
        vstd::multiset::group_multiset_axioms,
        vstd::seq_lib::group_to_multiset_ensures,
    };

            assert(out.deep_view() =~= seen.insert(i as int, t@));
            assert(all.take(n + 1) =~= all.take(n as int).push(t@));
        }
    }
    proof {
        assert(all.take(all.len() as int) =~= all);
        lemma_at_most_total();
        all.lemma_sort_by_ensures(le);
        vstd::seq_lib::lemma_sorted_unique(out.deep_view(), sorted(all), le);
    }
    out
}

/// Sorting forgets the order in which the texts came.
pub proof fn sorting_ignores_order(a: Seq<Seq<char>>, b: Seq<Seq<char>>)
    requires
        a.to_multiset() == b.to_multiset(),
    ensures
        sorted(a) == sorted(b),
{
    let le = |x: Seq<char>, y: Seq<char>| at_most(x, y);
    lemma_at_most_total();
    a.lemma_sort_by_ensures(le);
    b.lemma_sort_by_ensures(le);
    vstd::seq_lib::lemma_sorted_unique(sorted(a), sorted(b), le);
}

} // verus!
