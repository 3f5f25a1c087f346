//! Texts as they appear in messages and cache keys.

use vstd::prelude::*;

use crate::text::{self, join, number};

verus! {

/// A text in quotation marks with its special characters escaped.
pub uninterp spec fn quoted(s: Seq<char>) -> Seq<char>;

/// The `{:?}` format of a `str`. The result depends on the text alone.
#[verifier::external_body]
pub(crate) fn quote(s: &str) -> (r: String)
    ensures
        r@ == quoted(s@),
{
    format!("{s:?}")
}

/// The Unicode lower-case form of a text.
pub uninterp spec fn lowercase(s: Seq<char>) -> Seq<char>;

/// Only characters of the ASCII range.
pub open spec fn ascii(s: Seq<char>) -> bool {
    forall|i: int| 0 <= i < s.len() ==> (#[trigger] s[i] as u32) < 128
}

/// `str::to_lowercase`: the Unicode lower-case form, which for a text of ASCII
/// characters is its ASCII lower-case form.
#[verifier::external_body]
pub(crate) fn to_lowercase(s: &str) -> (r: String)
    ensures
        r@ == lowercase(s@),
        ascii(s@) ==> r@ == text::lowered(s@),
{
    s.to_lowercase()
}

/// A list of texts as a list literal.
pub open spec fn listed(items: Seq<Seq<char>>) -> Seq<char> {
    "["@ + text::joined(items.map_values(|s: Seq<char>| quoted(s)), ", "@) + "]"@
}

/// The items as a list literal: each one in quotation marks.
pub fn list_literal(items: &Vec<String>) -> (r: String)
    ensures
        r@ == listed(items.deep_view()),
{
    let mut parts: Vec<String> = Vec::new();
    let ghost all = items.deep_view();
    for i in 0..items.len()
        invariant
            all == items.deep_view(),
            parts.deep_view() == all.take(i as int).map_values(|s: Seq<char>| quoted(s)),
    {
        let ghost seen = parts.deep_view();
        parts.push(quote(items[i].as_str()));
        assert(parts.deep_view() =~= seen.push(quoted(all[i as int])));
        assert(parts.deep_view() =~= all.take(i + 1).map_values(|s: Seq<char>| quoted(s)));
    }
    assert(all.take(all.len() as int) =~= all);
    "[".to_owned().concat(join(&parts, ", ").as_str()).concat("]")
}

/// An integer in decimal notation, with a minus sign where it is negative.
pub open spec fn signed_decimal(n: int) -> Seq<char> {
    if n < 0 {
        "-"@ + text::decimal((-n) as nat)
    } else {
        text::decimal(n as nat)
    }
}

/// `n` in decimal notation.
pub fn signed_number(n: i32) -> (r: String)
    ensures
        r@ == signed_decimal(n as int),
{
    if n < 0 {
        "-".to_owned().concat(number((-(n as i64)) as u64).as_str())
    } else {
        number(n as u64)
    }
}

} // verus!
