//! Variable substitution in Dockerfile texts.

use vstd::prelude::*;

use crate::text::{self, chars_of, find_from, is_ascii_alnum, part};
use crate::vars::Vars;

verus! {

/// Characters of a variable name written without braces.
pub open spec fn name_char(c: char) -> bool {
    text::ascii_alnum(c) || c == '_'
}

/// The number of name characters at the front of `s`.
pub open spec fn name_len(s: Seq<char>) -> int
    decreases s.len(),
{
    if s.len() > 0 && name_char(s[0]) {
        1 + name_len(s.skip(1))
    } else {
        0
    }
}

/// There are at most as many name characters as characters.
pub proof fn lemma_name_len_bounds(s: Seq<char>)
    ensures
        0 <= name_len(s) <= s.len(),
    decreases s.len(),
{
    if s.len() > 0 && name_char(s[0]) {
        lemma_name_len_bounds(s.skip(1));
    }
}

/// The value of a variable; nothing for a variable that is not set.
pub open spec fn value_of(vars: Map<Seq<char>, Seq<char>>, key: Seq<char>) -> Seq<char> {
    if vars.contains_key(key) {
        vars[key]
    } else {
        Seq::empty()
    }
}

/// `input` with every `$VAR` and `${VAR}` replaced by the variable's value. A
/// dollar sign that starts neither form stands for itself.
pub open spec fn expanded(input: Seq<char>, vars: Map<Seq<char>, Seq<char>>) -> Seq<char>
    decreases input.len(),
{
    if input.len() == 0 {
        Seq::empty()
    } else if input[0] == '$' && input.len() > 1 && input[1] == '{' && text::first_of(
        input.skip(2),
        '}',
    ) < input.len() - 2 {
        let end = text::first_of(input.skip(2), '}');
        proof {
            text::lemma_first_of_bounds(input.skip(2), '}');
        }
        value_of(vars, input.subrange(2, 2 + end)) + expanded(input.skip(3 + end), vars)
    } else if input[0] == '$' && input.len() > 1 && name_len(input.skip(1)) > 0 {
        let n = name_len(input.skip(1));
        proof {
            lemma_name_len_bounds(input.skip(1));
        }
        value_of(vars, input.subrange(1, 1 + n)) + expanded(input.skip(1 + n), vars)
    } else {
        seq![input[0]] + expanded(input.skip(1), vars)
    }
}

/// The name characters at the front end where the first other character stands.
proof fn lemma_name_len(s: Seq<char>, n: int)
    requires
        0 <= n <= s.len(),
        forall|k: int| 0 <= k < n ==> name_char(#[trigger] s[k]),
        n < s.len() ==> !name_char(s[n]),
    ensures
        name_len(s) == n,
    decreases n,
{
    if n > 0 {
        assert(name_char(s[0]));
        let t = s.skip(1);
        assert forall|k: int| 0 <= k < n - 1 implies name_char(#[trigger] t[k]) by {
            assert(name_char(s[k + 1]));
        }
        lemma_name_len(t, n - 1);
    }
}

/// Substitute `$VAR` / `${VAR}` using the provided map.
pub fn expand(input: &str, vars: &Vars) -> (r: String)
    ensures
        r@ == expanded(input@, vars@),
{
    let mut out = String::new();
    let chars = chars_of(input);
    let mut i: usize = 0;
    assert(chars@.skip(0) =~= chars@);
    while i < chars.len()
        invariant
            i <= chars@.len(),
            chars@ == input@,
            out@ + expanded(input@.skip(i as int), vars@) == expanded(input@, vars@),
        decreases chars@.len() - i,
    {
        let ghost rest = input@.skip(i as int);
        let ghost before = out@;
        assert(rest[0] == chars@[i as int]);
        if chars[i] == '$' && i + 1 < chars.len() {
            assert(rest[1] == chars@[i + 1]);
            if chars[i + 1] == '{' {
                let end: usize = find_from(&chars, i + 2, '}');
                proof {
                    assert(rest.skip(2) =~= chars@.skip(i + 2));
                    text::lemma_first_of_bounds(rest.skip(2), '}');
                }
                if end < chars.len() {
                    let key = part(&chars, i + 2, end);
                    assert(key@ =~= rest.subrange(2, end - i));
                    assert(rest.skip(end - i + 1) =~= input@.skip(end + 1));
                    if let Some(val) = vars.get(key.as_str()) {
                        out.append(val.as_str());
                    }
                    assert(out@ + expanded(input@.skip(end + 1), vars@) =~= before + expanded(
                        rest,
                        vars@,
                    ));
                    i = end + 1;
                    continue ;
                }
                assert(!name_char('{'));
                assert(name_len(rest.skip(1)) == 0) by {
                    assert(rest.skip(1)[0] == '{');
                }
            } else if is_ascii_alnum(chars[i + 1]) || chars[i + 1] == '_' {
                let mut j: usize = i + 1;
                while j < chars.len() && (is_ascii_alnum(chars[j]) || chars[j] == '_')
                    invariant
                        i + 1 <= j <= chars@.len(),
                        forall|k: int| i + 1 <= k < j ==> name_char(#[trigger] chars@[k]),
                    decreases chars@.len() - j,
                {
                    j += 1;
                }
                proof {
                    let tail = rest.skip(1);
                    assert forall|k: int| 0 <= k < j - i - 1 implies name_char(#[trigger] tail[k]) by {
                        assert(name_char(chars@[k + i + 1]));
                    }
                    lemma_name_len(tail, j - i - 1);
                    assert(tail[0] == chars@[i + 1]);
                }
                let key = part(&chars, i + 1, j);
                assert(key@ =~= rest.subrange(1, j - i));
                assert(rest.skip(j - i) =~= input@.skip(j as int));
                if let Some(val) = vars.get(key.as_str()) {
                    out.append(val.as_str());
                }
                assert(out@ + expanded(input@.skip(j as int), vars@) =~= before + expanded(
                    rest,
                    vars@,
                ));
                i = j;
                continue ;
            } else {
                assert(name_len(rest.skip(1)) == 0) by {
                    assert(rest.skip(1)[0] == chars@[i + 1]);
                }
            }
        }
        out.push(chars[i]);
        assert(rest.skip(1) =~= input@.skip(i + 1));
        assert(out@ + expanded(input@.skip(i + 1), vars@) =~= before + expanded(rest, vars@));
        i += 1;
    }
    assert(input@.skip(i as int) =~= Seq::<char>::empty());
    assert(out@ =~= expanded(input@, vars@));
    out
}

/// Every text expanded.
pub open spec fn expanded_all(
    args: Seq<Seq<char>>,
    vars: Map<Seq<char>, Seq<char>>,
) -> Seq<Seq<char>> {
    args.map_values(|a: Seq<char>| expanded(a, vars))
}

/// [`expand`] applied to every argument.
pub fn expand_vec(args: &Vec<String>, vars: &Vars) -> (r: Vec<String>)
    ensures
        r.deep_view() == expanded_all(args.deep_view(), vars@),
{
    let mut out: Vec<String> = Vec::new();
    for i in 0..args.len()
        invariant
            out.deep_view() == expanded_all(args.deep_view().take(i as int), vars@),
    {
        let ghost before = out.deep_view();
        out.push(expand(args[i].as_str(), vars));
        assert(out.deep_view() =~= before.push(expanded(args[i as int]@, vars@)));
        assert(out.deep_view() =~= expanded_all(args.deep_view().take(i + 1), vars@));
    }
    assert(args.deep_view().take(args.deep_view().len() as int) =~= args.deep_view());
    out
}

/// A text without a dollar sign is left as it is.
pub proof fn plain_text_is_kept(input: Seq<char>, vars: Map<Seq<char>, Seq<char>>)
    requires
        !input.contains('$'),
    ensures
        expanded(input, vars) == input,
    decreases input.len(),
{
    if input.len() > 0 {
        assert(input.contains(input[0]));
        let rest = input.skip(1);
        assert(!rest.contains('$')) by {
            if rest.contains('$') {
                let k = choose|k: int| 0 <= k < rest.len() && rest[k] == '$';
                assert(input[k + 1] == '$');
            }
        }
        plain_text_is_kept(rest, vars);
        assert(seq![input[0]] + rest =~= input);
    }
}

/// A name in braces is replaced by its value, and expansion goes on behind the
/// closing brace.
pub proof fn braced_name_is_replaced(
    key: Seq<char>,
    rest: Seq<char>,
    vars: Map<Seq<char>, Seq<char>>,
)
    requires
        !key.contains('}'),
    ensures
        expanded("${"@ + key + "}"@ + rest, vars) == value_of(vars, key) + expanded(rest, vars),
{
    reveal_strlit("${");
    reveal_strlit("}");
    let input = "${"@ + key + "}"@ + rest;
    let tail = input.skip(2);
    assert(tail =~= key + "}"@ + rest);
    assert forall|k: int| 0 <= k < key.len() implies #[trigger] tail[k] != '}' by {
        assert(tail[k] == key[k]);
        assert(key.contains(key[k]));
    }
    text::lemma_first_of(tail, '}', key.len() as int);
    assert(input.subrange(2, 2 + key.len() as int) =~= key);
    assert(input.skip(3 + key.len() as int) =~= rest);
}

/// A name without braces is replaced by its value as far as name characters go, and
/// expansion goes on behind them.
pub proof fn bare_name_is_replaced(
    key: Seq<char>,
    rest: Seq<char>,
    vars: Map<Seq<char>, Seq<char>>,
)
    requires
        key.len() > 0,
        forall|k: int| 0 <= k < key.len() ==> name_char(#[trigger] key[k]),
        rest.len() > 0 ==> !name_char(rest[0]),
    ensures
        expanded("$"@ + key + rest, vars) == value_of(vars, key) + expanded(rest, vars),
{
    reveal_strlit("$");
    let input = "$"@ + key + rest;
    let tail = input.skip(1);
    assert(tail =~= key + rest);
    assert forall|k: int| 0 <= k < key.len() implies name_char(#[trigger] tail[k]) by {
        assert(tail[k] == key[k]);
    }
    lemma_name_len(tail, key.len() as int);
    assert(input[1] == key[0]);
    assert(!name_char('{'));
    assert(input.subrange(1, 1 + key.len() as int) =~= key);
    assert(input.skip(1 + key.len() as int) =~= rest);
}

} // verus!
