//! What variables and texts stand for.

use vstd::prelude::*;

use crate::digest;
use crate::expand;
use crate::meta;
use crate::order;
use crate::text;

verus! {

/// A character that a variable name can have where no braces stand around it.
pub open spec fn in_name(c: char) -> bool {
    'a' <= c <= 'z' || 'A' <= c <= 'Z' || '0' <= c <= '9' || c == '_'
}

/// Text in front of the first dollar sign is kept.
pub proof fn text_before_a_variable_is_kept(
    plain: Seq<char>,
    rest: Seq<char>,
    vars: Map<Seq<char>, Seq<char>>,
)
    requires
        !plain.contains('$'),
    ensures
        expand::expanded(plain + rest, vars) == plain + expand::expanded(rest, vars),
    decreases plain.len(),
{
    if plain.len() == 0 {
        assert(plain + rest =~= rest);
        assert(plain + expand::expanded(rest, vars) =~= expand::expanded(rest, vars));
    } else {
        let less = plain.skip(1);
        assert(plain.contains(plain[0]));
        assert(!less.contains('$')) by {
            if less.contains('$') {
                let k = choose|k: int| 0 <= k < less.len() && less[k] == '$';
                assert(plain[k + 1] == '$');
            }
        }
        text_before_a_variable_is_kept(less, rest, vars);
        assert((plain + rest).skip(1) =~= less + rest);
        assert((plain + rest)[0] == plain[0]);
        assert(seq![plain[0]] + (less + expand::expanded(rest, vars)) =~= plain
            + expand::expanded(rest, vars));
    }
}

/// A variable stands for its value wherever it is written, in braces or without, and
/// for nothing where it is not set. Text around it is kept.
pub proof fn variables_stand_for_their_values(
    plain: Seq<char>,
    key: Seq<char>,
    rest: Seq<char>,
    vars: Map<Seq<char>, Seq<char>>,
)
    requires
        !plain.contains('$'),
        key.len() > 0,
        forall|i: int| 0 <= i < key.len() ==> in_name(#[trigger] key[i]),
        rest.len() > 0 ==> !in_name(rest[0]),
    ensures
        vars.contains_key(key) ==> expand::expanded(plain + (seq!['$'] + key + rest), vars)
            == plain + (vars[key] + expand::expanded(rest, vars)),
        vars.contains_key(key) ==> expand::expanded(
            plain + (seq!['$', '{'] + key + seq!['}'] + rest),
            vars,
        ) == plain + (vars[key] + expand::expanded(rest, vars)),
        !vars.contains_key(key) ==> expand::expanded(plain + (seq!['$'] + key + rest), vars)
            == plain + expand::expanded(rest, vars),
        !vars.contains_key(key) ==> expand::expanded(
            plain + (seq!['$', '{'] + key + seq!['}'] + rest),
            vars,
        ) == plain + expand::expanded(rest, vars),
{
    reveal_strlit("$");
    reveal_strlit("${");
    reveal_strlit("}");
    assert("$"@ =~= seq!['$']);
    assert("${"@ =~= seq!['$', '{']);
    assert("}"@ =~= seq!['}']);
    assert forall|i: int| 0 <= i < key.len() implies expand::name_char(#[trigger] key[i]) by {
        assert(in_name(key[i]));
    }
    assert(!key.contains('}')) by {
        if key.contains('}') {
            let i = choose|i: int| 0 <= i < key.len() && key[i] == '}';
            assert(in_name(key[i]));
        }
    }
    expand::bare_name_is_replaced(key, rest, vars);
    expand::braced_name_is_replaced(key, rest, vars);
    text_before_a_variable_is_kept(plain, seq!['$'] + key + rest, vars);
    text_before_a_variable_is_kept(plain, seq!['$', '{'] + key + seq!['}'] + rest, vars);
    let none = Seq::<char>::empty();
    assert(none + expand::expanded(rest, vars) =~= expand::expanded(rest, vars));
}

/// A dollar sign that begins no variable is kept.
pub proof fn lone_dollar_signs_are_kept(rest: Seq<char>, vars: Map<Seq<char>, Seq<char>>)
    requires
        rest.len() > 0 ==> !in_name(rest[0]),
        rest.len() > 0 && rest[0] == '{' ==> !rest.contains('}'),
    ensures
        expand::expanded(seq!['$'] + rest, vars) == seq!['$'] + expand::expanded(rest, vars),
{
    let s = seq!['$'] + rest;
    assert(s.skip(1) =~= rest);
    if rest.len() > 0 && rest[0] == '{' {
        let tail = s.skip(2);
        text::lemma_first_of_bounds(tail, '}');
        let k = text::first_of(tail, '}');
        if k < tail.len() {
            assert(rest[k + 1] == '}');
        }
    }
}

/// The variables of an instruction are the build arguments, then the environment: an
/// argument hides an entry of the environment, and any other entry counts.
pub proof fn arguments_come_before_the_environment(
    args: Map<Seq<char>, Seq<char>>,
    env: Seq<Seq<char>>,
    key: Seq<char>,
    value: Seq<char>,
)
    requires
        !key.contains('='),
    ensures
        args.contains_key(key) ==> meta::with_env(args, env.push(key + seq!['='] + value))[key]
            == args[key],
        !meta::with_env(args, env).contains_key(key) ==> meta::with_env(
            args,
            env.push(key + seq!['='] + value),
        ) == meta::with_env(args, env).insert(key, value),
        meta::with_env(args, env).contains_key(key) ==> meta::with_env(
            args,
            env.push(key + seq!['='] + value),
        ) == meta::with_env(args, env),
        meta::with_env(args, Seq::empty()) == args,
{
    let entry = key + seq!['='] + value;
    let more = env.push(entry);
    assert(more.drop_last() =~= env);
    assert forall|k: int| 0 <= k < key.len() implies #[trigger] entry[k] != '=' by {
        assert(entry[k] == key[k]);
        assert(key.contains(key[k]));
    }
    text::lemma_first_of(entry, '=', key.len() as int);
    assert(entry.take(key.len() as int) =~= key);
    assert(entry.skip(key.len() as int + 1) =~= value);
    if args.contains_key(key) {
        meta::arguments_hide_environment(args, more, key);
    }
}

// ---------------------------------------------------------------------------
// Texts
// ---------------------------------------------------------------------------

/// A blank, tab or line end.
pub open spec fn blank(c: char) -> bool {
    c == ' ' || c == '\t' || c == '\n' || c == '\r'
}

/// Blanks around a text are no part of it.
pub proof fn blanks_around_a_text_go(front: Seq<char>, s: Seq<char>, back: Seq<char>)
    requires
        forall|i: int| 0 <= i < front.len() ==> blank(#[trigger] front[i]),
        forall|i: int| 0 <= i < back.len() ==> blank(#[trigger] back[i]),
        s.len() > 0,
        '!' <= s[0] <= '~',
        '!' <= s.last() <= '~',
    ensures
        text::trimmed(front + s + back) == s,
        text::trimmed(front).len() == 0,
    decreases front.len(), back.len(),
{
    let all = front + s + back;
    if front.len() > 0 {
        let less = front.skip(1);
        assert forall|i: int| 0 <= i < less.len() implies blank(#[trigger] less[i]) by {
            assert(blank(front[i + 1]));
        }
        blanks_around_a_text_go(less, s, back);
        assert(blank(front[0]));
        assert(all[0] == front[0]);
        assert(all.skip(1) =~= less + s + back);
        assert(text::trimmed_start(all) == text::trimmed_start(less + s + back));
        assert(text::trimmed_start(front) == text::trimmed_start(less));
    } else {
        assert(all[0] == s[0]);
        assert(text::trimmed_start(all) == all);
        lemma_back(s, back);
        assert(all =~= s + back);
        assert(text::trimmed_start(front) == front);
    }
}

proof fn lemma_back(s: Seq<char>, back: Seq<char>)
    requires
        forall|i: int| 0 <= i < back.len() ==> blank(#[trigger] back[i]),
        s.len() > 0,
        '!' <= s.last() <= '~',
    ensures
        text::trimmed_end(s + back) == s,
    decreases back.len(),
{
    if back.len() > 0 {
        let less = back.drop_last();
        assert forall|i: int| 0 <= i < less.len() implies blank(#[trigger] less[i]) by {
            assert(less[i] == back[i]);
        }
        lemma_back(s, less);
        assert(blank(back[back.len() - 1]));
        assert((s + back).last() == back.last());
        assert((s + back).drop_last() =~= s + less);
    } else {
        assert(s + back =~= s);
    }
}

/// The number behind a hexadecimal digit in lower case.
pub open spec fn hex_value(c: char) -> int {
    if '0' <= c <= '9' {
        c as int - '0' as int
    } else if 'a' <= c <= 'f' {
        c as int - 'a' as int + 10
    } else {
        -1
    }
}

/// The hexadecimal text of bytes has two digits in lower case for each byte, the
/// higher one first.
pub proof fn hexadecimal_texts_read_back(bytes: Seq<u8>, i: int)
    requires
        0 <= i < bytes.len(),
    ensures
        digest::hex(bytes).len() == 2 * bytes.len(),
        0 <= hex_value(digest::hex(bytes)[2 * i]) < 16,
        0 <= hex_value(digest::hex(bytes)[2 * i + 1]) < 16,
        16 * hex_value(digest::hex(bytes)[2 * i]) + hex_value(digest::hex(bytes)[2 * i + 1])
            == bytes[i],
{
    let b = bytes[i] as int;
    assert((2 * i) / 2 == i && (2 * i) % 2 == 0);
    assert((2 * i + 1) / 2 == i && (2 * i + 1) % 2 == 1);
    assert(16 * (b / 16) + b % 16 == b);
}

/// A digest names its algorithm and has the hexadecimal text behind it.
pub proof fn digests_name_their_algorithm(data: Seq<u8>)
    ensures
        digest::labelled_digest(data) == seq!['s', 'h', 'a', '2', '5', '6', ':'] + digest::hex(
            digest::sha256(data),
        ),
        digest::layer_digest_text(data) == digest::hex(digest::sha256(data)),
{
    reveal_strlit("sha256:");
    assert("sha256:"@ =~= seq!['s', 'h', 'a', '2', '5', '6', ':']);
}

/// Numbers are written in decimal digits that read back as the number.
pub proof fn decimal_texts_read_back(n: nat)
    ensures
        text::decimal(n).len() > 0,
        text::all_digits(text::decimal(n)),
        text::digits_value(text::decimal(n)) == n,
        n > 0 ==> text::decimal(n)[0] != '0',
        n <= usize::MAX ==> text::parsed_usize(text::decimal(n)) == Some(n),
    decreases n,
{
    if n >= 10 {
        decimal_texts_read_back(n / 10);
        let front = text::decimal(n / 10);
        let all = text::decimal(n);
        let d = text::digit((n % 10) as int);
        assert(all == front.push(d));
        assert(all.drop_last() =~= front);
        assert forall|i: int| 0 <= i < all.len() implies '0' <= #[trigger] all[i] <= '9' by {
            if i < front.len() {
                assert(all[i] == front[i]);
            }
        }
        assert(n == (n / 10) * 10 + n % 10);
    } else {
        let all = text::decimal(n);
        assert(all.drop_last() =~= Seq::<char>::empty());
        assert(text::digits_value(Seq::<char>::empty()) == 0);
    }
    let all = text::decimal(n);
    assert('0' <= all[0] <= '9');
}

/// Sorted texts are the same texts in ascending order of their characters.
pub proof fn sorted_texts_ascend(list: Seq<Seq<char>>, i: int, j: int, k: int)
    requires
        0 <= i < j < list.len(),
        0 <= k,
        order::sorted(list)[i].take(k) == order::sorted(list)[j].take(k),
        k < order::sorted(list)[i].len(),
        k < order::sorted(list)[j].len(),
    ensures
        order::sorted(list)[i][k] <= order::sorted(list)[j][k],
        order::sorted(list).to_multiset() == list.to_multiset(),
{
    let le = |a: Seq<char>, b: Seq<char>| order::at_most(a, b);
    order::lemma_at_most_total();
    list.lemma_sort_by_ensures(le);
    let s = order::sorted(list);
    s.to_multiset_ensures();
    list.to_multiset_ensures();
    assert(s.len() == list.len());
    assert(le(s[i], s[j]));
    lemma_at_most(s[i], s[j], k);
}

proof fn lemma_at_most(a: Seq<char>, b: Seq<char>, k: int)
    requires
        order::at_most(a, b),
        0 <= k < a.len(),
        k < b.len(),
        a.take(k) == b.take(k),
    ensures
        a[k] <= b[k],
    decreases k,
{
    if k > 0 {
        assert(a.take(k)[0] == a[0]);
        assert(b.take(k)[0] == b[0]);
        assert(a.skip(1).take(k - 1) =~= a.take(k).skip(1));
        assert(b.skip(1).take(k - 1) =~= b.take(k).skip(1));
        lemma_at_most(a.skip(1), b.skip(1), k - 1);
    }
}

/// The lines of a text are what stands between line feeds, without a carriage return at
/// their end; a line feed at the end of the text begins no further line.
pub proof fn lines_end_at_line_feeds(line: Seq<char>, rest: Seq<char>)
    requires
        !line.contains('\n'),
        line.len() > 0 ==> line.last() != '\r',
    ensures
        text::lines_of(Seq::empty()).len() == 0,
        text::lines_of(line + seq!['\n'] + rest) == seq![line] + text::lines_of(rest),
        text::lines_of(line + seq!['\r', '\n'] + rest) == seq![line] + text::lines_of(rest),
        line.len() > 0 ==> text::lines_of(line) == seq![line],
{
    let empty = Seq::<char>::empty();
    assert(text::split_at_char(empty, '\n') =~= seq![empty]);
    assert(text::lines_of(empty).len() == 0);
    lemma_line(line, rest);
    let carried = line.push('\r');
    assert(!carried.contains('\n')) by {
        if carried.contains('\n') {
            let k = choose|k: int| 0 <= k < carried.len() && carried[k] == '\n';
            assert(line[k] == '\n');
        }
    }
    lemma_line(carried, rest);
    assert(carried.drop_last() =~= line);
    assert(carried + seq!['\n'] + rest =~= line + seq!['\r', '\n'] + rest);
    text::lemma_pieces_extend(empty, line, '\n');
    assert(empty + line =~= line);
    assert(text::split_at_char(line, '\n') =~= seq![line]);
    if line.len() > 0 {
        assert(text::lines_of(line) =~= seq![line]);
    }
}

proof fn lemma_line(line: Seq<char>, rest: Seq<char>)
    requires
        !line.contains('\n'),
    ensures
        text::lines_of(line + seq!['\n'] + rest) == seq![text::line_body(line)] + text::lines_of(
            rest,
        ),
{
    text::lemma_split_at_first(line, '\n', rest);
    text::lemma_pieces_free(rest, '\n', '\n');
    let few = text::split_at_char(rest, '\n');
    let all = seq![line] + few;
    assert(all.drop_last() =~= seq![line] + few.drop_last());
    assert(all.last() == few.last());
    assert(text::lines_of(line + seq!['\n'] + rest) =~= seq![text::line_body(line)]
        + text::lines_of(rest));
}

/// Upper case differs from lower case in letters alone.
pub proof fn case_concerns_letters_alone(c: char)
    ensures
        'a' <= c <= 'z' ==> text::ascii_upper(c) as u32 + 32 == c as u32,
        'a' <= c <= 'z' ==> text::ascii_lower(c) == c,
        'A' <= c <= 'Z' ==> text::ascii_lower(c) as u32 == c as u32 + 32,
        'A' <= c <= 'Z' ==> text::ascii_upper(c) == c,
        !('a' <= c <= 'z') && !('A' <= c <= 'Z') ==> text::ascii_lower(c) == c
            && text::ascii_upper(c) == c,
{
}

/// A text stands before those that it begins.
pub proof fn sorted_texts_come_before_their_extensions(list: Seq<Seq<char>>, i: int, j: int)
    requires
        0 <= i < j < list.len(),
        order::sorted(list)[j].is_prefix_of(order::sorted(list)[i]),
    ensures
        order::sorted(list)[i] == order::sorted(list)[j],
{
    let le = |a: Seq<char>, b: Seq<char>| order::at_most(a, b);
    order::lemma_at_most_total();
    list.lemma_sort_by_ensures(le);
    let s = order::sorted(list);
    s.to_multiset_ensures();
    list.to_multiset_ensures();
    assert(s.len() == list.len());
    assert(le(s[i], s[j]));
    lemma_prefix_before(s[j], s[i]);
}

proof fn lemma_prefix_before(a: Seq<char>, b: Seq<char>)
    requires
        a.is_prefix_of(b),
    ensures
        a == b || order::before(a, b),
    decreases a.len(),
{
    if a.len() == 0 {
        if b.len() == 0 {
            assert(a =~= b);
        }
    } else {
        assert(a =~= b.subrange(0, a.len() as int));
        assert(a[0] == b[0]);
        let x = a.skip(1);
        let y = b.skip(1);
        assert(x =~= y.subrange(0, x.len() as int));
        lemma_prefix_before(x, y);
        if x == y {
            assert(a =~= seq![a[0]] + x);
            assert(b =~= seq![b[0]] + y);
        }
    }
}

/// Backslashes become slashes, and nothing else changes.
pub proof fn backslashes_become_slashes(s: Seq<char>, i: int)
    requires
        0 <= i < s.len(),
    ensures
        text::forward_slashes(s).len() == s.len(),
        s[i] == '\\' ==> text::forward_slashes(s)[i] == '/',
        s[i] != '\\' ==> text::forward_slashes(s)[i] == s[i],
{
}

} // verus!
