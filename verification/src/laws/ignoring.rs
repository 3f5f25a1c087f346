//! Which files of the build context are copied.

use vstd::prelude::*;

use crate::context::{self, RuleView};
use crate::fs::{self, FsOpView, RelOp};
use crate::laws::paths;
use crate::path::PathView;
use crate::text;
use crate::tree::{Entry, Node};

verus! {

/// A text without stars.
pub open spec fn starless(s: Seq<char>) -> bool {
    !s.contains('*')
}

proof fn lemma_marks()
    ensures
        "/**"@ == seq!['/', '*', '*'],
        "/*"@ == seq!['/', '*'],
        "**/"@ == seq!['*', '*', '/'],
        "*"@ == seq!['*'],
        "/"@ == seq!['/'],
{
    reveal_strlit("/**");
    reveal_strlit("/*");
    reveal_strlit("**/");
    reveal_strlit("*");
    reveal_strlit("/");
    assert("/**"@ =~= seq!['/', '*', '*']);
    assert("/*"@ =~= seq!['/', '*']);
    assert("**/"@ =~= seq!['*', '*', '/']);
    assert("*"@ =~= seq!['*']);
    assert("/"@ =~= seq!['/']);
}

/// What a suffix says of the last characters.
proof fn lemma_ends(s: Seq<char>, p: Seq<char>)
    ensures
        text::has_suffix(s, p) ==> p.len() <= s.len() && forall|i: int|
            0 <= i < p.len() ==> s[s.len() - p.len() + i] == #[trigger] p[i],
{
    if text::has_suffix(s, p) {
        assert forall|i: int| 0 <= i < p.len() implies s[s.len() - p.len() + i]
            == #[trigger] p[i] by {
            assert(s.skip(s.len() - p.len())[i] == p[i]);
        }
    }
}

/// What a prefix says of the first characters.
proof fn lemma_begins(s: Seq<char>, p: Seq<char>)
    ensures
        text::has_prefix(s, p) ==> p.len() <= s.len() && forall|i: int|
            0 <= i < p.len() ==> s[i] == #[trigger] p[i],
        text::has_prefix(s, p) == p.is_prefix_of(s),
{
    if text::has_prefix(s, p) {
        assert forall|i: int| 0 <= i < p.len() implies s[i] == #[trigger] p[i] by {
            assert(s.take(p.len() as int)[i] == p[i]);
        }
        assert(p =~= s.subrange(0, p.len() as int));
    }
    if p.is_prefix_of(s) {
        assert(s.take(p.len() as int) =~= p);
    }
}

/// A pattern without stars speaks of the path that it names and of everything below
/// it.
pub proof fn a_name_means_itself_and_what_is_below(pattern: Seq<char>, path: Seq<char>)
    requires
        starless(pattern),
    ensures
        context::matches_pattern(pattern, path) <==> path == pattern
            || pattern.push('/').is_prefix_of(path),
{
    lemma_marks();
    lemma_ends(pattern, "/**"@);
    lemma_ends(pattern, "/*"@);
    lemma_ends(pattern, "*"@);
    lemma_begins(pattern, "**/"@);
    lemma_begins(pattern, "*"@);
    assert(pattern + "/"@ =~= pattern.push('/'));
    lemma_begins(path, pattern.push('/'));
    assert(!text::has_suffix(pattern, "/**"@)) by {
        if text::has_suffix(pattern, "/**"@) {
            assert("/**"@[1] == '*');
            assert(pattern[pattern.len() - 3 + 1] == '*');
        }
    }
    assert(!text::has_suffix(pattern, "/*"@)) by {
        if text::has_suffix(pattern, "/*"@) {
            assert("/*"@[1] == '*');
            assert(pattern[pattern.len() - 2 + 1] == '*');
        }
    }
    assert(!text::has_suffix(pattern, "*"@)) by {
        if text::has_suffix(pattern, "*"@) {
            assert("*"@[0] == '*');
            assert(pattern[pattern.len() - 1 + 0] == '*');
        }
    }
    assert(!text::has_prefix(pattern, "**/"@)) by {
        if text::has_prefix(pattern, "**/"@) {
            assert("**/"@[0] == '*');
            assert(pattern[0] == '*');
        }
    }
    assert(!text::has_prefix(pattern, "*"@)) by {
        if text::has_prefix(pattern, "*"@) {
            assert("*"@[0] == '*');
            assert(pattern[0] == '*');
        }
    }
}

/// A directory with two stars behind it means the directory and everything below it.
pub proof fn two_stars_mean_everything_below(dir: Seq<char>, path: Seq<char>)
    ensures
        context::matches_pattern(dir + seq!['/', '*', '*'], path) <==> path == dir || dir.push(
            '/',
        ).is_prefix_of(path),
{
    lemma_marks();
    let pattern = dir + seq!['/', '*', '*'];
    assert(pattern.skip(pattern.len() - 3) =~= "/**"@);
    assert(pattern.take(pattern.len() - 3) =~= dir);
    assert(dir + "/"@ =~= dir.push('/'));
    lemma_begins(path, dir.push('/'));
    if path == pattern {
        assert(dir.push('/') =~= path.subrange(0, dir.len() as int + 1));
    }
}

/// A directory with one star behind it means what stands right in the directory.
pub proof fn one_star_means_what_is_right_below(dir: Seq<char>, path: Seq<char>)
    ensures
        context::matches_pattern(dir + seq!['/', '*'], path) <==> dir.push('/').is_prefix_of(path)
            && !path.skip(dir.len() as int + 1).contains('/'),
{
    lemma_marks();
    let pattern = dir + seq!['/', '*'];
    lemma_ends(pattern, "/**"@);
    assert(!text::has_suffix(pattern, "/**"@)) by {
        if text::has_suffix(pattern, "/**"@) {
            assert("/**"@[1] == '*');
            assert(pattern[pattern.len() - 3 + 1] == '*');
            assert(pattern[pattern.len() - 2] == '/');
        }
    }
    assert(pattern.skip(pattern.len() - 2) =~= "/*"@);
    assert(pattern.take(pattern.len() - 2) =~= dir);
    assert(dir + "/"@ =~= dir.push('/'));
    lemma_begins(path, dir.push('/'));
    if path == pattern {
        assert(dir.push('/') =~= path.subrange(0, dir.len() as int + 1));
        assert(path.skip(dir.len() as int + 1) =~= seq!['*']);
    }
}

/// Two stars in front of a name mean the name in any directory.
pub proof fn two_stars_mean_any_directory(name: Seq<char>, path: Seq<char>)
    requires
        starless(name),
    ensures
        context::matches_pattern(seq!['*', '*', '/'] + name, path) <==> path == name || (exists|
            dir: Seq<char>,
        |
            path == #[trigger] dir.push('/') + name),
{
    lemma_marks();
    let pattern = seq!['*', '*', '/'] + name;
    lemma_ends(pattern, "/**"@);
    lemma_ends(pattern, "/*"@);
    let n = pattern.len() as int;
    if text::has_suffix(pattern, "/**"@) {
        assert("/**"@[2] == '*');
        assert(pattern[n - 3 + 2] == '*');
        if name.len() > 0 {
            assert(name[name.len() - 1] == '*');
        }
        assert(false);
    }
    if text::has_suffix(pattern, "/*"@) {
        assert("/*"@[1] == '*');
        assert(pattern[n - 2 + 1] == '*');
        if name.len() > 0 {
            assert(name[name.len() - 1] == '*');
        }
        assert(false);
    }
    assert(pattern.take(3) =~= "**/"@);
    assert(pattern.skip(3) =~= name);
    let tail = "/"@ + name;
    if text::has_suffix(path, tail) {
        let dir = path.take(path.len() - tail.len());
        assert(path =~= dir + path.skip(path.len() - tail.len()));
        assert(path =~= dir.push('/') + name);
    }
    if exists|dir: Seq<char>| path == #[trigger] dir.push('/') + name {
        let dir = choose|dir: Seq<char>| path == #[trigger] dir.push('/') + name;
        assert(path.skip(path.len() - tail.len()) =~= tail);
    }
    if path == pattern {
        let dir = seq!['*', '*'];
        assert(path =~= dir.push('/') + name);
    }
}

/// A star in front of an ending means every path that ends so.
pub proof fn a_star_in_front_means_the_ending(ending: Seq<char>, path: Seq<char>)
    requires
        starless(ending),
        ending.len() > 0,
    ensures
        context::matches_pattern(seq!['*'] + ending, path) <==> (exists|front: Seq<char>|
            path == #[trigger] (front + ending)),
{
    lemma_marks();
    let pattern = seq!['*'] + ending;
    let n = pattern.len() as int;
    lemma_ends(pattern, "/**"@);
    lemma_ends(pattern, "/*"@);
    lemma_begins(pattern, "**/"@);
    assert(pattern[n - 1] == ending[ending.len() - 1]);
    if text::has_suffix(pattern, "/**"@) {
        assert("/**"@[2] == '*');
        assert(pattern[n - 3 + 2] == '*');
        assert(false);
    }
    if text::has_suffix(pattern, "/*"@) {
        assert("/*"@[1] == '*');
        assert(pattern[n - 2 + 1] == '*');
        assert(false);
    }
    if text::has_prefix(pattern, "**/"@) {
        assert("**/"@[1] == '*');
        assert(pattern[1] == '*');
        assert(ending[0] == '*');
        assert(false);
    }
    assert(pattern.take(1) =~= "*"@);
    assert(pattern.skip(1) =~= ending);
    if text::has_suffix(path, ending) {
        let front = path.take(path.len() - ending.len());
        assert(path =~= front + ending);
    }
    if exists|front: Seq<char>| path == #[trigger] (front + ending) {
        let front = choose|front: Seq<char>| path == #[trigger] (front + ending);
        assert(path.skip(path.len() - ending.len()) =~= ending);
    }
    if path == pattern {
        assert(path == seq!['*'] + ending);
    }
}

/// A star behind a beginning means every path that begins so.
pub proof fn a_star_behind_means_the_beginning(beginning: Seq<char>, path: Seq<char>)
    requires
        starless(beginning),
        beginning.len() > 0,
        beginning.last() != '/',
    ensures
        context::matches_pattern(beginning.push('*'), path) <==> beginning.is_prefix_of(path),
{
    lemma_marks();
    let pattern = beginning.push('*');
    let n = pattern.len() as int;
    lemma_ends(pattern, "/**"@);
    lemma_ends(pattern, "/*"@);
    lemma_begins(pattern, "**/"@);
    lemma_begins(pattern, "*"@);
    if text::has_suffix(pattern, "/**"@) {
        assert("/**"@[1] == '*');
        assert(pattern[n - 3 + 1] == '*');
        assert(beginning[n - 2] == '*');
        assert(false);
    }
    if text::has_suffix(pattern, "/*"@) {
        assert("/*"@[0] == '/');
        assert(pattern[n - 2 + 0] == '/');
        assert(false);
    }
    if text::has_prefix(pattern, "**/"@) || text::has_prefix(pattern, "*"@) {
        assert("**/"@[0] == '*');
        assert("*"@[0] == '*');
        assert(pattern[0] == '*');
        assert(beginning[0] == '*');
        assert(false);
    }
    assert(pattern.skip(n - 1) =~= "*"@);
    assert(pattern.take(n - 1) =~= beginning);
    lemma_begins(path, beginning);
    if path == pattern {
        assert(beginning =~= path.subrange(0, n - 1));
    }
}

/// The last rule that speaks of a path decides whether it is left out; a path that no
/// rule speaks of is not.
pub proof fn the_last_rule_decides(rules: Seq<RuleView>, path: Seq<char>, k: int)
    requires
        0 <= k <= rules.len(),
        forall|i: int|
            k <= i < rules.len() ==> !context::matches_pattern(
                (#[trigger] rules[i]).pattern,
                path,
            ),
    ensures
        k > 0 && context::matches_pattern(rules[k - 1].pattern, path) ==> context::left_out(
            rules,
            path,
        ) == !rules[k - 1].negate,
        k == 0 ==> !context::left_out(rules, path),
    decreases rules.len(),
{
    if rules.len() > k {
        let rest = rules.drop_last();
        assert(!context::matches_pattern(rules[rules.len() - 1].pattern, path));
        assert forall|i: int| k <= i < rest.len() implies !context::matches_pattern(
            (#[trigger] rest[i]).pattern,
            path,
        ) by {
            assert(rest[i] == rules[i]);
        }
        the_last_rule_decides(rest, path, k);
        if k > 0 {
            assert(rest[k - 1] == rules[k - 1]);
        }
    } else if k > 0 {
        assert(rules.last() == rules[k - 1]);
    }
}

/// A line of an ignore file states the pattern written there; an exclamation mark in
/// front takes the path in again. Comments and blank lines state nothing, and `./` at
/// the front of a pattern is no part of it.
pub proof fn lines_state_rules(pattern: Seq<char>)
    requires
        pattern.len() > 0,
        !text::white(pattern[0]),
        !text::white(pattern.last()),
        !(pattern.len() >= 2 && pattern[0] == '.' && pattern[1] == '/'),
    ensures
        pattern[0] != '#' && pattern[0] != '!' ==> context::rule_of(pattern) == Some(
            RuleView { pattern, negate: false },
        ),
        pattern[0] != '#' && pattern[0] != '!' ==> context::rule_of(seq!['.', '/'] + pattern)
            == Some(RuleView { pattern, negate: false }),
        context::rule_of(seq!['!'] + pattern) == Some(RuleView { pattern, negate: true }),
        context::rule_of(seq!['#'] + pattern) is None,
        context::rule_of(Seq::empty()) is None,
{
    let none = Seq::<char>::empty();
    text::lemma_trimmed_kept(pattern);
    let dotted = seq!['.', '/'] + pattern;
    assert(dotted.last() == pattern.last());
    text::lemma_trimmed_kept(dotted);
    assert(dotted.skip(2) =~= pattern);
    assert(context::without_dot_slash(dotted) == context::without_dot_slash(pattern));
    let back = seq!['!'] + pattern;
    assert(back.last() == pattern.last());
    text::lemma_trimmed_kept(back);
    assert(back.skip(1) =~= pattern);
    let comment = seq!['#'] + pattern;
    assert(comment.last() == pattern.last());
    text::lemma_trimmed_kept(comment);
    assert(text::trimmed(none) =~= none);
}

/// The rules of a context are one for each line that states one, in the order of the
/// lines, behind those that leave out what `.git` holds.
pub proof fn lines_are_read_in_order(lines: Seq<Seq<char>>, line: Seq<char>)
    ensures
        context::rule_of(line) matches Some(r) ==> context::rules_of(lines.push(line))
            == context::rules_of(lines).push(r),
        context::rule_of(line) is None ==> context::rules_of(lines.push(line))
            == context::rules_of(lines),
        context::rules_of(Seq::empty()).len() == 2,
        forall|path: Seq<char>|
            #[trigger] context::left_out(context::rules_of(Seq::empty()), path) <==> path
                == ".git"@ || ".git"@.push('/').is_prefix_of(path),
{
    assert(lines.push(line).drop_last() =~= lines);
    let rules = context::rules_of(Seq::empty());
    assert forall|path: Seq<char>|
        #[trigger] context::left_out(rules, path) <==> path == ".git"@ || ".git"@.push(
            '/',
        ).is_prefix_of(path) by {
        reveal_strlit(".git");
        reveal_strlit(".git/**");
        assert(".git/**"@ =~= ".git"@ + seq!['/', '*', '*']);
        a_name_means_itself_and_what_is_below(".git"@, path);
        two_stars_mean_everything_below(".git"@, path);
        let one = rules.drop_last();
        assert(one.drop_last() =~= Seq::<RuleView>::empty());
        assert(one.last().pattern == ".git"@);
        assert(rules.last().pattern == ".git/**"@);
        assert(!context::left_out(Seq::<RuleView>::empty(), path));
        assert(!one.last().negate && !rules.last().negate);
        assert(context::left_out(one, path) == context::matches_pattern(".git"@, path));
        assert(context::left_out(rules, path) == (context::matches_pattern(".git/**"@, path)
            || context::left_out(one, path)));
    }
}

// ---------------------------------------------------------------------------
// Copies
// ---------------------------------------------------------------------------

/// Whether a path leads to a directory, or to a file, among these entries.
pub open spec fn leads_to(entries: Seq<Entry>, p: Seq<Seq<char>>, dir: bool) -> bool
    decreases p.len(), 1int,
{
    exists|i: int| 0 <= i < entries.len() && leads_into(#[trigger] entries[i], p, dir)
}

/// Whether a path leads through an entry to a directory, or to a file.
pub open spec fn leads_into(e: Entry, p: Seq<Seq<char>>, dir: bool) -> bool
    decreases p.len(), 0int,
{
    &&& p.len() > 0
    &&& p[0] == e.name@
    &&& if p.len() == 1 {
        if dir {
            e.node is Dir
        } else {
            e.node is File
        }
    } else {
        e.node matches Node::Dir { entries } && leads_to(entries@, p.skip(1), dir)
    }
}

/// What is done for a directory, or for a file, at a path.
pub open spec fn brings(p: Seq<Seq<char>>, dir: bool) -> RelOp {
    if dir {
        RelOp::MakeDir(p)
    } else {
        RelOp::CopyFile(p)
    }
}

proof fn lemma_split_contains<A>(a: Seq<A>, b: Seq<A>, x: A)
    ensures
        (a + b).contains(x) <==> a.contains(x) || b.contains(x),
{
    let all = a + b;
    if a.contains(x) {
        let i = choose|i: int| 0 <= i < a.len() && a[i] == x;
        assert(all[i] == x);
    }
    if b.contains(x) {
        let i = choose|i: int| 0 <= i < b.len() && b[i] == x;
        assert(all[a.len() + i] == x);
    }
    if all.contains(x) {
        let i = choose|i: int| 0 <= i < all.len() && all[i] == x;
        if i < a.len() {
            assert(a[i] == x);
        } else {
            assert(b[i - a.len()] == x);
        }
    }
}

proof fn lemma_kept_way(rules: Seq<RuleView>, rel: Seq<Seq<char>>, name: Seq<char>, q: Seq<
    Seq<char>,
>)
    ensures
        context::way_is_kept(rules, rel, seq![name] + q) <==> !context::left_out(
            rules,
            context::pattern_path(rel.push(name)),
        ) && context::way_is_kept(rules, rel.push(name), q),
{
    let p = seq![name] + q;
    let path = rel.push(name);
    if context::way_is_kept(rules, rel, p) {
        assert(rel + p.take(1) =~= path);
        assert forall|n: int| 0 < n <= q.len() implies !context::left_out(
            rules,
            context::pattern_path(path + #[trigger] q.take(n)),
        ) by {
            assert(rel + p.take(n + 1) =~= path + q.take(n));
        }
    }
    if !context::left_out(rules, context::pattern_path(path)) && context::way_is_kept(
        rules,
        path,
        q,
    ) {
        assert forall|n: int| 0 < n <= p.len() implies !context::left_out(
            rules,
            context::pattern_path(rel + #[trigger] p.take(n)),
        ) by {
            if n == 1 {
                assert(rel + p.take(1) =~= path);
            } else {
                assert(rel + p.take(n) =~= path + q.take(n - 1));
            }
        }
    }
}

/// Every file that the rules keep is copied, and every directory on the way is made;
/// nothing else is. The way to it starts at the entries, which `rel` leads to from the
/// context.
pub proof fn kept_files_are_copied(
    rules: Seq<RuleView>,
    entries: Seq<Entry>,
    rel: Seq<Seq<char>>,
    p: Seq<Seq<char>>,
    dir: bool,
)
    ensures
        context::kept_ops(rules, entries, rel).contains(brings(p, dir)) <==> leads_to(
            entries,
            p,
            dir,
        ) && context::way_is_kept(rules, rel, p),
    decreases entries, 1int,
{
    let op = brings(p, dir);
    let all = context::kept_ops(rules, entries, rel);
    if entries.len() > 0 {
        let rest = entries.drop_last();
        let e = entries[entries.len() - 1];
        assert(e == entries.last());
        kept_files_are_copied(rules, rest, rel, p, dir);
        lemma_one_kept(rules, e, rel, p, dir);
        lemma_split_contains(
            context::kept_ops(rules, rest, rel),
            context::kept_one(rules, e, rel),
            op,
        );
        if leads_to(rest, p, dir) {
            let i = choose|i: int| 0 <= i < rest.len() && leads_into(#[trigger] rest[i], p, dir);
            assert(rest[i] == entries[i]);
        }
        if leads_to(entries, p, dir) {
            let i = choose|i: int|
                0 <= i < entries.len() && leads_into(#[trigger] entries[i], p, dir);
            if i < rest.len() {
                assert(rest[i] == entries[i]);
            }
        }
    }
}

proof fn lemma_one_kept(
    rules: Seq<RuleView>,
    e: Entry,
    rel: Seq<Seq<char>>,
    p: Seq<Seq<char>>,
    dir: bool,
)
    ensures
        context::kept_one(rules, e, rel).contains(brings(p, dir)) <==> leads_into(e, p, dir)
            && context::way_is_kept(rules, rel, p),
    decreases e, 0int,
{
    let op = brings(p, dir);
    let one = context::kept_one(rules, e, rel);
    let path = rel.push(e.name@);
    let none = Seq::<Seq<char>>::empty();
    let q = p.skip(1);
    if p.len() > 0 && p[0] == e.name@ {
        assert(seq![e.name@] + q =~= p);
        lemma_kept_way(rules, rel, e.name@, q);
    }
    if !context::left_out(rules, context::pattern_path(path)) {
        match e.node {
            Node::Dir { entries: inner } => {
                let ops = context::kept_ops(rules, inner@, path);
                let down = seq![RelOp::MakeDir(none)] + ops;
                kept_files_are_copied(rules, inner@, path, q, dir);
                if one.contains(op) {
                    let i = choose|i: int| 0 <= i < one.len() && one[i] == op;
                    assert(one[i] == fs::under_one(e.name@, down[i]));
                    if i == 0 {
                        assert(p =~= seq![e.name@]);
                        assert(q =~= none);
                        assert(context::way_is_kept(rules, path, none));
                    } else {
                        assert(down[i] == ops[i - 1]);
                        lemma_under_brings(e.name@, ops[i - 1], p, dir);
                        assert(ops.contains(brings(q, dir)));
                        assert(q.len() > 0);
                    }
                }
                if leads_into(e, p, dir) && context::way_is_kept(rules, rel, p) {
                    if p.len() == 1 {
                        assert(down[0] == RelOp::MakeDir(none));
                        assert(one[0] == fs::under_one(e.name@, down[0]));
                        assert(seq![e.name@] + none =~= p);
                        assert(one.contains(op));
                    } else {
                        let i = choose|i: int| 0 <= i < ops.len() && ops[i] == brings(q, dir);
                        assert(down[i + 1] == ops[i]);
                        assert(one[i + 1] == fs::under_one(e.name@, down[i + 1]));
                        assert(one[i + 1] == op);
                    }
                }
            },
            Node::File { .. } => {
                assert(one.len() == 1);
                assert(one[0] == fs::under_one(e.name@, RelOp::CopyFile(none)));
                assert(seq![e.name@] + none =~= seq![e.name@]);
                assert(one[0] == RelOp::CopyFile(seq![e.name@]));
                if one.contains(op) {
                    assert(p =~= seq![e.name@]);
                    assert(q =~= none);
                    assert(context::way_is_kept(rules, path, none));
                }
                if leads_into(e, p, dir) {
                    assert(p =~= seq![e.name@]);
                }
            },
            _ => {},
        }
    }
}

proof fn lemma_under_brings(name: Seq<char>, op: RelOp, p: Seq<Seq<char>>, dir: bool)
    requires
        fs::under_one(name, op) == brings(p, dir),
    ensures
        p.len() > 0,
        p[0] == name,
        op == brings(p.skip(1), dir),
{
    match op {
        RelOp::MakeDir(r) => {
            assert((seq![name] + r).skip(1) =~= r);
        },
        RelOp::CopyFile(r) => {
            assert((seq![name] + r).skip(1) =~= r);
        },
        _ => {},
    }
}

proof fn lemma_placed(ops: Seq<RelOp>, src: PathView, dest: PathView, k: int)
    requires
        0 <= k < ops.len(),
    ensures
        ops[k] matches RelOp::CopyFile(p) ==> fs::placed(ops, src, dest).contains(
            fs::must(FsOpView::Copy(fs::below(src, p), fs::below(dest, p))),
        ),
        ops[k] matches RelOp::MakeDir(p) ==> fs::placed(ops, src, dest).contains(
            fs::must(FsOpView::CreateDirAll(fs::below(dest, p))),
        ),
    decreases ops.len(),
{
    let rest = ops.drop_last();
    let before = fs::placed(rest, src, dest);
    let one = fs::placed_one(ops.last(), src, dest);
    assert(fs::placed(ops, src, dest) == before + one);
    if k < rest.len() {
        assert(rest[k] == ops[k]);
        lemma_placed(rest, src, dest, k);
    } else {
        assert(one.len() == 1 || !(ops[k] is CopyFile || ops[k] is MakeDir));
        if ops[k] is CopyFile || ops[k] is MakeDir {
            assert(one.contains(one[0]));
        }
    }
    match ops[k] {
        RelOp::CopyFile(p) => {
            lemma_split_contains(
                before,
                one,
                fs::must(FsOpView::Copy(fs::below(src, p), fs::below(dest, p))),
            );
        },
        RelOp::MakeDir(p) => {
            lemma_split_contains(
                before,
                one,
                fs::must(FsOpView::CreateDirAll(fs::below(dest, p))),
            );
        },
        _ => {},
    }
}

/// Every file below a copied directory that the rules keep is copied to the same path
/// below the destination, and its directory is made there. Without a place in the
/// context no rules apply.
pub proof fn copied_directories_keep_their_files(
    rules: Seq<RuleView>,
    place: Option<Seq<Seq<char>>>,
    node: Node,
    src: PathView,
    dest: PathView,
    p: Seq<Seq<char>>,
    dir: bool,
)
    requires
        node is Dir,
        leads_to(node->Dir_entries@, p, dir),
        place matches Some(rel) ==> context::way_is_kept(rules, rel, p),
    ensures
        context::copied_steps(rules, place, node, src, dest) matches Ok(steps) && {
            &&& !dir ==> steps.contains(
                fs::must(
                    FsOpView::Copy(
                        PathView { anchor: src.anchor, parts: src.parts + p },
                        PathView { anchor: dest.anchor, parts: dest.parts + p },
                    ),
                ),
            )
            &&& dir ==> steps.contains(
                fs::must(
                    FsOpView::CreateDirAll(
                        PathView { anchor: dest.anchor, parts: dest.parts + p },
                    ),
                ),
            )
            &&& steps.len() > 0 && steps[0] == fs::must(FsOpView::CreateDirAll(dest))
        },
{
    let (active, rel) = match place {
        Some(r) => (rules, r),
        None => (Seq::empty(), Seq::empty()),
    };
    let entries = node->Dir_entries@;
    if place is None {
        assert(context::way_is_kept(active, rel, p));
    }
    kept_files_are_copied(active, entries, rel, p, dir);
    let kept = context::kept_ops(active, entries, rel);
    let head = seq![RelOp::MakeDir(Seq::<Seq<char>>::empty())];
    let ops = head + kept;
    let k = choose|k: int| 0 <= k < kept.len() && kept[k] == brings(p, dir);
    assert(ops[k + 1] == kept[k]);
    lemma_placed(ops, src, dest, k + 1);
    lemma_first_placed(ops, src, dest);
    assert(dest.parts + Seq::<Seq<char>>::empty() =~= dest.parts);
}

proof fn lemma_first_placed(ops: Seq<RelOp>, src: PathView, dest: PathView)
    requires
        ops.len() > 0,
        ops[0] is MakeDir,
    ensures
        fs::placed(ops, src, dest).len() > 0,
        fs::placed(ops, src, dest)[0] == fs::must(
            FsOpView::CreateDirAll(fs::below(dest, ops[0]->MakeDir_0)),
        ),
    decreases ops.len(),
{
    let rest = ops.drop_last();
    let before = fs::placed(rest, src, dest);
    if ops.len() > 1 {
        assert(rest[0] == ops[0]);
        lemma_first_placed(rest, src, dest);
        assert(fs::placed(ops, src, dest)[0] == before[0]);
    } else {
        assert(before =~= Seq::empty());
        assert(ops.last() == ops[0]);
    }
}

/// A single file is copied from where it stands to where it is sent, once the
/// directory of its destination exists, unless the rules leave it out.
pub proof fn copied_files_go_where_they_are_sent(
    rules: Seq<RuleView>,
    place: Option<Seq<Seq<char>>>,
    node: Node,
    src: PathView,
    dest: PathView,
)
    requires
        node is File,
        dest.parts.len() > 0,
    ensures
        (place is Some && context::left_out(rules, context::pattern_path(place->0)))
            ==> context::copied_steps(rules, place, node, src, dest) == Ok::<
            Seq<fs::StepView>,
            Seq<char>,
        >(Seq::empty()),
        !(place is Some && context::left_out(rules, context::pattern_path(place->0)))
            ==> context::copied_steps(rules, place, node, src, dest) == Ok::<
            Seq<fs::StepView>,
            Seq<char>,
        >(
            seq![
                fs::must(
                    FsOpView::CreateDirAll(
                        PathView { anchor: dest.anchor, parts: dest.parts.drop_last() },
                    ),
                ),
                fs::must(FsOpView::Copy(src, dest)),
            ],
        ),
{
}

/// The rules see a path with its components between slashes.
pub proof fn rules_see_paths_with_slashes(parts: Seq<Seq<char>>)
    requires
        paths::components(parts),
    ensures
        context::pattern_path(parts) == paths::slashed(parts),
{
    assert forall|i: int| 0 <= i < parts.len() implies !(#[trigger] parts[i]).contains('\\') by {
        assert(paths::component(parts[i]));
    }
    paths::lemma_slashed(parts);
    paths::lemma_slashed_free(parts, '\\');
    let s = paths::slashed(parts);
    assert forall|i: int| 0 <= i < s.len() implies text::forward_slashes(s)[i] == s[i] by {
        assert(s.contains(s[i]));
    }
    assert(text::forward_slashes(s) =~= s);
}

} // verus!
