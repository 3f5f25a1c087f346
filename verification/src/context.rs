//! Local build context and basic `.dockerignore` filtering.

use vstd::prelude::*;

use crate::error::{Error, ErrorView};
use crate::fs::{self, no_steps, push_must, push_steps, FsOp, FsOpView, RelOp, Step, StepView};
use crate::path::{HostPath, PathView};
use crate::text::{
    self, contains_char, ends_with, join, lines, same_text, starts_with, starts_with_char,
    strip_prefix, strip_suffix, to_forward_slashes, trim,
};
use crate::tree::{Entry, Node};

verus! {

broadcast use vstd::seq_lib::group_seq_properties;

/// One line of a `.dockerignore` file.
#[derive(Debug)]
pub struct IgnoreRule {
    /// Pattern without its exclamation mark.
    pub pattern: String,
    /// Whether matching files are kept.
    pub negate: bool,
}

/// An [`IgnoreRule`] with its texts as character sequences.
pub struct RuleView {
    pub pattern: Seq<char>,
    pub negate: bool,
}

impl View for IgnoreRule {
    type V = RuleView;

    open spec fn view(&self) -> RuleView {
        RuleView { pattern: self.pattern@, negate: self.negate }
    }
}

/// The views of several rules.
pub open spec fn rule_views(rules: Seq<IgnoreRule>) -> Seq<RuleView> {
    rules.map_values(|r: IgnoreRule| r@)
}

/// The directory that a build takes its files from, with the rules that leave
/// files out.
#[derive(Debug)]
pub struct BuildContext {
    /// The directory.
    pub dir: HostPath,
    /// The directory with all links on the way to it resolved.
    pub canon: HostPath,
    /// Rules in file order; the last one that matches decides.
    pub ignore: Vec<IgnoreRule>,
}

/// `s` without any `./` at its front.
pub open spec fn without_dot_slash(s: Seq<char>) -> Seq<char>
    decreases s.len(),
{
    if s.len() >= 2 && s[0] == '.' && s[1] == '/' {
        without_dot_slash(s.skip(2))
    } else {
        s
    }
}

/// The rule that a line of a `.dockerignore` file states: none for an empty line
/// or a comment.
pub open spec fn rule_of(line: Seq<char>) -> Option<RuleView> {
    let l = text::trimmed(line);
    if l.len() == 0 || l[0] == '#' {
        None
    } else if l[0] == '!' {
        Some(
            RuleView { pattern: without_dot_slash(text::trimmed(l.skip(1))), negate: true },
        )
    } else {
        Some(RuleView { pattern: without_dot_slash(l), negate: false })
    }
}

/// The rules that hold in every context.
pub open spec fn default_rules() -> Seq<RuleView> {
    seq![
        RuleView { pattern: ".git"@, negate: false },
        RuleView { pattern: ".git/**"@, negate: false },
    ]
}

/// The default rules, then one for each line that states one.
pub open spec fn rules_of(lines: Seq<Seq<char>>) -> Seq<RuleView>
    decreases lines.len(),
{
    if lines.len() == 0 {
        default_rules()
    } else {
        let before = rules_of(lines.drop_last());
        match rule_of(lines.last()) {
            Some(r) => before.push(r),
            None => before,
        }
    }
}

/// Whether a pattern speaks of a path.
pub open spec fn matches_pattern(pattern: Seq<char>, path: Seq<char>) -> bool {
    if pattern == path {
        true
    } else if text::has_suffix(pattern, "/**"@) {
        let prefix = pattern.take(pattern.len() - 3);
        path == prefix || text::has_prefix(path, prefix + "/"@)
    } else if text::has_suffix(pattern, "/*"@) {
        let prefix = pattern.take(pattern.len() - 2) + "/"@;
        text::has_prefix(path, prefix) && !path.skip(prefix.len() as int).contains('/')
    } else if text::has_prefix(pattern, "**/"@) {
        let suffix = pattern.skip(3);
        path == suffix || text::has_suffix(path, "/"@ + suffix)
    } else if text::has_prefix(pattern, "*"@) {
        text::has_suffix(path, pattern.skip(1))
    } else if text::has_suffix(pattern, "*"@) {
        text::has_prefix(path, pattern.take(pattern.len() - 1))
    } else {
        text::has_prefix(path, pattern + "/"@)
    }
}

/// Whether the rules leave a path out: the last rule that matches decides.
pub open spec fn left_out(rules: Seq<RuleView>, path: Seq<char>) -> bool
    decreases rules.len(),
{
    if rules.len() == 0 {
        false
    } else if matches_pattern(rules.last().pattern, path) {
        !rules.last().negate
    } else {
        left_out(rules.drop_last(), path)
    }
}

/// A path below the context as the patterns see it.
pub open spec fn pattern_path(rel: Seq<Seq<char>>) -> Seq<char> {
    text::forward_slashes(text::joined(rel, "/"@))
}

/// `s` without any `./` at its front.
fn trim_dot_slash(s: &str) -> (r: String)
    ensures
        r@ == without_dot_slash(s@),
{
    let v = text::chars_of(s);
    let mut i: usize = 0;
    assert(v@.skip(0) =~= v@);
    while i < v.len() && i + 1 < v.len() && v[i] == '.' && v[i + 1] == '/'
        invariant
            i <= v@.len(),
            v@ == s@,
            without_dot_slash(v@.skip(i as int)) == without_dot_slash(s@),
        decreases v@.len() - i,
    {
        assert(v@.skip(i as int).skip(2) =~= v@.skip(i + 2));
        i += 2;
    }
    assert(v@.skip(i as int) =~= v@.subrange(i as int, v@.len() as int));
    text::part(&v, i, v.len())
}

/// The rule that a line of a `.dockerignore` file states.
pub fn parse_rule(line: &str) -> (r: Option<IgnoreRule>)
    ensures
        match r {
            Some(x) => rule_of(line@) == Some(x@),
            None => rule_of(line@) is None,
        },
{
    let l = trim(line);
    if l.as_str().is_empty() || starts_with_char(l.as_str(), '#') {
        return None;
    }
    if starts_with_char(l.as_str(), '!') {
        let v = text::chars_of(l.as_str());
        let rest = text::part(&v, 1, v.len());
        assert(rest@ =~= l@.skip(1));
        let pattern = trim_dot_slash(trim(rest.as_str()).as_str());
        Some(IgnoreRule { pattern, negate: true })
    } else {
        Some(IgnoreRule { pattern: trim_dot_slash(l.as_str()), negate: false })
    }
}

/// The rules that hold in every context.
pub fn default_ignore() -> (r: Vec<IgnoreRule>)
    ensures
        rule_views(r@) == default_rules(),
{
    let r = vec![
        IgnoreRule { pattern: ".git".to_owned(), negate: false },
        IgnoreRule { pattern: ".git/**".to_owned(), negate: false },
    ];
    assert(rule_views(r@) =~= default_rules());
    r
}

/// The default rules, then those of a `.dockerignore` file.
pub fn parse_dockerignore(data: &str) -> (r: Vec<IgnoreRule>)
    ensures
        rule_views(r@) == rules_of(text::lines_of(data@)),
{
    let all = lines(data);
    let mut out = default_ignore();
    let ghost ls = all.deep_view();
    assert(ls.take(0) =~= Seq::<Seq<char>>::empty());
    for i in 0..all.len()
        invariant
            ls == all.deep_view(),
            rule_views(out@) == rules_of(ls.take(i as int)),
    {
        assert(ls.take(i + 1).drop_last() =~= ls.take(i as int));
        let ghost seen = rule_views(out@);
        match parse_rule(all[i].as_str()) {
            Some(r) => {
                out.push(r);
                assert(rule_views(out@) =~= seen.push(r@));
            },
            None => {},
        }
    }
    assert(ls.take(ls.len() as int) =~= ls);
    out
}

/// Whether a pattern speaks of a path.
pub fn match_pattern(pattern: &str, path: &str) -> (r: bool)
    ensures
        r == matches_pattern(pattern@, path@),
{
    proof {
        reveal_strlit("/**");
        reveal_strlit("/*");
        reveal_strlit("**/");
        reveal_strlit("*");
    }
    if same_text(pattern, path) {
        return true;
    }
    if let Some(prefix) = strip_suffix(pattern, "/**") {
        return same_text(path, prefix.as_str()) || starts_with(
            path,
            prefix.clone().concat("/").as_str(),
        );
    }
    if let Some(prefix) = strip_suffix(pattern, "/*") {
        return match strip_prefix(path, prefix.concat("/").as_str()) {
            Some(rest) => !contains_char(rest.as_str(), '/'),
            None => false,
        };
    }
    if let Some(suffix) = strip_prefix(pattern, "**/") {
        return same_text(path, suffix.as_str()) || ends_with(
            path,
            "/".to_owned().concat(suffix.as_str()).as_str(),
        );
    }
    if let Some(suffix) = strip_prefix(pattern, "*") {
        return ends_with(path, suffix.as_str());
    }
    if let Some(prefix) = strip_suffix(pattern, "*") {
        return starts_with(path, prefix.as_str());
    }
    starts_with(path, pattern.to_owned().concat("/").as_str())
}

/// How the entries of a directory are copied out of the context: what the rules
/// leave out is skipped, and so is everything that is neither directory nor
/// regular file. `rel` leads from the context to this directory.
pub open spec fn kept_ops(
    rules: Seq<RuleView>,
    entries: Seq<Entry>,
    rel: Seq<Seq<char>>,
) -> Seq<RelOp>
    decreases entries, 1int,
{
    if entries.len() == 0 {
        Seq::empty()
    } else {
        kept_ops(rules, entries.drop_last(), rel) + kept_one(rules, entries.last(), rel)
    }
}

/// How one entry is copied out of the context.
pub open spec fn kept_one(rules: Seq<RuleView>, e: Entry, rel: Seq<Seq<char>>) -> Seq<RelOp>
    decreases e, 0int,
{
    let path = rel.push(e.name@);
    if left_out(rules, pattern_path(path)) {
        Seq::empty()
    } else {
        match e.node {
            Node::Dir { entries } => fs::under(
                e.name@,
                seq![RelOp::MakeDir(Seq::empty())] + kept_ops(rules, entries@, path),
            ),
            Node::File { .. } => fs::under(e.name@, seq![RelOp::CopyFile(Seq::empty())]),
            _ => Seq::empty(),
        }
    }
}

/// The path that a context name stands for.
pub open spec fn context_path(root: PathView, rel: Seq<char>) -> PathView {
    let r = without_dot_slash(rel);
    if r == "."@ || r.len() == 0 {
        root
    } else {
        root.joined_with(r)
    }
}

/// The message for a name that leads out of the context.
pub open spec fn escapes(rel: Seq<char>) -> ErrorView {
    ErrorView::Other("path '"@ + without_dot_slash(rel) + "' escapes the build context"@)
}

/// The components that lead from the directory `base` to `path`, where it lies there.
pub open spec fn parts_below(path: PathView, base: PathView) -> Option<Seq<Seq<char>>> {
    if path.within(base) {
        Some(path.parts.skip(base.parts.len() as int))
    } else {
        None
    }
}

impl BuildContext {
    /// The rules of the context.
    pub open spec fn rules(&self) -> Seq<RuleView> {
        rule_views(self.ignore@)
    }

    /// Where a path lies in the context: the components that lead to it from the
    /// context's directory, by its name or with links resolved. There are none for a
    /// path outside the context.
    pub open spec fn place(&self, path: PathView) -> Option<Seq<Seq<char>>> {
        match parts_below(path, self.canon@) {
            Some(p) => Some(p),
            None => parts_below(path, self.dir@),
        }
    }

    /// The context at `root`, given whether that is a directory, its canonical path
    /// where it has one, and the text of its `.dockerignore` file, where it has one.
    pub fn open(
        root: HostPath,
        root_is_dir: bool,
        canon_root: Option<HostPath>,
        dockerignore: Option<String>,
    ) -> (r: Result<Self, Error>)
        ensures
            match r {
                Ok(c) => {
                    &&& root_is_dir
                    &&& c.dir == root
                    &&& c.canon@ == (match canon_root {
                        Some(p) => p@,
                        None => root@,
                    })
                    &&& c.rules() == (match dockerignore {
                        Some(t) => rules_of(text::lines_of(t@)),
                        None => default_rules(),
                    })
                },
                Err(e) => !root_is_dir && e@ == ErrorView::Other(
                    "build context is not a directory: "@ + root@.shown(),
                ),
            },
    {
        if !root_is_dir {
            return Err(
                Error::Other(
                    "build context is not a directory: ".to_owned().concat(root.to_text().as_str()),
                ),
            );
        }
        let ignore = match dockerignore {
            Some(t) => parse_dockerignore(t.as_str()),
            None => default_ignore(),
        };
        let canon = match canon_root {
            Some(p) => p,
            None => root.copy(),
        };
        Ok(BuildContext { dir: root, canon, ignore })
    }

    /// The directory of the context.
    pub fn root(&self) -> (r: &HostPath)
        ensures
            r@ == self.dir@,
    {
        &self.dir
    }

    /// The path that a context name stands for, before links are resolved.
    pub fn candidate(&self, rel: &str) -> (r: HostPath)
        ensures
            r@ == context_path(self.dir@, rel@),
    {
        let rel = trim_dot_slash(rel);
        if same_text(rel.as_str(), ".") || rel.as_str().is_empty() {
            self.dir.copy()
        } else {
            self.dir.join_text(rel.as_str())
        }
    }

    /// The path that a context name leads to. `canon_root` is the canonical path
    /// of the context, or the reason why there is none; `canon` is the same for
    /// [`Self::candidate`], where that exists. A path that exists has to lie in
    /// the canonical context; one that does not has to lie there by its name.
    pub fn resolve(
        &self,
        rel: &str,
        canon_root: Result<HostPath, String>,
        canon: Option<Result<HostPath, String>>,
    ) -> (r: Result<HostPath, Error>)
        ensures
            match canon_root {
                Err(e) => r matches Err(x) && x@ == ErrorView::Other("context: "@ + e@),
                Ok(base) => match canon {
                    Some(Err(e)) => r matches Err(x) && x@ == ErrorView::Other(
                        "context path '"@ + context_path(self.dir@, rel@).shown() + "': "@ + e@,
                    ),
                    Some(Ok(p)) => if p@.within(base@) {
                        r matches Ok(q) && q@ == p@
                    } else {
                        r matches Err(x) && x@ == escapes(rel@)
                    },
                    None => if context_path(self.dir@, rel@).within(self.dir@) {
                        r matches Ok(q) && q@ == context_path(self.dir@, rel@)
                    } else {
                        r matches Err(x) && x@ == escapes(rel@)
                    },
                },
            },
            // No path leads out of the context.
            r matches Ok(q) ==> match canon {
                Some(_) => canon_root matches Ok(base) && q@.within(base@),
                None => q@.within(self.dir@),
            },
            // What exists in the context is found.
            canon_root is Ok && (canon matches Some(Ok(p)) && p@.within(canon_root->Ok_0@))
                ==> r is Ok,
    {
        let path = self.candidate(rel);
        let name = trim_dot_slash(rel);
        let base = match canon_root {
            Err(e) => {
                return Err(Error::Other("context: ".to_owned().concat(e.as_str())));
            },
            Ok(b) => b,
        };
        let inside = match &canon {
            Some(Err(e)) => {
                return Err(
                    Error::Other(
                        "context path '".to_owned().concat(path.to_text().as_str()).concat(
                            "': ",
                        ).concat(e.as_str()),
                    ),
                );
            },
            Some(Ok(p)) => p.starts_with(&base),
            None => path.starts_with(&self.dir),
        };
        if !inside {
            return Err(
                Error::Other(
                    "path '".to_owned().concat(name.as_str()).concat(
                        "' escapes the build context",
                    ),
                ),
            );
        }
        match canon {
            Some(Ok(p)) => Ok(p),
            _ => Ok(path),
        }
    }

    /// Whether the rules leave out a path.
    fn is_left_out(&self, path: &str) -> (r: bool)
        ensures
            r == left_out(self.rules(), path@),
    {
        let mut ignored = false;
        let ghost all = self.rules();
        assert(all.take(0) =~= Seq::<RuleView>::empty());
        for i in 0..self.ignore.len()
            invariant
                all == self.rules(),
                ignored == left_out(all.take(i as int), path@),
        {
            assert(all.take(i + 1).drop_last() =~= all.take(i as int));
            assert(all[i as int] == self.ignore@[i as int]@);
            if match_pattern(self.ignore[i].pattern.as_str(), path) {
                ignored = !self.ignore[i].negate;
            }
        }
        assert(all.take(all.len() as int) =~= all);
        ignored
    }

    /// Whether the rules leave out a path.
    pub fn is_ignored(&self, rel: &HostPath) -> (r: bool)
        ensures
            r == left_out(self.rules(), text::forward_slashes(rel@.shown())),
    {
        self.is_left_out(to_forward_slashes(rel.to_text().as_str()).as_str())
    }

    /// Plan how one entry of the copied directory is copied.
    fn copy_entry(&self, e: &Entry, rel: &Vec<String>, src: &HostPath, dest: &HostPath) -> (r: Vec<
        Step,
    >)
        ensures
            fs::step_views(r@) == fs::placed(
                kept_one(self.rules(), *e, rel.deep_view()),
                src@,
                dest@,
            ),
        decreases e, 0int,
    {
        let mut path = rel.clone();
        path.push(e.name.clone());
        assert(path.deep_view() =~= rel.deep_view().push(e.name@));
        if self.is_left_out(to_forward_slashes(join(&path, "/").as_str()).as_str()) {
            return no_steps();
        }
        let from = src.join(e.name.as_str());
        let to = dest.join(e.name.as_str());
        match &e.node {
            Node::Dir { entries } => {
                let mut out = no_steps();
                push_must(&mut out, FsOp::CreateDirAll(to.copy()));
                let inner = self.copy_dir(entries, &path, &from, &to);
                push_steps(&mut out, inner);
                proof {
                    let head = seq![RelOp::MakeDir(Seq::<Seq<char>>::empty())];
                    let ops = kept_ops(self.rules(), entries@, path.deep_view());
                    fs::lemma_placed_single(RelOp::MakeDir(Seq::empty()), from@, to@);
                    assert(fs::below(to@, Seq::empty()) =~= to@);
                    fs::lemma_placed_add(head, ops, from@, to@);
                    fs::lemma_placed_under(e.name@, head + ops, src@, dest@);
                    assert(fs::step_views(out@) =~= fs::placed(head + ops, from@, to@));
                }
                out
            },
            Node::File { .. } => {
                let mut out = no_steps();
                push_must(&mut out, FsOp::Copy(from.copy(), to.copy()));
                proof {
                    let one = seq![RelOp::CopyFile(Seq::<Seq<char>>::empty())];
                    fs::lemma_placed_single(RelOp::CopyFile(Seq::empty()), from@, to@);
                    assert(fs::below(to@, Seq::empty()) =~= to@);
                    assert(fs::below(from@, Seq::empty()) =~= from@);
                    fs::lemma_placed_under(e.name@, one, src@, dest@);
                    assert(fs::step_views(out@) =~= fs::placed(one, from@, to@));
                }
                out
            },
            _ => no_steps(),
        }
    }

    /// Plan how the entries of a directory are copied; `rel` leads from the context to
    /// this directory.
    pub fn copy_dir(
        &self,
        entries: &Vec<Entry>,
        rel: &Vec<String>,
        src: &HostPath,
        dest: &HostPath,
    ) -> (r: Vec<Step>)
        ensures
            fs::step_views(r@) == fs::placed(
                kept_ops(self.rules(), entries@, rel.deep_view()),
                src@,
                dest@,
            ),
        decreases entries, 1int,
    {
        let mut out = no_steps();
        let ghost rules = self.rules();
        let ghost at = rel.deep_view();
        assert(fs::step_views(out@) =~= fs::placed(
            kept_ops(rules, entries@.take(0), at),
            src@,
            dest@,
        ));
        for i in 0..entries.len()
            invariant
                rules == self.rules(),
                at == rel.deep_view(),
                fs::step_views(out@) == fs::placed(
                    kept_ops(rules, entries@.take(i as int), at),
                    src@,
                    dest@,
                ),
            decreases entries.len() - i,
        {
            let steps = self.copy_entry(&entries[i], rel, src, dest);
            push_steps(&mut out, steps);
            proof {
                assert(entries@.take(i + 1).drop_last() =~= entries@.take(i as int));
                fs::lemma_placed_add(
                    kept_ops(rules, entries@.take(i as int), at),
                    kept_one(rules, entries@[i as int], at),
                    src@,
                    dest@,
                );
            }
        }
        assert(entries@.take(entries@.len() as int) =~= entries@);
        out
    }

    /// Where a path lies in the context.
    fn place_of(&self, path: &HostPath) -> (r: Option<Vec<String>>)
        ensures
            r.deep_view() == self.place(path@),
    {
        match path.parts_below(&self.canon) {
            Some(p) => Some(p),
            None => path.parts_below(&self.dir),
        }
    }

    /// Plan how `src` (file or directory, as `node` says) is copied to `dest`,
    /// honoring the rules where `src` lies in the context.
    pub fn copy_into(&self, node: &Node, src: &HostPath, dest: &HostPath) -> (r: Result<
        Vec<Step>,
        Error,
    >)
        ensures
            copied(r, copied_steps(self.rules(), self.place(src@), *node, src@, dest@)),
    {
        match self.place_of(src) {
            Some(rel) => self.copy_below(&rel, node, src, dest),
            None => copy_foreign(node, src, dest),
        }
    }

    /// Plan how what stands at `src`, to which `rel` leads from the directory that the
    /// rules speak of, is copied.
    fn copy_below(&self, rel: &Vec<String>, node: &Node, src: &HostPath, dest: &HostPath) -> (r:
        Result<Vec<Step>, Error>)
        ensures
            copied(
                r,
                copied_steps(self.rules(), Some(rel.deep_view()), *node, src@, dest@),
            ),
    {
        match node {
            Node::File { .. } => {
                let mut out = no_steps();
                if self.is_left_out(to_forward_slashes(join(rel, "/").as_str()).as_str()) {
                    return Ok(out);
                }
                match dest.parent() {
                    Some(p) => {
                        push_must(&mut out, FsOp::CreateDirAll(p));
                    },
                    None => {},
                }
                push_must(&mut out, FsOp::Copy(src.copy(), dest.copy()));
                assert(fs::step_views(out@) =~= (match dest@.parent() {
                    Some(p) => seq![
                        fs::must(FsOpView::CreateDirAll(p)),
                        fs::must(FsOpView::Copy(src@, dest@)),
                    ],
                    None => seq![fs::must(FsOpView::Copy(src@, dest@))],
                }));
                Ok(out)
            },
            Node::Dir { entries } => {
                let mut out = no_steps();
                push_must(&mut out, FsOp::CreateDirAll(dest.copy()));
                let inner = self.copy_dir(entries, rel, src, dest);
                push_steps(&mut out, inner);
                proof {
                    let head = seq![RelOp::MakeDir(Seq::<Seq<char>>::empty())];
                    let ops = kept_ops(self.rules(), entries@, rel.deep_view());
                    fs::lemma_placed_single(RelOp::MakeDir(Seq::empty()), src@, dest@);
                    assert(fs::below(dest@, Seq::empty()) =~= dest@);
                    fs::lemma_placed_add(head, ops, src@, dest@);
                    assert(fs::step_views(out@) =~= fs::placed(head + ops, src@, dest@));
                }
                Ok(out)
            },
            _ => Err(
                Error::Other(
                    "COPY source not found: ".to_owned().concat(src.to_text().as_str()),
                ),
            ),
        }
    }
}

/// Plan how `src` (file or directory, as `node` says) is copied to `dest` from outside
/// the build context: no rules apply.
pub fn copy_foreign(node: &Node, src: &HostPath, dest: &HostPath) -> (r: Result<Vec<Step>, Error>)
    ensures
        copied(r, copied_steps(Seq::empty(), None, *node, src@, dest@)),
{
    let none: Vec<String> = Vec::new();
    let open = BuildContext { dir: src.copy(), canon: src.copy(), ignore: Vec::new() };
    assert(none.deep_view() =~= Seq::<Seq<char>>::empty());
    assert(open.rules() =~= Seq::<RuleView>::empty());
    open.copy_below(&none, node, src, dest)
}

/// Whether `r` is the plan, or the failure, that `expected` describes.
pub open spec fn copied(
    r: Result<Vec<Step>, Error>,
    expected: Result<Seq<StepView>, Seq<char>>,
) -> bool {
    match r {
        Ok(v) => expected == Ok::<Seq<StepView>, Seq<char>>(fs::step_views(v@)),
        Err(e) => expected matches Err(m) && e@ == ErrorView::Other(m),
    }
}

/// The message for a file that could not be copied.
pub open spec fn copy_message(src: PathView, dest: PathView, reason: Seq<char>) -> Seq<char> {
    "copy "@ + src.shown() + " -> "@ + dest.shown() + ": "@ + reason
}

/// How what stands at `src` is copied to `dest`: a file with the directory above it, a
/// directory with what it holds, both without what the rules leave out, and nothing
/// else. `place` leads from the context to `src`; without it no rules apply.
pub open spec fn copied_steps(
    rules: Seq<RuleView>,
    place: Option<Seq<Seq<char>>>,
    node: Node,
    src: PathView,
    dest: PathView,
) -> Result<Seq<StepView>, Seq<char>> {
    let (rules, rel) = match place {
        Some(p) => (rules, p),
        None => (Seq::empty(), Seq::empty()),
    };
    match node {
        Node::File { .. } => Ok(
            if left_out(rules, pattern_path(rel)) {
                Seq::empty()
            } else {
                match dest.parent() {
                    Some(p) => seq![
                        fs::must(FsOpView::CreateDirAll(p)),
                        fs::must(FsOpView::Copy(src, dest)),
                    ],
                    None => seq![fs::must(FsOpView::Copy(src, dest))],
                }
            },
        ),
        Node::Dir { entries } => Ok(
            fs::placed(
                seq![RelOp::MakeDir(Seq::empty())] + kept_ops(rules, entries@, rel),
                src,
                dest,
            ),
        ),
        _ => Err("COPY source not found: "@ + src.shown()),
    }
}

/// The failure to copy one file out of the context.
pub fn copy_failed(src: &HostPath, dest: &HostPath, reason: &str) -> (r: Error)
    ensures
        r@ == ErrorView::Other(copy_message(src@, dest@, reason@)),
{
    Error::Other(
        "copy ".to_owned().concat(src.to_text().as_str()).concat(" -> ").concat(
            dest.to_text().as_str(),
        ).concat(": ").concat(reason),
    )
}

/// No path on the way from `rel` along `p` is left out.
pub open spec fn way_is_kept(
    rules: Seq<RuleView>,
    rel: Seq<Seq<char>>,
    p: Seq<Seq<char>>,
) -> bool {
    forall|n: int|
        0 < n <= p.len() ==> !left_out(rules, pattern_path(rel + #[trigger] p.take(n)))
}

/// What the rules leave out is not copied, nor is anything below it: no path on
/// the way to a copied file is left out. The rules see each path from the context, to
/// whose directory `rel` the entries belong.
pub proof fn left_out_is_not_copied(rules: Seq<RuleView>, entries: Seq<Entry>, rel: Seq<Seq<char>>)
    ensures
        forall|i: int|
            0 <= i < kept_ops(rules, entries, rel).len() ==> (#[trigger] kept_ops(
                rules,
                entries,
                rel,
            )[i] matches RelOp::CopyFile(p) ==> way_is_kept(rules, rel, p)),
    decreases entries, 1int,
{
    let all = kept_ops(rules, entries, rel);
    if entries.len() > 0 {
        let before = kept_ops(rules, entries.drop_last(), rel);
        let e = entries.last();
        let one = kept_one(rules, e, rel);
        left_out_is_not_copied(rules, entries.drop_last(), rel);
        lemma_kept_one(rules, e, rel);
        assert forall|i: int| 0 <= i < all.len() implies (
        #[trigger] all[i] matches RelOp::CopyFile(p) ==> way_is_kept(rules, rel, p)) by {
            if i < before.len() {
                assert(all[i] == before[i]);
            } else {
                assert(all[i] == one[i - before.len()]);
            }
        }
    }
}

proof fn lemma_kept_one(rules: Seq<RuleView>, e: Entry, rel: Seq<Seq<char>>)
    ensures
        forall|i: int|
            0 <= i < kept_one(rules, e, rel).len() ==> (#[trigger] kept_one(
                rules,
                e,
                rel,
            )[i] matches RelOp::CopyFile(p) ==> way_is_kept(rules, rel, p)),
    decreases e, 0int,
{
    let one = kept_one(rules, e, rel);
    let path = rel.push(e.name@);
    assert forall|i: int| 0 <= i < one.len() implies (
    #[trigger] one[i] matches RelOp::CopyFile(p) ==> way_is_kept(rules, rel, p)) by {
        match one[i] {
            RelOp::CopyFile(p) => {
                assert forall|n: int| 0 < n <= p.len() implies !left_out(
                    rules,
                    pattern_path(rel + #[trigger] p.take(n)),
                ) by {
                    match e.node {
                        Node::Dir { entries: inner } => {
                            left_out_is_not_copied(rules, inner@, path);
                            let ops = kept_ops(rules, inner@, path);
                            let down = seq![RelOp::MakeDir(Seq::<Seq<char>>::empty())] + ops;
                            assert(one[i] == fs::under_one(e.name@, down[i]));
                            assert(down[i] == ops[i - 1]);
                            let q = ops[i - 1]->CopyFile_0;
                            assert(way_is_kept(rules, path, q));
                            assert(p =~= seq![e.name@] + q);
                            if n == 1 {
                                assert(rel + p.take(1) =~= path);
                            } else {
                                assert(rel + p.take(n) =~= path + q.take(n - 1));
                            }
                        },
                        _ => {
                            assert(one[i] == fs::under_one(
                                e.name@,
                                RelOp::CopyFile(Seq::empty()),
                            ));
                            assert(p =~= seq![e.name@]);
                            assert(rel + p.take(n) =~= path);
                        },
                    }
                }
            },
            _ => {},
        }
    }
}

/// A copy among placed operations is the copy of a file among the operations.
proof fn lemma_placed_copy(ops: Seq<RelOp>, src: PathView, dest: PathView, i: int)
    requires
        0 <= i < fs::placed(ops, src, dest).len(),
        fs::placed(ops, src, dest)[i].op is Copy,
    ensures
        exists|j: int|
            0 <= j < ops.len() && (#[trigger] ops[j] matches RelOp::CopyFile(p)
                && fs::placed(ops, src, dest)[i].op->Copy_0 == fs::below(src, p)),
    decreases ops.len(),
{
    let rest = ops.drop_last();
    let before = fs::placed(rest, src, dest);
    if i < before.len() {
        lemma_placed_copy(rest, src, dest, i);
        let j = choose|j: int|
            0 <= j < rest.len() && (#[trigger] rest[j] matches RelOp::CopyFile(p)
                && before[i].op->Copy_0 == fs::below(src, p));
        assert(ops[j] == rest[j]);
    } else {
        assert(ops[ops.len() - 1] is CopyFile);
    }
}

/// Whether `from` is a file below `src`, to which `rel` leads from the context, and no
/// path on the way to it from there is left out.
pub open spec fn kept_file(
    rules: Seq<RuleView>,
    rel: Seq<Seq<char>>,
    src: PathView,
    from: PathView,
) -> bool {
    exists|p: Seq<Seq<char>>|
        from == #[trigger] fs::below(src, p) && way_is_kept(rules, rel, p)
}

/// What the rules leave out of a source in the context is not copied: a copied file is
/// the source itself, which is not left out, or lies below it with no path on the way
/// left out.
pub proof fn ignored_files_are_not_copied(
    rules: Seq<RuleView>,
    rel: Seq<Seq<char>>,
    node: Node,
    src: PathView,
    dest: PathView,
)
    ensures
        copied_steps(rules, Some(rel), node, src, dest) matches Ok(steps) ==> forall|i: int|
            0 <= i < steps.len() ==> ((#[trigger] steps[i]).op matches FsOpView::Copy(from, _)
                ==> if node is File {
                from == src && !left_out(rules, pattern_path(rel))
            } else {
                kept_file(rules, rel, src, from)
            }),
{
    match node {
        Node::Dir { entries } => {
            let kept = kept_ops(rules, entries@, rel);
            let ops = seq![RelOp::MakeDir(Seq::empty())] + kept;
            let steps = fs::placed(ops, src, dest);
            left_out_is_not_copied(rules, entries@, rel);
            assert forall|i: int| 0 <= i < steps.len() implies ((
            #[trigger] steps[i]).op matches FsOpView::Copy(from, _) ==> kept_file(
                rules,
                rel,
                src,
                from,
            )) by {
                if steps[i].op is Copy {
                    lemma_placed_copy(ops, src, dest, i);
                    let j = choose|j: int|
                        0 <= j < ops.len() && (#[trigger] ops[j] matches RelOp::CopyFile(p)
                            && steps[i].op->Copy_0 == fs::below(src, p));
                    assert(ops[j] == kept[j - 1]);
                    assert(way_is_kept(rules, rel, ops[j]->CopyFile_0));
                }
            }
        },
        _ => {},
    }
}

} // verus!
