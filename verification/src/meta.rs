//! Image config state accumulated while building a stage.

use vstd::prelude::*;

use crate::text::{self, split_once, starts_with};
use crate::vars::Vars;

verus! {

/// Image config state accumulated while building a stage.
///
/// Written into the OCI image config on export (`ENV`, `CMD`, `ENTRYPOINT`, ...).
#[derive(Debug, Clone)]
pub struct ImageMeta {
    /// `KEY=value` environment entries.
    pub env: Vec<String>,
    /// Guest working directory (`WORKDIR`).
    pub working_dir: String,
    /// `USER` spec, if set.
    pub user: Option<String>,
    /// `ENTRYPOINT` exec form, if set.
    pub entrypoint: Option<Vec<String>>,
    /// `CMD` exec form, if set.
    pub cmd: Option<Vec<String>>,
    /// Image labels.
    pub labels: Vars,
    /// `EXPOSE` ports.
    pub exposed_ports: Vec<String>,
    /// `VOLUME` paths.
    pub volumes: Vec<String>,
    /// Shell used to expand `RUN` shell form (from `SHELL`).
    pub shell: Vec<String>,
}

/// An [`ImageMeta`] with its texts as character sequences.
#[verifier::ext_equal]
pub struct MetaView {
    pub env: Seq<Seq<char>>,
    pub working_dir: Seq<char>,
    pub user: Option<Seq<char>>,
    pub entrypoint: Option<Seq<Seq<char>>>,
    pub cmd: Option<Seq<Seq<char>>>,
    pub labels: Seq<(Seq<char>, Seq<char>)>,
    pub exposed_ports: Seq<Seq<char>>,
    pub volumes: Seq<Seq<char>>,
    pub shell: Seq<Seq<char>>,
}

impl View for ImageMeta {
    type V = MetaView;

    open spec fn view(&self) -> MetaView {
        MetaView {
            env: self.env.deep_view(),
            working_dir: self.working_dir@,
            user: self.user.deep_view(),
            entrypoint: self.entrypoint.deep_view(),
            cmd: self.cmd.deep_view(),
            labels: self.labels.pairs(),
            exposed_ports: self.exposed_ports.deep_view(),
            volumes: self.volumes.deep_view(),
            shell: self.shell.deep_view(),
        }
    }
}

/// Where programs are looked for by default.
pub open spec fn default_path() -> Seq<char> {
    "PATH=/usr/local/sbin:/usr/local/bin:/usr/sbin:/usr/bin:/sbin:/bin"@
}

/// The shell before any `SHELL` instruction.
pub open spec fn default_shell_view() -> Seq<Seq<char>> {
    seq!["/bin/sh"@, "-c"@]
}

/// Metadata before any instruction.
pub open spec fn default_meta() -> MetaView {
    MetaView {
        env: seq![default_path()],
        working_dir: "/"@,
        user: None,
        entrypoint: None,
        cmd: None,
        labels: Seq::empty(),
        exposed_ports: Seq::empty(),
        volumes: Seq::empty(),
        shell: default_shell_view(),
    }
}

/// The entries that do not begin with `prefix`.
pub open spec fn without_prefix(env: Seq<Seq<char>>, prefix: Seq<char>) -> Seq<Seq<char>>
    decreases env.len(),
{
    if env.len() == 0 {
        Seq::empty()
    } else {
        let rest = without_prefix(env.drop_last(), prefix);
        if text::has_prefix(env.last(), prefix) {
            rest
        } else {
            rest.push(env.last())
        }
    }
}

/// `env` with `key` set to `value`: earlier entries for the key go, the new one
/// comes last.
pub open spec fn env_with(
    env: Seq<Seq<char>>,
    key: Seq<char>,
    value: Seq<char>,
) -> Seq<Seq<char>> {
    without_prefix(env, key + "="@).push(key + "="@ + value)
}

/// `vars` extended by the variables of `env`: a name that `vars` has keeps its
/// value, and the first entry for any other name decides.
pub open spec fn with_env(
    vars: Map<Seq<char>, Seq<char>>,
    env: Seq<Seq<char>>,
) -> Map<Seq<char>, Seq<char>>
    decreases env.len(),
{
    if env.len() == 0 {
        vars
    } else {
        let rest = with_env(vars, env.drop_last());
        match text::cut(env.last(), '=') {
            Some((k, v)) => if rest.contains_key(k) {
                rest
            } else {
                rest.insert(k, v)
            },
            None => rest,
        }
    }
}

/// `/bin/sh -c`.
pub fn default_shell() -> (r: Vec<String>)
    ensures
        r.deep_view() == default_shell_view(),
{
    let r = vec!["/bin/sh".to_owned(), "-c".to_owned()];
    assert(r.deep_view() =~= default_shell_view());
    r
}

/// A copy of an optional list of texts.
pub fn copy_list(list: &Option<Vec<String>>) -> (r: Option<Vec<String>>)
    ensures
        r.deep_view() == list.deep_view(),
{
    match list {
        Some(v) => Some(v.clone()),
        None => None,
    }
}

/// A copy of an optional text.
pub fn copy_text(t: &Option<String>) -> (r: Option<String>)
    ensures
        r.deep_view() == t.deep_view(),
{
    match t {
        Some(s) => Some(s.clone()),
        None => None,
    }
}

impl ImageMeta {
    /// Default metadata: `PATH` set, `WORKDIR /`, shell `/bin/sh -c`.
    pub fn new() -> (r: Self)
        ensures
            r@ == default_meta(),
    {
        let env = vec![
            "PATH=/usr/local/sbin:/usr/local/bin:/usr/sbin:/usr/bin:/sbin:/bin".to_owned(),
        ];
        assert(env.deep_view() =~= seq![default_path()]);
        let none: Vec<String> = Vec::new();
        assert(none.deep_view() =~= Seq::<Seq<char>>::empty());
        let r = ImageMeta {
            env,
            working_dir: "/".to_owned(),
            user: None,
            entrypoint: None,
            cmd: None,
            labels: Vars::new(),
            exposed_ports: none.clone(),
            volumes: none,
            shell: default_shell(),
        };
        assert(r@ =~= default_meta());
        r
    }

    /// A copy of the metadata.
    pub fn copy(&self) -> (r: Self)
        ensures
            r@ == self@,
    {
        ImageMeta {
            env: self.env.clone(),
            working_dir: self.working_dir.clone(),
            user: copy_text(&self.user),
            entrypoint: copy_list(&self.entrypoint),
            cmd: copy_list(&self.cmd),
            labels: self.labels.copy(),
            exposed_ports: self.exposed_ports.clone(),
            volumes: self.volumes.clone(),
            shell: self.shell.clone(),
        }
    }

    /// Set or replace an environment variable.
    pub fn set_env(&mut self, key: &str, value: &str)
        ensures
            final(self)@ == (MetaView { env: env_with(old(self)@.env, key@, value@), ..old(self)@ }),
    {
        let prefix = key.to_owned().concat("=");
        let ghost all = self.env.deep_view();
        let mut kept: Vec<String> = Vec::new();
        assert(kept.deep_view() =~= without_prefix(all.take(0), prefix@));
        for i in 0..self.env.len()
            invariant
                all == self.env.deep_view(),
                kept.deep_view() == without_prefix(all.take(i as int), prefix@),
        {
            let ghost seen = kept.deep_view();
            assert(all.take(i + 1).drop_last() =~= all.take(i as int));
            if !starts_with(self.env[i].as_str(), prefix.as_str()) {
                kept.push(self.env[i].clone());
                assert(kept.deep_view() =~= seen.push(all[i as int]));
            }
        }
        assert(all.take(all.len() as int) =~= all);
        let ghost seen = kept.deep_view();
        let entry = prefix.concat(value);
        kept.push(entry);
        assert(kept.deep_view() =~= seen.push(entry@));
        self.env = kept;
    }
}

/// The variables that an instruction sees: build arguments first, then the
/// image environment.
pub fn merged_vars(meta: &ImageMeta, args: &Vars) -> (r: Vars)
    ensures
        r@ == with_env(args@, meta@.env),
{
    let mut vars = args.copy();
    let ghost all = meta.env.deep_view();
    assert(all.take(0) =~= Seq::<Seq<char>>::empty());
    for i in 0..meta.env.len()
        invariant
            all == meta.env.deep_view(),
            vars@ == with_env(args@, all.take(i as int)),
    {
        assert(all.take(i + 1).drop_last() =~= all.take(i as int));
        match split_once(meta.env[i].as_str(), '=') {
            Some((k, v)) => {
                if !vars.contains_key(k.as_str()) {
                    vars.insert(k, v);
                }
            },
            None => {},
        }
    }
    assert(all.take(all.len() as int) =~= all);
    vars
}

/// A build argument hides the environment variable of the same name.
pub proof fn arguments_hide_environment(
    args: Map<Seq<char>, Seq<char>>,
    env: Seq<Seq<char>>,
    key: Seq<char>,
)
    requires
        args.contains_key(key),
    ensures
        with_env(args, env).contains_key(key),
        with_env(args, env)[key] == args[key],
    decreases env.len(),
{
    if env.len() > 0 {
        arguments_hide_environment(args, env.drop_last(), key);
    }
}

/// No two entries of an environment set the same variable.
pub open spec fn distinct_names(env: Seq<Seq<char>>) -> bool {
    forall|i: int, j: int|
        0 <= i < j < env.len() ==> match (
            text::cut(#[trigger] env[i], '='),
            text::cut(#[trigger] env[j], '='),
        ) {
            (Some(a), Some(b)) => a.0 != b.0,
            _ => true,
        }
}

/// Whether an entry of the environment sets `key` to `value`.
pub open spec fn sets(env: Seq<Seq<char>>, key: Seq<char>, value: Seq<char>) -> bool {
    exists|i: int| 0 <= i < env.len() && text::cut(#[trigger] env[i], '=') == Some((key, value))
}

/// Where no variable is set twice, an entry decides the variable that it names, unless
/// a build argument hides it.
proof fn lemma_with_env_at(args: Map<Seq<char>, Seq<char>>, env: Seq<Seq<char>>, key: Seq<char>)
    requires
        distinct_names(env),
        !args.contains_key(key),
    ensures
        with_env(args, env).contains_key(key) <==> exists|v: Seq<char>| #[trigger]
            sets(env, key, v),
        with_env(args, env).contains_key(key) ==> sets(env, key, with_env(args, env)[key]),
        forall|v: Seq<char>| #[trigger] sets(env, key, v) ==> with_env(args, env)[key] == v,
    decreases env.len(),
{
    if env.len() > 0 {
        let rest = env.drop_last();
        let last = env.len() - 1;
        assert forall|i: int, j: int| 0 <= i < j < rest.len() implies match (
            text::cut(#[trigger] rest[i], '='),
            text::cut(#[trigger] rest[j], '='),
        ) {
            (Some(a), Some(b)) => a.0 != b.0,
            _ => true,
        } by {
            assert(rest[i] == env[i] && rest[j] == env[j]);
        }
        lemma_with_env_at(args, rest, key);
        assert forall|v: Seq<char>| #[trigger] sets(env, key, v) == (sets(rest, key, v)
            || text::cut(env[last], '=') == Some((key, v))) by {
            if sets(rest, key, v) {
                let i = choose|i: int|
                    0 <= i < rest.len() && text::cut(#[trigger] rest[i], '=') == Some((key, v));
                assert(env[i] == rest[i]);
            }
            if sets(env, key, v) {
                let i = choose|i: int|
                    0 <= i < env.len() && text::cut(#[trigger] env[i], '=') == Some((key, v));
                if i < last {
                    assert(rest[i] == env[i]);
                }
            }
        }
        assert forall|v: Seq<char>| #[trigger] sets(rest, key, v) implies !(text::cut(
            env[last],
            '=',
        ) matches Some((k, _)) && k == key) by {
            let i = choose|i: int|
                0 <= i < rest.len() && text::cut(#[trigger] rest[i], '=') == Some((key, v));
            assert(env[i] == rest[i]);
        }
        match text::cut(env[last], '=') {
            Some((k, v)) => {
                if k == key {
                    assert(sets(env, key, v));
                }
            },
            None => {},
        }
        let before = with_env(args, rest);
        if before.contains_key(key) {
            assert(sets(env, key, before[key]));
        }
    } else {
        assert(forall|v: Seq<char>| !#[trigger] sets(env, key, v));
    }
}

/// The order of an environment in which no variable is set twice does not matter.
pub proof fn environment_order_does_not_matter(
    args: Map<Seq<char>, Seq<char>>,
    a: Seq<Seq<char>>,
    b: Seq<Seq<char>>,
)
    requires
        distinct_names(a),
        distinct_names(b),
        a.to_multiset() == b.to_multiset(),
    ensures
        with_env(args, a) == with_env(args, b),
{
    let x = with_env(args, a);
    let y = with_env(args, b);
    assert forall|key: Seq<char>|
        #![trigger x.contains_key(key)]
        x.contains_key(key) == y.contains_key(key) && (x.contains_key(key) ==> x[key] == y[key]) by {
        if args.contains_key(key) {
            arguments_hide_environment(args, a, key);
            arguments_hide_environment(args, b, key);
        } else {
            lemma_with_env_at(args, a, key);
            lemma_with_env_at(args, b, key);
            assert forall|v: Seq<char>| #[trigger] sets(a, key, v) == sets(b, key, v) by {
                if sets(a, key, v) {
                    let i = choose|i: int|
                        0 <= i < a.len() && text::cut(#[trigger] a[i], '=') == Some((key, v));
                    vstd::seq_lib::to_multiset_contains(a, a[i]);
                    vstd::seq_lib::to_multiset_contains(b, a[i]);
                    assert(a.contains(a[i]));
                    let j = choose|j: int| 0 <= j < b.len() && b[j] == a[i];
                    assert(text::cut(b[j], '=') == Some((key, v)));
                }
                if sets(b, key, v) {
                    let i = choose|i: int|
                        0 <= i < b.len() && text::cut(#[trigger] b[i], '=') == Some((key, v));
                    vstd::seq_lib::to_multiset_contains(a, b[i]);
                    vstd::seq_lib::to_multiset_contains(b, b[i]);
                    assert(b.contains(b[i]));
                    let j = choose|j: int| 0 <= j < a.len() && a[j] == b[i];
                    assert(text::cut(a[j], '=') == Some((key, v)));
                }
            }
            assert(sets(a, key, x[key]) == sets(b, key, x[key]));
            assert(sets(a, key, y[key]) == sets(b, key, y[key]));
        }
    }
    assert(x =~= y);
}

} // verus!
