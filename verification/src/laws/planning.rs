//! Which stages a build runs, and with what.

use vstd::prelude::*;

use crate::backend::{self, NetworkMode};
use crate::config::BaseConfig;
use crate::dockerfile::{ArgDecl, Stage};
use crate::executor;
use crate::expand;
use crate::laws::variables;
use crate::meta;
use crate::platform::{self, PlatformView};
use crate::text;

verus! {

/// Whether a stage has a name.
pub open spec fn is_called(stage: Stage, name: Seq<char>) -> bool {
    stage.name matches Some(n) && n@ == name
}

/// The first stage with a name is the one that the name means.
proof fn lemma_stage_named(stages: Seq<Stage>, name: Seq<char>, k: int)
    requires
        0 <= k <= stages.len(),
        forall|i: int| 0 <= i < k ==> !is_called(#[trigger] stages[i], name),
        k < stages.len() ==> is_called(stages[k], name),
    ensures
        executor::stage_named(stages, name) == k,
    decreases stages.len(),
{
    if k > 0 {
        assert(!is_called(stages[0], name));
        let rest = stages.skip(1);
        assert forall|i: int| 0 <= i < k - 1 implies !is_called(#[trigger] rest[i], name) by {
            assert(!is_called(stages[i + 1], name));
        }
        lemma_stage_named(rest, name, k - 1);
    }
}

/// A build ends with the stage that its target means: without a target the last one,
/// a number means the stage with that number, a name the first stage called so, and
/// what means no stage is refused.
pub proof fn targets_mean_stages(stages: Seq<Stage>, name: Seq<char>, k: int)
    requires
        0 <= k <= stages.len(),
        stages.len() <= usize::MAX,
        forall|i: int| 0 <= i < k ==> !is_called(#[trigger] stages[i], name),
        k < stages.len() ==> is_called(stages[k], name),
        name.len() > 0,
        !('0' <= name.last() <= '9'),
    ensures
        stages.len() > 0 ==> executor::stage_index(stages, None) == Ok::<int, Seq<char>>(
            stages.len() - 1,
        ),
        k < stages.len() ==> executor::stage_index(stages, Some(name)) == Ok::<int, Seq<char>>(k),
        k == stages.len() ==> executor::stage_index(stages, Some(name)) is Err,
        k < stages.len() ==> executor::stage_index(stages, Some(text::decimal(k as nat))) == Ok::<
            int,
            Seq<char>,
        >(k),
        stages.len() == 0 ==> executor::plan_error(stages, None) is Some,
        stages.len() > 0 ==> executor::plan_error(stages, None) is None,
{
    lemma_stage_named(stages, name, k);
    let d = if name[0] == '+' {
        name.skip(1)
    } else {
        name
    };
    assert(text::parsed_usize(name) is None) by {
        if d.len() > 0 && text::all_digits(d) {
            assert('0' <= d[d.len() - 1] <= '9');
            assert(d[d.len() - 1] == name.last());
        }
    }
    variables::decimal_texts_read_back(k as nat);
}

/// A stage is built for its own platform where it names one, else for that of the
/// build.
pub proof fn stages_have_their_platform(stage: Stage, default: PlatformView)
    ensures
        stage.platform is None ==> executor::platform_of(stage, default) == Ok::<
            PlatformView,
            Seq<char>,
        >(default),
        stage.platform matches Some(s) ==> executor::platform_of(stage, default)
            == platform::parsed_platform(s@),
        platform::default_platform(true).architecture == "arm64"@,
        platform::default_platform(false).architecture == "amd64"@,
        platform::default_platform(true).os == "linux"@,
        platform::default_platform(false).os == "linux"@,
{
}

/// The empty image is meant by `scratch` in any case, and by nothing else.
pub proof fn scratch_is_the_empty_image(base: Seq<char>)
    ensures
        executor::names_scratch(base) <==> {
            &&& base.len() == 7
            &&& base[0] == 's' || base[0] == 'S'
            &&& base[1] == 'c' || base[1] == 'C'
            &&& base[2] == 'r' || base[2] == 'R'
            &&& base[3] == 'a' || base[3] == 'A'
            &&& base[4] == 't' || base[4] == 'T'
            &&& base[5] == 'c' || base[5] == 'C'
            &&& base[6] == 'h' || base[6] == 'H'
        },
{
    reveal_strlit("scratch");
    let low = text::lowered(base);
    assert(low.len() == base.len());
    assert("scratch"@.len() == 7);
    if base.len() == 7 {
        assert(low[0] == text::ascii_lower(base[0]));
        lemma_lower(base[0], 's', 'S');
        assert(low[1] == text::ascii_lower(base[1]));
        lemma_lower(base[1], 'c', 'C');
        assert(low[2] == text::ascii_lower(base[2]));
        lemma_lower(base[2], 'r', 'R');
        assert(low[3] == text::ascii_lower(base[3]));
        lemma_lower(base[3], 'a', 'A');
        assert(low[4] == text::ascii_lower(base[4]));
        lemma_lower(base[4], 't', 'T');
        assert(low[5] == text::ascii_lower(base[5]));
        lemma_lower(base[5], 'c', 'C');
        assert(low[6] == text::ascii_lower(base[6]));
        lemma_lower(base[6], 'h', 'H');
        if executor::names_scratch(base) {
            assert(low[0] == 's' && low[1] == 'c' && low[2] == 'r' && low[3] == 'a' && low[4] == 't'
                && low[5] == 'c' && low[6] == 'h');
        }
        if low[0] == 's' && low[1] == 'c' && low[2] == 'r' && low[3] == 'a' && low[4] == 't'
            && low[5] == 'c' && low[6] == 'h' {
            assert(low =~= "scratch"@);
        }
    }
}

proof fn lemma_lower(c: char, low: char, up: char)
    requires
        'a' <= low <= 'z',
        up as u32 + 32 == low as u32,
    ensures
        text::ascii_lower(c) == low <==> c == low || c == up,
{
}

/// A build argument of the command line counts whatever the Dockerfile declares.
pub proof fn command_line_arguments_count(
    decls: Seq<ArgDecl>,
    cli: Map<Seq<char>, Seq<char>>,
    key: Seq<char>,
)
    requires
        cli.contains_key(key),
    ensures
        executor::globals(decls, cli).contains_key(key),
        executor::globals(decls, cli)[key] == cli[key],
{
    lemma_declared(decls, cli, key);
}

proof fn lemma_declared(decls: Seq<ArgDecl>, cli: Map<Seq<char>, Seq<char>>, key: Seq<char>)
    ensures
        cli.contains_key(key) && executor::declared_globals(decls, cli).contains_key(key)
            ==> executor::declared_globals(decls, cli)[key] == cli[key],
        (forall|i: int| 0 <= i < decls.len() ==> (#[trigger] decls[i]).name@ != key)
            ==> !executor::declared_globals(decls, cli).contains_key(key),
    decreases decls.len(),
{
    if decls.len() > 0 {
        let rest = decls.drop_last();
        lemma_declared(rest, cli, key);
        if forall|i: int| 0 <= i < decls.len() ==> (#[trigger] decls[i]).name@ != key {
            assert forall|i: int| 0 <= i < rest.len() implies (#[trigger] rest[i]).name@ != key by {
                assert(rest[i] == decls[i]);
            }
            assert(decls[decls.len() - 1].name@ != key);
        }
    }
}

/// An argument that is not given on the command line has its default, in which the
/// arguments declared before it are replaced; one that is neither given nor declared,
/// or declared without a default, gets no value.
pub proof fn declared_arguments_have_their_default(
    decls: Seq<ArgDecl>,
    d: ArgDecl,
    cli: Map<Seq<char>, Seq<char>>,
    key: Seq<char>,
)
    requires
        !cli.contains_key(d.name@),
        !cli.contains_key(key),
    ensures
        d.default matches Some(v) ==> {
            &&& executor::globals(decls.push(d), cli).contains_key(d.name@)
            &&& executor::globals(decls.push(d), cli)[d.name@] == expand::expanded(
                v@,
                executor::declared_globals(decls, cli),
            )
        },
        d.default is None ==> executor::globals(decls.push(d), cli) == executor::globals(
            decls,
            cli,
        ),
        key != d.name@ ==> (executor::globals(decls.push(d), cli).contains_key(key)
            <==> executor::globals(decls, cli).contains_key(key)),
        key != d.name@ && executor::globals(decls, cli).contains_key(key) ==> executor::globals(
            decls.push(d),
            cli,
        )[key] == executor::globals(decls, cli)[key],
        (forall|i: int| 0 <= i < decls.len() ==> (#[trigger] decls[i]).name@ != key)
            ==> !executor::globals(decls, cli).contains_key(key),
{
    assert(decls.push(d).drop_last() =~= decls);
    lemma_declared(decls, cli, key);
}

/// A stage takes over what its base image says: environment, working directory, user,
/// entry point, command and labels. Without an environment it has one with a path to
/// programs, and without a working directory it starts at the root.
pub proof fn stages_start_as_their_base_says(c: BaseConfig)
    ensures
        ({
            let m = executor::base_meta(Some(c));
            &&& c.env matches Some(e) ==> m.env == e.deep_view()
            &&& c.env is None ==> m.env.len() == 1 && seq!['P', 'A', 'T', 'H', '='].is_prefix_of(
                m.env[0],
            )
            &&& c.working_dir is Some && c.working_dir->0@.len() > 0 ==> m.working_dir
                == c.working_dir->0@
            &&& c.working_dir is None ==> m.working_dir == seq!['/']
            &&& c.user matches Some(u) ==> m.user == Some(u@)
            &&& c.user is None ==> m.user is None
            &&& c.entrypoint matches Some(e) ==> m.entrypoint == Some(e.deep_view())
            &&& c.entrypoint is None ==> m.entrypoint is None
            &&& c.cmd matches Some(e) ==> m.cmd == Some(e.deep_view())
            &&& c.cmd is None ==> m.cmd is None
            &&& c.labels matches Some(l) ==> m.labels == l.pairs()
            &&& c.labels is None ==> m.labels.len() == 0
            &&& m.exposed_ports.len() == 0
            &&& m.volumes.len() == 0
            &&& m.shell == seq!["/bin/sh"@, "-c"@]
            &&& executor::base_meta(None) == meta::default_meta()
        }),
{
    reveal_strlit("/");
    reveal_strlit("PATH=/usr/local/sbin:/usr/local/bin:/usr/sbin:/usr/bin:/sbin:/bin");
    assert("/"@ =~= seq!['/']);
    let p = meta::default_path();
    assert(seq!['P', 'A', 'T', 'H', '='] =~= p.subrange(0, 5));
}

/// A network name means its mode whatever the case and the blanks around it; the names
/// of two modes are different.
pub proof fn network_names_mean_their_mode(front: Seq<char>, name: Seq<char>, back: Seq<char>)
    requires
        forall|i: int| 0 <= i < front.len() ==> variables::blank(#[trigger] front[i]),
        forall|i: int| 0 <= i < back.len() ==> variables::blank(#[trigger] back[i]),
        name.len() > 0,
        '!' <= name[0] <= '~',
        '!' <= name.last() <= '~',
    ensures
        text::lowered(name) == "none"@ ==> backend::network_named(front + name + back) == Some(
            NetworkMode::Disabled,
        ),
        text::lowered(name) == "host"@ ==> backend::network_named(front + name + back) == Some(
            NetworkMode::Host,
        ),
        text::lowered(name) == "bridge"@ || text::lowered(name) == "default"@
            ==> backend::network_named(front + name + back) == Some(NetworkMode::Bridge),
        text::lowered(name) != "none"@ && text::lowered(name) != "host"@ && text::lowered(name)
            != "bridge"@ && text::lowered(name) != "default"@ ==> backend::network_named(
            front + name + back,
        ) is None,
{
    variables::blanks_around_a_text_go(front, name, back);
    reveal_strlit("none");
    reveal_strlit("host");
    reveal_strlit("bridge");
    reveal_strlit("default");
    assert("none"@[0] == 'n' && "host"@[0] == 'h' && "bridge"@[0] == 'b' && "default"@[0] == 'd');
}

} // verus!
