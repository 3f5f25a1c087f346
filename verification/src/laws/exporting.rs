//! What an exported image says of itself.

use vstd::prelude::*;

use crate::config;
use crate::executor;
use crate::meta::MetaView;
use crate::platform::{self, PlatformView};
use crate::shown;
use crate::text;
use crate::vars;

verus! {

/// The config file names the architecture that the image was built for: that of the
/// platform itself where a config file has a name for it, and `arm64` for its other
/// name. The operating system is Linux.
pub proof fn exported_architecture_is_that_of_the_platform(
    meta: MetaView,
    platform: PlatformView,
    comment: Seq<char>,
)
    ensures
        ({
            let file = config::exported_file(meta, platform, comment);
            &&& platform.architecture == "arm64"@ || platform.architecture == "arm"@
                || platform.architecture == "amd64"@ ==> file.architecture
                == platform.architecture
            &&& platform.architecture == "aarch64"@ ==> file.architecture == "arm64"@
            &&& file.os == "linux"@
        }),
{
    reveal_strlit("arm64");
    reveal_strlit("aarch64");
    reveal_strlit("arm");
    reveal_strlit("amd64");
}

/// Images for two of these architectures have different config files, whatever else
/// they hold.
pub proof fn exported_architectures_are_told_apart(
    meta: MetaView,
    other: MetaView,
    a: PlatformView,
    b: PlatformView,
    comment: Seq<char>,
)
    requires
        a.architecture == "arm64"@ || a.architecture == "arm"@ || a.architecture == "amd64"@,
        b.architecture == "arm64"@ || b.architecture == "arm"@ || b.architecture == "amd64"@,
        config::exported_file(meta, a, comment) == config::exported_file(other, b, comment),
    ensures
        a.architecture == b.architecture,
{
    exported_architecture_is_that_of_the_platform(meta, a, comment);
    exported_architecture_is_that_of_the_platform(other, b, comment);
}

/// The config file holds the settings of the last stage: environment, working
/// directory, user, entry point, command, labels, ports and volumes are those of the
/// stage, and a list without elements is left out.
pub proof fn exported_settings_are_those_of_the_stage(
    meta: MetaView,
    platform: PlatformView,
    comment: Seq<char>,
    text: Seq<char>,
)
    ensures
        ({
            let file = config::exported_file(meta, platform, comment);
            let c = file.parameters.config;
            &&& c is Some
            &&& meta.env.len() > 0 ==> c->0.env == Some(meta.env)
            &&& meta.env.len() == 0 ==> c->0.env is None
            &&& c->0.working_dir == Some(meta.working_dir)
            &&& c->0.user == meta.user
            &&& meta.entrypoint is Some && meta.entrypoint->0.len() > 0 ==> c->0.entrypoint
                == meta.entrypoint
            &&& meta.entrypoint is None ==> c->0.entrypoint is None
            &&& meta.cmd is Some && meta.cmd->0.len() > 0 ==> c->0.cmd == meta.cmd
            &&& meta.cmd is None ==> c->0.cmd is None
            &&& meta.exposed_ports.len() > 0 ==> (file.exposed_ports matches Some(s) && (
            s.contains(text) <==> meta.exposed_ports.contains(text)))
            &&& meta.exposed_ports.len() == 0 ==> file.exposed_ports is None
            &&& meta.volumes.len() > 0 ==> (file.volumes matches Some(s) && (s.contains(text)
                <==> meta.volumes.contains(text)))
            &&& meta.volumes.len() == 0 ==> file.volumes is None
            &&& meta.labels.len() == 0 ==> c->0.labels is None
            &&& file.history matches Some(h) && h.len() == 1 && h[0].created_by == Some(comment)
            &&& file.diff_ids.len() == 1
        }),
{
}

/// A label of the last stage is a label of the exported image, with its value.
pub proof fn exported_labels_are_those_of_the_stage(
    meta: MetaView,
    platform: PlatformView,
    comment: Seq<char>,
    i: int,
)
    requires
        vars::distinct_keys(meta.labels),
        0 <= i < meta.labels.len(),
    ensures
        config::exported_file(meta, platform, comment).parameters.config->0.labels matches Some(l)
            && l.contains_key(meta.labels[i].0) && l[meta.labels[i].0] == meta.labels[i].1,
{
    lemma_lookup(meta.labels, i);
}

proof fn lemma_lookup(pairs: Seq<(Seq<char>, Seq<char>)>, i: int)
    requires
        vars::distinct_keys(pairs),
        0 <= i < pairs.len(),
    ensures
        vars::lookup(pairs, pairs[i].0) == Some(pairs[i].1),
        vars::map_of(pairs).contains_key(pairs[i].0),
        vars::map_of(pairs)[pairs[i].0] == pairs[i].1,
    decreases pairs.len(),
{
    vars::lemma_lookup_at(pairs, i);
}

/// A platform text of lower-case letters and digits behind `linux/` names Linux with
/// that architecture; with another system in front it is refused.
pub proof fn platform_texts_name_their_architecture(os: Seq<char>, arch: Seq<char>)
    requires
        os.len() > 0,
        arch.len() > 0,
        forall|i: int|
            0 <= i < os.len() ==> 'a' <= #[trigger] os[i] <= 'z' || '0' <= os[i] <= '9',
        forall|i: int|
            0 <= i < arch.len() ==> 'a' <= #[trigger] arch[i] <= 'z' || '0' <= arch[i] <= '9',
    ensures
        os == "linux"@ ==> platform::ascii_platform(os + seq!['/'] + arch) == Ok::<
            PlatformView,
            Seq<char>,
        >(PlatformView { os, architecture: arch }),
        os != "linux"@ ==> platform::ascii_platform(os + seq!['/'] + arch) is Err,
{
    let s = os + seq!['/'] + arch;
    let n = os.len() as int;
    assert(s[0] == os[0]);
    assert(s.last() == arch[arch.len() - 1]);
    text::lemma_trimmed_kept(s);
    assert forall|k: int| 0 <= k < n implies #[trigger] s[k] != '/' by {
        assert(s[k] == os[k]);
    }
    text::lemma_first_of(s, '/', n);
    assert(s.take(n) =~= os);
    assert(s.skip(n + 1) =~= arch);
    assert(text::lowered(os) =~= os) by {
        assert forall|i: int| 0 <= i < os.len() implies text::lowered(os)[i] == os[i] by {
            assert('a' <= os[i] <= 'z' || '0' <= os[i] <= '9');
        }
    }
    assert(text::lowered(arch) =~= arch) by {
        assert forall|i: int| 0 <= i < arch.len() implies text::lowered(arch)[i] == arch[i] by {
            assert('a' <= arch[i] <= 'z' || '0' <= arch[i] <= '9');
        }
    }
}

/// Case and surrounding blanks do not matter in a platform text.
pub proof fn platform_texts_ignore_case(spec: Seq<char>)
    requires
        shown::ascii(spec),
    ensures
        platform::ascii_platform(spec) is Ok ==> text::lowered(
            platform::ascii_platform(spec)->Ok_0.architecture,
        ) == platform::ascii_platform(spec)->Ok_0.architecture,
        platform::ascii_platform(spec) is Ok ==> platform::ascii_platform(spec)->Ok_0.os
            == "linux"@,
{
    match platform::platform_parts(text::trimmed(spec)) {
        Ok((os, arch)) => {
            assert(text::lowered(text::lowered(arch)) =~= text::lowered(arch));
        },
        Err(_) => {},
    }
}

/// A build is tagged with the names that were asked for, in their order, and with one
/// name of its own where none was.
pub proof fn builds_are_tagged_as_asked(tags: Seq<Seq<char>>)
    ensures
        tags.len() > 0 ==> executor::tags_or_default(tags) == tags,
        tags.len() == 0 ==> executor::tags_or_default(tags) == seq!["buildkit:latest"@],
{
}

/// A config that is stored keeps what it says; only lists and labels without elements
/// are left out.
pub proof fn stored_configs_say_the_same(f: config::FileView)
    ensures
        ({
            let g = config::compact_file(f);
            &&& g.architecture == f.architecture && g.os == f.os
            &&& g.diff_ids == f.diff_ids && g.rootfs_type == f.rootfs_type
            &&& g.created == f.created && g.author == f.author
            &&& g.parameters.os == f.parameters.os
            &&& g.parameters.config is Some <==> f.parameters.config is Some
            &&& f.parameters.config is Some ==> {
                let c = f.parameters.config->0;
                let d = g.parameters.config->0;
                &&& d.working_dir == c.working_dir && d.user == c.user
                &&& c.env is Some && c.env->0.len() > 0 ==> d.env == c.env
                &&& c.cmd is Some && c.cmd->0.len() > 0 ==> d.cmd == c.cmd
                &&& c.entrypoint is Some && c.entrypoint->0.len() > 0 ==> d.entrypoint
                    == c.entrypoint
                &&& forall|key: Seq<char>|
                    c.labels is Some && #[trigger] c.labels->0.contains_key(key) ==> d.labels
                        == c.labels
            }
            &&& forall|port: Seq<char>|
                f.exposed_ports is Some && #[trigger] f.exposed_ports->0.contains(port)
                    ==> g.exposed_ports == f.exposed_ports
            &&& forall|path: Seq<char>|
                f.volumes is Some && #[trigger] f.volumes->0.contains(path) ==> g.volumes
                    == f.volumes
        }),
{
}

} // verus!
