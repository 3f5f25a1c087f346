//! What the runs over stages, links, layers and downloads ask for.

use std::time::Duration;

use vstd::prelude::*;
use vstd::utf8::*;

use crate::backend::{self, NetworkMode};
use crate::cache::SourceView;
use crate::config;
use crate::context::{self, BuildContext};
use crate::copying;
use crate::digest;
use crate::dockerfile::Instruction;
use crate::error::{Error, ErrorView};
use crate::executor::{self, BuildPlan, FromStep, LayerKey, RunView, StageRun};
use crate::expand;
use crate::export::{self, ExportLayer};
use crate::fs::{self, FsDirEntry, FsOpView, StepView};
use crate::laws::keys;
use crate::laws::paths;
use crate::laws::variables;
use crate::materialize::{self, Extraction, UnpackPhase};
use crate::path::PathView;
use crate::progress::{BuildProgress, ProgressEmitter, PullEventView};
use crate::pull::{self, Descriptor};
use crate::reference::{self, Reference, ReferenceView};
use crate::rootfs;
use crate::solve::{self, Phase, Solve, Task};
use crate::stage::{self, StateView, WorkView};
use crate::store;
use crate::text;
use crate::transfer;
use crate::tree::{Entry, Node};
use crate::unpack::{self, LinkFacts, LinkQueue, LinkView};
use crate::winpath::{self, Host};

verus! {

// ---------------------------------------------------------------------------
// Links of a root filesystem
// ---------------------------------------------------------------------------

/// Components lead down, however far up a path may go.
proof fn lemma_held(host: Host, base: Seq<Seq<char>>, pieces: Seq<Seq<char>>)
    requires
        forall|i: int|
            0 <= i < pieces.len() ==> (#[trigger] pieces[i]).len() == 0 || paths::component(
                pieces[i],
            ),
    ensures
        winpath::held(host, base, pieces) == winpath::reached(host, base, pieces),
        winpath::reached(host, base, pieces).len() >= base.len(),
    decreases pieces.len(),
{
    paths::lemma_dots();
    if pieces.len() > 0 {
        let rest = pieces.drop_last();
        assert forall|i: int| 0 <= i < rest.len() implies (#[trigger] rest[i]).len() == 0
            || paths::component(rest[i]) by {
            assert(rest[i] == pieces[i]);
        }
        lemma_held(host, base, rest);
        assert(pieces[pieces.len() - 1].len() == 0 || paths::component(pieces[pieces.len() - 1]));
    }
}

/// A link with an absolute target is made anew with a target that leads from its
/// directory to the same place below the root filesystem; any other link is left as it
/// is.
pub proof fn absolute_links_are_made_relative(
    host: Host,
    root: PathView,
    dir: PathView,
    name: Seq<char>,
    parts: Seq<Seq<char>>,
    target: Seq<u8>,
)
    requires
        paths::components(parts),
        parts.len() > 0,
    ensures
        target == encode_utf8(paths::rooted(parts)) ==> rootfs::rewritten_link(
            host,
            root,
            dir,
            name,
            target,
        ) == seq![
            fs::must(FsOpView::RemoveFile(dir.child(name))),
            fs::try_to(
                FsOpView::Symlink(
                    encode_utf8(
                        rootfs::relative_path(
                            dir,
                            PathView {
                                anchor: root.anchor,
                                parts: root.parts + parts.map_values(
                                    |c: Seq<char>| winpath::encoded(host, c),
                                ),
                            },
                        ).shown(),
                    ),
                    dir.child(name),
                ),
            ),
        ],
        target == encode_utf8(paths::slashed(parts)) ==> rootfs::rewritten_link(
            host,
            root,
            dir,
            name,
            target,
        ).len() == 0,
{
    let s = paths::slashed(parts);
    let t = paths::rooted(parts);
    let empty = Seq::<char>::empty();
    encode_utf8_valid_utf8(s);
    encode_utf8_decode_utf8(s);
    encode_utf8_valid_utf8(t);
    encode_utf8_decode_utf8(t);
    paths::lemma_slashed_pieces(parts);
    text::lemma_split_at_first(empty, '/', s);
    assert(empty + seq!['/'] + s =~= t);
    let all = seq![empty] + parts;
    assert(!t.contains('\\')) by {
        assert forall|i: int| 0 <= i < parts.len() implies !(#[trigger] parts[i]).contains(
            '\\',
        ) by {
            assert(paths::component(parts[i]));
        }
        paths::lemma_slashed_free(parts, '\\');
        if t.contains('\\') {
            let k = choose|k: int| 0 <= k < t.len() && t[k] == '\\';
            assert(k >= 1);
            assert(s[k - 1] == '\\');
        }
    }
    paths::lemma_no_backslash(t);
    assert(text::pieces(t, '/', '\\') == all);
    assert forall|i: int| 0 <= i < all.len() implies (#[trigger] all[i]).len() == 0
        || paths::component(all[i]) by {
        if i > 0 {
            assert(all[i] == parts[i - 1]);
        }
    }
    lemma_held(host, root.parts, all);
    lemma_through_empty(host, root.parts, parts);
    assert(winpath::inside(host, root, t).parts == root.parts + parts.map_values(
        |c: Seq<char>| winpath::encoded(host, c),
    ));
}

proof fn lemma_through_empty(host: Host, base: Seq<Seq<char>>, parts: Seq<Seq<char>>)
    requires
        paths::components(parts),
    ensures
        winpath::reached(host, base, seq![Seq::<char>::empty()] + parts) == base + parts.map_values(
            |c: Seq<char>| winpath::encoded(host, c),
        ),
    decreases parts.len(),
{
    paths::lemma_dots();
    let empty = Seq::<char>::empty();
    let one = seq![empty];
    let all = one + parts;
    let names = parts.map_values(|c: Seq<char>| winpath::encoded(host, c));
    if parts.len() == 0 {
        let none = Seq::<Seq<char>>::empty();
        assert(all =~= one);
        assert(one.drop_last() =~= none);
        assert(winpath::reached(host, base, none) == base);
        assert(base + names =~= base);
    } else {
        let rest = parts.drop_last();
        assert forall|i: int| 0 <= i < rest.len() implies paths::component(#[trigger] rest[i]) by {
            assert(rest[i] == parts[i]);
        }
        lemma_through_empty(host, base, rest);
        assert(all.drop_last() =~= one + rest);
        assert(all.last() == parts.last());
        assert(paths::component(parts[parts.len() - 1]));
        assert(base + names =~= (base + rest.map_values(
            |c: Seq<char>| winpath::encoded(host, c),
        )).push(winpath::encoded(host, parts.last())));
    }
}

/// Every link of a tree is looked at, in its own directory, however deep it lies.
pub proof fn links_are_rewritten_everywhere(
    host: Host,
    root: PathView,
    entries: Seq<Entry>,
    dir: PathView,
    i: int,
    s: StepView,
)
    requires
        0 <= i < entries.len(),
        match entries[i].node {
            Node::Link { target } => rootfs::rewritten_link(
                host,
                root,
                dir,
                entries[i].name@,
                target@,
            ).contains(s),
            Node::Dir { entries: inner } => rootfs::rewritten(
                host,
                root,
                inner@,
                dir.child(entries[i].name@),
            ).contains(s),
            _ => false,
        },
    ensures
        rootfs::rewritten(host, root, entries, dir).contains(s),
    decreases entries.len(),
{
    let rest = entries.drop_last();
    let before = rootfs::rewritten(host, root, rest, dir);
    let one = rootfs::rewritten_one(host, root, entries.last(), dir);
    let all = rootfs::rewritten(host, root, entries, dir);
    assert(all == before + one);
    if i < rest.len() {
        assert(rest[i] == entries[i]);
        links_are_rewritten_everywhere(host, root, rest, dir, i, s);
        let k = choose|k: int| 0 <= k < before.len() && before[k] == s;
        assert(all[k] == s);
    } else {
        assert(entries.last() == entries[i]);
        assert(one.contains(s));
        let k = choose|k: int| 0 <= k < one.len() && one[k] == s;
        assert(all[before.len() + k] == s);
    }
}

/// What holds the place of a link is an empty directory where the link leads to a
/// directory, and nothing else.
pub proof fn only_empty_directories_make_room(facts: LinkFacts)
    ensures
        unpack::placeholder(facts) <==> facts.dest_is_dir && facts.dest_is_empty
            && facts.target_is_dir,
{
}

/// Deferred links come up in their order; those to attempt again come up in their order
/// in a new round, of which there are eight.
pub proof fn deferred_links_come_up_in_order(q: LinkQueue)
    ensures
        q.ahead().len() > 0 ==> (q.upcoming() matches Some(x) && x.0 == q.ahead()[0] && x.1.0
            == q.ahead().skip(1) && x.1.1 == q.later@ && x.1.2 == q.round),
        q.ahead().len() == 0 && q.later@.len() > 0 && q.round < 7 ==> (q.upcoming() matches Some(x)
            && x.0 == q.later@[0] && x.1.0 == q.later@.skip(1) && x.1.1.len() == 0 && x.1.2
            == q.round + 1),
        q.ahead().len() == 0 && (q.later@.len() == 0 || q.round >= 7) ==> q.upcoming() is None,
{
}

/// Each remembered link is forgotten where it was remembered.
pub proof fn remembered_links_are_forgotten(links: Seq<LinkView>, i: int)
    requires
        0 <= i < links.len(),
        links[i].dest.parts.len() > 0,
    ensures
        unpack::forget_steps(links).len() == links.len(),
        unpack::forget_steps(links)[i] == fs::try_to(
            FsOpView::RemoveFile(
                PathView {
                    anchor: links[i].dest.anchor,
                    parts: links[i].dest.parts.drop_last().push(
                        links[i].dest.parts.last() + ".buildkit-symlink"@,
                    ),
                },
            ),
        ),
{
}

/// To empty a directory, the directories in it are removed with all they hold, and
/// everything else as a file; a link to a directory is a link.
pub proof fn links_are_removed_as_links(e: FsDirEntry)
    ensures
        e.is_symlink || !e.is_dir ==> fs::entry_removal(e) == fs::must(
            FsOpView::RemoveFile(e.path@),
        ),
        e.is_dir && !e.is_symlink ==> fs::entry_removal(e) == fs::must(
            FsOpView::RemoveDirAll(e.path@),
        ),
{
}

/// The names of a path on the host lead back to the Linux names that it was made of.
pub proof fn host_names_lead_back(host: Host, parts: Seq<Seq<char>>)
    requires
        paths::components(parts),
        forall|i: int|
            0 <= i < parts.len() ==> winpath::decoded(
                host,
                winpath::encoded(host, #[trigger] parts[i]),
            ) == parts[i],
        forall|i: int|
            0 <= i < parts.len() ==> winpath::encoded(host, #[trigger] parts[i]) != "."@
                && winpath::encoded(host, parts[i]) != ".."@,
    ensures
        winpath::guest_parts(host, parts.map_values(|c: Seq<char>| winpath::encoded(host, c)))
            == parts,
    decreases parts.len(),
{
    let names = parts.map_values(|c: Seq<char>| winpath::encoded(host, c));
    if parts.len() > 0 {
        let rest = parts.drop_last();
        assert forall|i: int| 0 <= i < rest.len() implies paths::component(#[trigger] rest[i]) by {
            assert(rest[i] == parts[i]);
        }
        assert forall|i: int| 0 <= i < rest.len() implies winpath::decoded(
            host,
            winpath::encoded(host, #[trigger] rest[i]),
        ) == rest[i] by {
            assert(rest[i] == parts[i]);
        }
        assert forall|i: int| 0 <= i < rest.len() implies winpath::encoded(
            host,
            #[trigger] rest[i],
        ) != "."@ && winpath::encoded(host, rest[i]) != ".."@ by {
            assert(rest[i] == parts[i]);
        }
        host_names_lead_back(host, rest);
        assert(names.drop_last() =~= rest.map_values(|c: Seq<char>| winpath::encoded(host, c)));
        assert(names.last() == winpath::encoded(host, parts[parts.len() - 1]));
        assert(rest.push(parts.last()) =~= parts);
    } else {
        assert(winpath::guest_parts(host, names) =~= parts);
    }
}

// ---------------------------------------------------------------------------
// Stages
// ---------------------------------------------------------------------------

/// A stage starts from the image that its `FROM` line names, with the global arguments
/// replaced, in a directory of its own, and counts that line among its steps. It is
/// shown by its name, or by its number where it has none.
pub proof fn stages_start_from_their_image(
    f: FromStep,
    plan: BuildPlan,
    idx: int,
    work: PathView,
    vertex: u32,
)
    requires
        0 <= idx < plan.stages@.len(),
        executor::from_step_is(f, plan, idx, work, vertex),
    ensures
        ({
            let stage = plan.stages@[idx];
            let base = expand::expanded(stage.image@, plan.global_args@);
            &&& f.base@ == base
            &&& f.total == stage.instructions@.len() + 1
            &&& f.dir@ == work.child("stage-"@ + text::decimal(idx as nat))
            &&& stage.name matches Some(n) ==> f.label@ == n@
            &&& stage.name is None ==> f.label@ == "stage-"@ + text::decimal(idx as nat)
            &&& f.scratch <==> executor::names_scratch(base)
            &&& stage.platform is None ==> f.platform@ == plan.platform@
            &&& f.vertex == vertex
            &&& f.scratch ==> executor::from_text(f) == "FROM "@ + "scratch"@
            &&& !f.scratch ==> executor::from_text(f) == "FROM "@ + base
            &&& f.scratch ==> solve::image_of(f) is None
            &&& !f.scratch ==> solve::image_of(f) == Some(base)
        }),
{
}

/// The base of a stage is fetched for the stage's platform and unpacked beside its root
/// filesystem, not into it.
pub proof fn bases_are_prepared_for_their_stage(task: Task, f: FromStep)
    requires
        solve::prepares(task, f),
    ensures
        task matches Task::Prepare { image, platform, bundle, rootfs } && {
            &&& f.scratch ==> image is None
            &&& !f.scratch ==> (image matches Some(i) && i@ == f.base@)
            &&& platform@ == f.platform@
            &&& rootfs@ == f.dir@.child("rootfs"@)
            &&& bundle@.parent() == rootfs@.parent()
            &&& bundle@ != rootfs@
        },
{
    reveal_strlit("rootfs");
    reveal_strlit("base-rootfs");
    match task {
        Task::Prepare { image, platform, bundle, rootfs } => {
            assert(bundle@.parts.drop_last() =~= f.dir@.parts);
            assert(rootfs@.parts.drop_last() =~= f.dir@.parts);
            assert(bundle@.parts.last() == "base-rootfs"@);
            assert(rootfs@.parts.last() == "rootfs"@);
            assert("base-rootfs"@.len() != "rootfs"@.len());
        },
        _ => {},
    }
}

/// A stage begins with the layer and the state of its base, and asks the cache unless
/// the build does without.
pub proof fn stages_begin_on_their_base(
    f: FromStep,
    id: Seq<char>,
    state: StateView,
    no_cache: bool,
    built: bool,
)
    ensures
        ({
            let run = solve::run_of(f, id, state, no_cache, built);
            &&& run.parent_id == id && run.state == state
            &&& run.cache_busted == no_cache && run.built == built
            &&& run.label == f.label@ && run.total == f.total
        }),
{
}

/// The layers of two steps on the same layer are the same only where the steps have the
/// same key, and steps on different layers have different ones, unless two different
/// texts have the same SHA-256 digest. So a stage never takes the layer of another
/// working directory or user for its own.
pub proof fn layers_stand_for_their_steps(
    x: LayerKey,
    y: LayerKey,
    run: RunView,
    other: RunView,
    a: Instruction,
    b: Instruction,
    found: Seq<Node>,
    network: NetworkMode,
)
    requires
        solve::step_layer_is(x, run, a, found, network),
        solve::step_layer_is(y, other, b, found, network),
        !run.parent_id.contains('\n'),
        !other.parent_id.contains('\n'),
        x.id@ == y.id@,
    ensures
        keys::collision() || run.parent_id == other.parent_id && x.key@ == y.key@,
        run.state == other.state && keys::single_text(a) is Some && keys::single_text(b) is Some
            && keys::sort_of(a) == keys::sort_of(b) ==> keys::collision() || expand::expanded(
            keys::single_text(a)->0,
            run.state.vars(),
        ) == expand::expanded(keys::single_text(b)->0, run.state.vars()),
        x.fs_changed <==> a is Run || a is Copy || a is Add || a is Workdir,
{
    keys::chain_ids_stand_for_parent_and_key(run.parent_id, x.key@, other.parent_id, y.key@);
    if run.state == other.state && keys::single_text(a) is Some && keys::single_text(b) is Some
        && keys::sort_of(a) == keys::sort_of(b) {
        keys::single_texts_are_told_by_the_key(
            Host::Posix,
            run.state,
            a,
            b,
            Map::empty(),
            found,
            backend::network_name(network),
            network,
        );
    }
}

/// The layer of a base stands for its image, digest and platform.
pub proof fn base_layers_stand_for_their_image(
    x: LayerKey,
    y: LayerKey,
    f: FromStep,
    g: FromStep,
    d: Seq<char>,
    e: Seq<char>,
)
    requires
        !f.scratch,
        !g.scratch,
        solve::base_layer_is(x, f, Some(d)),
        solve::base_layer_is(y, g, Some(e)),
        x.id@ == y.id@,
        f.base@ == g.base@,
        f.platform@ == g.platform@,
    ensures
        keys::collision() || d == e,
        x.fs_changed,
{
    let none = Seq::<char>::empty();
    keys::chain_ids_stand_for_parent_and_key(none, x.key@, none, y.key@);
    if x.key@ == y.key@ {
        keys::bases_are_told_by_the_key(f.base@, g.base@, f.platform@, g.platform@, d, e);
    }
}

/// While files are copied or added the display says where to, while a command runs that
/// it runs, and of anything else nothing.
pub proof fn work_is_announced(work: WorkView)
    ensures
        work matches WorkView::Copy { dest_guest, .. } ==> stage::work_status(work) == Some(
            "copying to "@ + dest_guest,
        ),
        work matches WorkView::Add { dest_guest, .. } ==> stage::work_status(work) == Some(
            "adding to "@ + dest_guest,
        ),
        work is Run ==> stage::work_status(work) == Some("running"@),
        work is MakeDir || work is Nothing ==> stage::work_status(work) is None,
{
}

/// The rules of the context apply to what is taken from the context, and to nothing
/// else.
pub proof fn rules_apply_to_the_context_alone(c: BuildContext, source: SourceView, src: PathView)
    ensures
        source is Context ==> transfer::place_in(c, source, src) == c.place(src),
        !(source is Context) ==> transfer::place_in(c, source, src) is None,
{
}

// ---------------------------------------------------------------------------
// Layers and downloads
// ---------------------------------------------------------------------------

/// The layers of an image are unpacked in order, each once, and the links that were
/// left come behind the last one.
pub proof fn layers_are_unpacked_in_order(index: usize, layers: usize)
    ensures
        index < layers ==> materialize::phase_behind(index as int, layers)
            == UnpackPhase::Measuring(index),
        index >= layers ==> materialize::phase_behind(index as int, layers) is Finalizing,
{
}

/// The fingerprint of an image is recorded in its destination as it is.
pub proof fn fingerprints_are_recorded(dest: PathView, stamp: Seq<char>)
    ensures
        materialize::stamped(dest, stamp).len() == 1,
        materialize::stamped(dest, stamp)[0].op matches FsOpView::Write(p, data) && p.parent()
            == Some(dest) && decode_utf8(data) == stamp,
        materialize::stamped(dest, stamp)[0].required,
{
    encode_utf8_decode_utf8(stamp);
    assert(dest.child(".rootfs-stamp"@).parts.drop_last() =~= dest.parts);
}

/// A layer without a digest is shown by its number, with zeros in front.
pub proof fn layers_without_a_digest_are_numbered(digests: Seq<Seq<char>>, index: nat)
    requires
        index >= digests.len(),
        text::decimal(index).len() <= 12,
    ensures
        materialize::layer_label(digests, index as int).len() == 12,
        text::all_digits(materialize::layer_label(digests, index as int)),
        text::decimal(index) == materialize::layer_label(digests, index as int).skip(
            12 - text::decimal(index).len(),
        ),
{
    let d = text::decimal(index);
    let label = materialize::layer_label(digests, index as int);
    variables::decimal_texts_read_back(index);
    assert(label.skip(12 - d.len()) =~= d);
    assert forall|i: int| 0 <= i < label.len() implies '0' <= #[trigger] label[i] <= '9' by {
        if i >= 12 - d.len() {
            assert(label[i] == d[i - (12 - d.len())]);
        }
    }
}

/// The digests of an image are those of its layers, in the order of the manifest, and
/// the config that is stored counts before the one that the registry sends.
pub proof fn pulled_images_have_the_layers_of_their_manifest(
    layers: Seq<Descriptor>,
    i: int,
    stored: Seq<char>,
    sent: Seq<char>,
)
    requires
        0 <= i < layers.len(),
    ensures
        pull::layer_digests_of(layers).len() == layers.len(),
        pull::layer_digests_of(layers)[i] == layers[i].digest@,
        pull::cached_config(Some(stored), sent) is Ok <==> pull::config_in(
            "image config"@,
            stored,
        ) is Ok,
        pull::cached_config(None, sent) == pull::config_in("image config"@, sent),
        pull::cached_config(Some(stored), sent) is Ok ==> pull::cached_config(Some(stored), sent)
            == pull::config_in("image config"@, stored),
{
}

/// A tag that is left out means the latest image.
pub proof fn missing_tags_mean_the_latest(tag: Seq<char>)
    ensures
        pull::tag_or_latest(Some(tag)) == tag,
        pull::tag_or_latest(None) == "latest"@,
        pull::pull_message(tag, true) != pull::pull_message(tag, false),
{
    reveal_strlit("Downloaded newer image for ");
    reveal_strlit("Image is up to date for ");
    assert(pull::pull_message(tag, true)[0] == 'D');
    assert(pull::pull_message(tag, false)[0] == 'I');
}

/// The digest of an exported layer is that of its bytes, or the one recorded for its
/// file; an image is known by the whole text of its reference.
pub proof fn exported_layers_have_their_digest(layer: ExportLayer, refs: Seq<Reference>, i: int)
    ensures
        layer matches ExportLayer::Bytes(b) ==> layer.digest_text() == seq![
            's',
            'h',
            'a',
            '2',
            '5',
            '6',
            ':',
        ] + digest::hex(digest::sha256(b@)),
        layer matches ExportLayer::File(_, d) ==> layer.digest_text() == d@,
        export::image_ids(refs).len() == refs.len(),
        0 <= i < refs.len() ==> export::image_ids(refs)[i] == refs[i]@.whole(),
{
    match layer {
        ExportLayer::Bytes(b) => {
            variables::digests_name_their_algorithm(b@);
        },
        _ => {},
    }
}

/// Every file of a layer directory with the ending of a blob counts as a layer.
pub proof fn blobs_are_counted(names: Seq<Seq<char>>, stem: Seq<char>, other: Seq<char>)
    requires
        other.len() == 0 || other.last() != 'z',
    ensures
        store::blobs_among(Seq::empty()) == 0,
        store::blobs_among(names.push(stem + ".tar.gz"@)) == store::blobs_among(names) + 1,
        store::blobs_among(names.push(other)) == store::blobs_among(names),
{
    reveal_strlit(".tar.gz");
    let blob = stem + ".tar.gz"@;
    assert(names.push(blob).drop_last() =~= names);
    assert(names.push(other).drop_last() =~= names);
    assert(blob.skip(blob.len() - 7) =~= ".tar.gz"@);
    if text::has_suffix(other, ".tar.gz"@) {
        assert(other.skip(other.len() - 7)[6] == 'z');
    }
}

/// The number that hexadecimal digits stand for.
pub open spec fn hex_number(s: Seq<char>) -> int
    decreases s.len(),
{
    if s.len() == 0 {
        0
    } else {
        hex_number(s.drop_last()) * 16 + variables::hex_value(s.last())
    }
}

/// Sixteen to the power of a number.
pub open spec fn sixteens(width: nat) -> int
    decreases width,
{
    if width == 0 {
        1
    } else {
        16 * sixteens((width - 1) as nat)
    }
}

/// A number in hexadecimal digits reads back as the number, and has as many digits as
/// it should.
pub proof fn padded_hexadecimal_texts_read_back(n: nat, width: nat)
    requires
        n < sixteens(width),
    ensures
        digest::hex_padded(n, width).len() == width,
        hex_number(digest::hex_padded(n, width)) == n,
    decreases width,
{
    if width > 0 {
        let front = digest::hex_padded(n / 16, (width - 1) as nat);
        assert(n / 16 < sixteens((width - 1) as nat));
        padded_hexadecimal_texts_read_back(n / 16, (width - 1) as nat);
        let all = digest::hex_padded(n, width);
        assert(all.drop_last() =~= front);
        assert(n == (n / 16) * 16 + n % 16);
        let d = (n % 16) as int;
        assert(variables::hex_value(digest::hex_digit(d)) == d);
    }
}

/// An instruction that changes files while those of its stage are shared is begun with a
/// copy of them into the stage's own directory; any other is handed over as the work
/// that it is, and the stage goes on with the settings that it makes.
pub proof fn instructions_work_on_files_of_their_own<R: BuildProgress>(
    s: Solve,
    run: StageRun,
    i: usize,
    vertex: u32,
    layer: LayerKey,
    elapsed: Duration,
    pre: ProgressEmitter<R>,
    r: Result<Task, Error>,
    after: Solve,
    post: ProgressEmitter<R>,
)
    requires
        s.taken_up(run, i, vertex, layer, elapsed, pre, r, &after, post),
    ensures
        ({
            let inst = s.instructions()[i as int];
            let works = inst is Run || inst is Copy || inst is Add || inst is Workdir;
            let state = stage::applied(run@.state, inst, s.plan.global_args@);
            let work = stage::work_of(s.host, state, inst, s.network);
            &&& works && run@.state.rootfs_shared ==> (r matches Ok(Task::Copy { from, to })
                && from@ == run@.state.rootfs && to@ == run@.state.work_rootfs)
            &&& !(works && run@.state.rootfs_shared) && work is Ok ==> (r matches Ok(Task::Work(w))
                && w@ == work->Ok_0)
            &&& !(works && run@.state.rootfs_shared) && work is Ok ==> (
            after.phase matches Phase::Working(now, _, _, l) && now@.state == state && l == layer)
            &&& !(works && run@.state.rootfs_shared) && work is Err ==> r is Err
        }),
{
}

/// What is said of a failure ends with its reason and names what failed.
pub proof fn failures_name_what_failed(
    src: PathView,
    dest: PathView,
    url: Seq<char>,
    index: nat,
    reason: Seq<char>,
    name: Seq<char>,
)
    ensures
        context::copy_message(src, dest, reason) == "copy "@ + src.shown() + " -> "@ + dest.shown()
            + ": "@ + reason,
        copying::write_message(dest, reason) == "ADD: failed to write '"@ + dest.shown() + "': "@
            + reason,
        materialize::unpack_error(index, ErrorView::Other(reason)) == ErrorView::Other(
            "failed to unpack layer "@ + text::decimal(index) + ": "@ + reason,
        ),
        materialize::link_error(ErrorView::Other(reason)) == ErrorView::Other(
            "failed to finalize rootfs links: "@ + reason,
        ),
        reference::reference_outcome(name, Err(reason)) == Err::<ReferenceView, ErrorView>(
            ErrorView::Reference(name + ": "@ + reason),
        ),
        config::config_error(name, reason) == ErrorView::Other(name + ": "@ + reason),
        export::naming(seq![name, url]) == "naming to "@ + name + ", "@ + url,
{
    let two = seq![name, url];
    assert(two.drop_last() =~= seq![name]);
    assert(text::joined(seq![name], ", "@) == name);
    assert(text::joined(two, ", "@) == name + ", "@ + url);
    assert(export::naming(two) =~= "naming to "@ + name + ", "@ + url);
}

/// A layer that is unpacked is reported from nothing to its whole size, and then as
/// complete; where nothing is to be reported, nothing is.
pub proof fn unpacking_is_reported(x: Extraction, index: usize, total: u64)
    ensures
        !x.report ==> x.begin_events(index, total).len() == 0 && x.done_events(index, total).len()
            == 0 && x.announcement().len() == 0,
        x.report ==> {
            &&& x.begin_events(index, total).len() == 1
            &&& x.begin_events(index, total)[0] matches PullEventView::LayerProgress {
                current,
                total: t,
                ..
            } && current == 0 && t == total
            &&& x.done_events(index, total).len() == 2
            &&& x.done_events(index, total)[0] matches PullEventView::LayerProgress {
                current,
                total: t,
                ..
            } && current == total && t == total
            &&& x.done_events(index, total)[1] matches PullEventView::LayerStatus { status, .. }
                && status == "Pull complete"@
        },
        x.report && x.layers > 0 ==> x.announcement().len() == 1,
{
}

} // verus!
