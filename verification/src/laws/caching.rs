//! What is kept of a build, and where.

use vstd::prelude::*;
use vstd::utf8::*;

use crate::archive::RawView;
use crate::context::{self, BuildContext};
use crate::error::{self, ErrorView, IoKind};
use crate::executor::{self, RunView};
use crate::export::{self, ExportLayer, TagFacts};
use crate::fs::{self, FsOpView, RelOp, StepView};
use crate::fs_cache;
use crate::laws::paths;
use crate::laws::trees;
use crate::laws::variables;
use crate::layer_cache;
use crate::meta::MetaView;
use crate::path::{self, PathView};
use crate::platform::{self, IndexEntry, PlatformView};
use crate::reference::ReferenceView;
use crate::store::{self, DataRootFacts};
use crate::text;
use crate::tree::{self, Entry, Shape};
use crate::unpack;
use crate::winpath::Host;

verus! {

// ---------------------------------------------------------------------------
// Steps of a stage
// ---------------------------------------------------------------------------

/// A step that the cache has gives the stage the files and the settings of the cached
/// layer, which the next step builds on; the files stay those of the cache. A step that
/// is carried out keeps both and turns the cache off. On its own copy a stage works on
/// the directory that belongs to it.
pub proof fn steps_hand_on_their_layer(
    run: RunView,
    id: Seq<char>,
    meta: MetaView,
    args: Seq<(Seq<char>, Seq<char>)>,
    rootfs: PathView,
)
    ensures
        ({
            let hit = executor::after_cached(run, id, meta, args, rootfs);
            let done = executor::after_built(run, id);
            let own = executor::on_copy(run);
            &&& hit.state.rootfs == rootfs && hit.state.rootfs_shared
            &&& hit.state.meta == meta && hit.state.args == args
            &&& hit.state.work_rootfs == run.state.work_rootfs
            &&& hit.parent_id == id && hit.state.layer_id == id
            &&& !hit.built && hit.cache_busted == run.cache_busted
            &&& done.state.rootfs == run.state.rootfs && done.state.rootfs_shared
                == run.state.rootfs_shared
            &&& done.state.meta == run.state.meta && done.state.args == run.state.args
            &&& done.parent_id == id && done.state.layer_id == id
            &&& done.built && done.cache_busted
            &&& own.state.rootfs == run.state.work_rootfs && !own.state.rootfs_shared
            &&& own.state.meta == run.state.meta && own.state.args == run.state.args
            &&& own.parent_id == run.parent_id && own.cache_busted == run.cache_busted
            &&& hit.label == run.label && done.label == run.label && own.label == run.label
            &&& hit.total == run.total && done.total == run.total && own.total == run.total
        }),
{
}

// ---------------------------------------------------------------------------
// Layers of the cache
// ---------------------------------------------------------------------------

/// Whether a step is among others.
pub open spec fn among(s: StepView, steps: Seq<StepView>) -> bool {
    exists|i: int| 0 <= i < steps.len() && #[trigger] steps[i] == s
}

/// A layer that is saved has a directory for its changeset, names the layers below it
/// where there are any, and can be found by its short id; what an older layer of that
/// id left is removed first.
pub proof fn saved_layers_can_be_found(
    host: Host,
    dir: PathView,
    id: Seq<char>,
    lower: Seq<char>,
    dir_exists: bool,
    link_exists: bool,
)
    requires
        id.len() >= 12,
    ensures
        ({
            let steps = layer_cache::begin_steps(host, dir, id, lower, dir_exists, link_exists);
            let layer = dir.child(id);
            let link = dir.child("l"@).child(id.take(12));
            &&& dir_exists ==> steps[0] == fs::must(FsOpView::RemoveDirAll(layer))
            &&& among(fs::must(FsOpView::CreateDirAll(layer.child("diff"@))), steps)
            &&& lower.len() > 0 ==> among(
                fs::must(FsOpView::Write(layer.child("lower"@), encode_utf8(lower))),
                steps,
            )
            &&& host == Host::Posix ==> among(
                fs::must(FsOpView::Symlink(encode_utf8(seq!['.', '.', '/'] + id), link)),
                steps,
            )
            &&& host == Host::Windows ==> among(
                fs::must(FsOpView::Write(link, encode_utf8(id))),
                steps,
            )
            &&& among(
                fs::must(FsOpView::Write(layer.child("link"@), encode_utf8(id.take(12)))),
                steps,
            )
        }),
{
    let steps = layer_cache::begin_steps(host, dir, id, lower, dir_exists, link_exists);
    let layer = dir.child(id);
    reveal_strlit("../");
    assert("../"@ =~= seq!['.', '.', '/']);
    assert(layer_cache::short(id) == id.take(12)) by {
        if id.len() == 12 {
            assert(id.take(12) =~= id);
        }
    }
    let n = steps.len() as int;
    let a: int = if dir_exists {
        1
    } else {
        0
    };
    assert(steps[a] == fs::must(FsOpView::CreateDirAll(layer.child("diff"@))));
    if lower.len() > 0 {
        assert(steps[a + 1] == fs::must(
            FsOpView::Write(layer.child("lower"@), encode_utf8(lower)),
        ));
    }
    assert(steps[n - 1] == fs::must(
        FsOpView::Write(layer.child("link"@), encode_utf8(id.take(12))),
    ));
    let link = dir.child("l"@).child(id.take(12));
    match host {
        Host::Posix => {
            assert(steps[n - 2] == fs::must(
                FsOpView::Symlink(encode_utf8("../"@ + id), link),
            ));
        },
        Host::Windows => {
            assert(steps[n - 2] == fs::must(FsOpView::Write(link, encode_utf8(id))));
        },
    }
}

/// A layer on top of another lists it first, by its link where that is known, else by
/// its short id, and then what is below it; and a snapshot takes its files from where
/// its parent has them.
pub proof fn layers_list_what_is_below(
    short: Seq<char>,
    below: Seq<char>,
    parent: Seq<char>,
    other: Seq<char>,
)
    requires
        below.len() > 0,
        '!' <= below[0] <= '~',
        '!' <= below.last() <= '~',
    ensures
        layer_cache::lower_of(short, Seq::empty()) == seq!['l', '/'] + short,
        layer_cache::lower_of(short, below) == seq!['l', '/'] + short + seq![':'] + below,
        fs_cache::files_of(parent, None) == parent,
        fs_cache::files_of(parent, Some(other)) == other,
        fs_cache::inherited(parent, None) == Some(parent),
        fs_cache::inherited(parent, Some(other)) == Some(other),
        layer_cache::text_or(Some(other), parent) == other,
        layer_cache::text_or(None, parent) == parent,
{
    reveal_strlit("l/");
    reveal_strlit(":");
    assert("l/"@ =~= seq!['l', '/']);
    assert(":"@ =~= seq![':']);
    let none = Seq::<char>::empty();
    variables::blanks_around_a_text_go(none, below, none);
    assert(none + below + none =~= below);
    assert(text::trimmed(none) =~= none);
}

/// A snapshot holds the tree that was copied into it.
pub proof fn snapshots_hold_the_tree(
    dir: PathView,
    id: Seq<char>,
    dir_exists: bool,
    entries: Seq<Entry>,
    rootfs: PathView,
)
    requires
        tree::distinct(entries),
    ensures
        trees::all_carried_out(
            rootfs,
            Shape::Dir(tree::shapes(entries)),
            dir.child(id).child("rootfs"@),
            Shape::Dir(Map::empty()),
            fs_cache::snapshot_begin(dir, id, dir_exists, Some(entries), rootfs),
        ) == Shape::Dir(tree::shapes(entries)),
        dir_exists ==> fs_cache::snapshot_begin(dir, id, dir_exists, Some(entries), rootfs)[0]
            == fs::must(FsOpView::RemoveDirAll(dir.child(id))),
{
    let entry = dir.child(id);
    let home = entry.child("rootfs"@);
    let from = Shape::Dir(tree::shapes(entries));
    let empty = Shape::Dir(Map::<Seq<char>, Shape>::empty());
    let none = Seq::<StepView>::empty();
    let gone = fs::must(FsOpView::RemoveDirAll(entry));
    let made = fs::must(FsOpView::CreateDirAll(entry));
    let first = if dir_exists {
        none.push(gone)
    } else {
        none
    };
    let second = first.push(made);
    assert(entry.parts.len() < home.parts.len());
    assert(!made.op->CreateDirAll_0.within(home));
    assert(trees::all_carried_out(rootfs, from, home, empty, none) == empty);
    trees::lemma_push(rootfs, from, home, empty, none, gone);
    trees::lemma_push(rootfs, from, home, empty, first, made);
    trees::lemma_made(rootfs, from, home, empty, second);
    let third = second.push(fs::must(FsOpView::CreateDirAll(home)));
    trees::lemma_copied(entries, rootfs, home, third, empty);
    let ops = seq![RelOp::MakeDir(Seq::empty())] + fs::entry_ops(entries);
    assert(fs_cache::snapshot_begin(dir, id, dir_exists, Some(entries), rootfs) =~= third
        + fs::placed(ops, rootfs, home));
}

// ---------------------------------------------------------------------------
// The store
// ---------------------------------------------------------------------------

/// The directory of an image is named after its reference, letter by letter with an
/// underscore for whatever is neither letter nor digit, and after its platform. So
/// images for different architectures do not share one.
pub proof fn images_have_their_own_directories(
    root: PathView,
    r: ReferenceView,
    p: PlatformView,
    q: PlatformView,
    i: int,
)
    requires
        0 <= i < r.whole().len(),
    ensures
        ({
            let c = r.whole()[i];
            let name = store::sanitized(r, p);
            &&& store::image_at(root, r, p).parts == root.parts.push("images"@).push(name)
            &&& name[i] == if 'a' <= c <= 'z' || 'A' <= c <= 'Z' || '0' <= c <= '9' {
                c
            } else {
                '_'
            }
            &&& name.skip(r.whole().len() as int) == seq!['_'] + p.os + seq!['_'] + p.architecture
        }),
        p.os == q.os && p.architecture != q.architecture ==> store::image_at(root, r, p)
            != store::image_at(root, r, q),
{
    reveal_strlit("_");
    assert("_"@ =~= seq!['_']);
    let n = r.whole().len() as int;
    let a = store::sanitized(r, p);
    let b = store::sanitized(r, q);
    assert(a.skip(n) =~= seq!['_'] + p.os + seq!['_'] + p.architecture);
    assert(b.skip(n) =~= seq!['_'] + q.os + seq!['_'] + q.architecture);
    if p.os == q.os && store::image_at(root, r, p) == store::image_at(root, r, q) {
        assert(store::image_at(root, r, p).parts.last() == a);
        assert(store::image_at(root, r, q).parts.last() == b);
        let m = p.os.len() as int + 2;
        assert(a.skip(n).skip(m) =~= p.architecture);
        assert(b.skip(n).skip(m) =~= q.architecture);
    }
}

/// The data directory is the one that is asked for; else that of the system for the
/// superuser on Linux, where there is one on macOS, and on any other system; else that
/// of the user.
pub proof fn the_data_directory_is_the_one_asked_for(f: DataRootFacts)
    ensures
        (f.docker_data_root is Some && !(f.docker_data_root->0@.anchor.len() == 0
            && f.docker_data_root->0@.parts.len() == 0)) ==> store::data_root(f)
            == f.docker_data_root->0@,
        f.docker_data_root is None ==> {
            let system = PathView {
                anchor: "/"@,
                parts: seq!["var"@, "lib"@, "docker"@],
            };
            &&& f.os is Linux && f.is_root ==> store::data_root(f) == system
            &&& f.os is Macos && f.system_dir_exists ==> store::data_root(f) == system
            &&& f.os is Other ==> store::data_root(f) == system
            &&& f.os is Linux && !f.is_root && f.data_local is Some ==> store::data_root(f)
                == f.data_local->0@.child("docker"@)
            &&& f.os is Macos && !f.system_dir_exists && f.data_local is Some
                ==> store::data_root(f) == f.data_local->0@.child("docker"@)
            &&& f.os is Windows && !f.wsl_exists && !f.wsl_localhost_exists
                && f.program_data is Some ==> store::data_root(f) == f.program_data->0@.child(
                "Docker"@,
            )
            &&& f.os is Windows && f.wsl_exists ==> store::data_root(f).parts == seq![
                "data"@,
                "docker"@,
            ]
        },
{
}

/// The manifest for a platform is one whose system and architecture are both those of
/// the platform.
pub proof fn manifests_are_for_their_platform(entry: IndexEntry, platform: PlatformView)
    ensures
        platform::entry_for(entry, platform) <==> entry.platform is Some
            && entry.platform->0.os@ == platform.os && entry.platform->0.architecture@
            == platform.architecture,
{
}

/// Under a tag that stands for the same digest already, with a layer, only the config
/// is written; under any other the image is written as a whole.
pub proof fn tags_are_written_once(
    image: PathView,
    platform: PlatformView,
    facts: TagFacts,
    config: Seq<char>,
    layer: ExportLayer,
    digest: Seq<char>,
)
    requires
        digest.len() > 0,
        '!' <= digest[0] <= '~',
        '!' <= digest.last() <= '~',
    ensures
        facts.stored_digest is Some && facts.stored_digest->0@ == digest && facts.first_layer
            ==> export::tag_steps(image, platform, facts, config, layer, digest) == seq![
            fs::must(FsOpView::Write(image.child("config.json"@), encode_utf8(config))),
        ],
        facts.stored_digest is None || !facts.first_layer ==> export::tag_steps(
            image,
            platform,
            facts,
            config,
            layer,
            digest,
        ).len() > 1,
        facts.stored_digest is Some && text::trimmed(facts.stored_digest->0@) != digest
            ==> export::tag_steps(image, platform, facts, config, layer, digest).len() > 1,
{
    let none = Seq::<char>::empty();
    variables::blanks_around_a_text_go(none, digest, none);
    assert(none + digest + none =~= digest);
}

// ---------------------------------------------------------------------------
// Failures
// ---------------------------------------------------------------------------

/// The text of an error ends with its reason; a plain message is shown as it is.
pub proof fn errors_say_their_reason(e: ErrorView, m: Seq<char>)
    ensures
        error::error_text(ErrorView::Other(m)) == m,
        error::error_text(ErrorView::Dockerfile(m)) == m,
        error::error_reason(ErrorView::Other(m)) == m,
        e is Io ==> error::error_reason(e) == e->Io_source,
        exists|front: Seq<char>|
            error::error_text(e) == #[trigger] (front + error::error_reason(e)),
        e matches ErrorView::Reference(s) ==> exists|front: Seq<char>|
            error::error_text(e) == #[trigger] (front + s),
{
    let none = Seq::<char>::empty();
    assert(none + error::error_reason(e) =~= error::error_reason(e));
    match e {
        ErrorView::Io { path, source, .. } => {
            let front = "failed to read "@ + path + ": "@;
            assert(error::error_text(e) =~= front + source);
        },
        ErrorView::Reference(s) => {
            assert(error::error_text(e) == "invalid image reference: "@ + s);
        },
        _ => {},
    }
}

/// A link is made in another way later exactly where the right to make links is
/// missing, its name is refused or something stands there; any other failure ends the
/// unpacking.
pub proof fn links_wait_for_another_attempt(
    path: Seq<char>,
    kind: IoKind,
    code: Option<i32>,
    source: Seq<char>,
    m: Seq<char>,
)
    ensures
        unpack::deferrable(ErrorView::Io { path, kind: IoKind::AlreadyExists, code, source }),
        unpack::deferrable(ErrorView::Io { path, kind, code: Some(1314), source }),
        unpack::deferrable(ErrorView::Io { path, kind, code: Some(123), source }),
        kind != IoKind::AlreadyExists && code is None ==> !unpack::deferrable(
            ErrorView::Io { path, kind, code, source },
        ),
        !unpack::deferrable(ErrorView::Other(m)),
{
}

/// On Posix every entry of a layer is planned, and the layer fails only where its
/// archive breaks off. Elsewhere it ends with the first entry whose path is no text.
pub proof fn layers_are_planned_to_their_end(
    host: Host,
    entries: Seq<RawView>,
    end: Option<Seq<char>>,
    k: int,
)
    requires
        0 <= k <= entries.len(),
        forall|i: int| 0 <= i < k ==> valid_utf8((#[trigger] entries[i]).path),
        forall|i: int|
            0 <= i < k ==> ((#[trigger] entries[i]).link matches Some(t) ==> valid_utf8(t)),
        k < entries.len() ==> !valid_utf8(entries[k].path),
    ensures
        host == Host::Posix || k == entries.len() ==> unpack::planned(host, entries)
            == entries.len() && unpack::layer_fault(host, (entries, end)) == end,
        host == Host::Windows && k < entries.len() ==> unpack::planned(host, entries) == k + 1
            && unpack::layer_fault(host, (entries, end)) is Some,
{
    assert(valid_utf8(Seq::<u8>::empty()));
    if host == Host::Posix || k == entries.len() {
        assert forall|i: int| 0 <= i < entries.len() implies unpack::entry_fault(
            host,
            #[trigger] entries[i],
        ) is None by {}
        lemma_faultless(host, entries, entries.len() as int);
        assert(entries.take(entries.len() as int) =~= entries);
    } else {
        assert forall|i: int| 0 <= i < k implies unpack::entry_fault(
            host,
            #[trigger] entries[i],
        ) is None by {}
        lemma_faultless(host, entries, k);
        let some = entries.take(k + 1);
        assert(some.drop_last() =~= entries.take(k));
        assert(some.last() == entries[k]);
        assert(unpack::first_fault(host, some) == k);
        lemma_first(host, entries, k + 1);
    }
}

proof fn lemma_faultless(host: Host, entries: Seq<RawView>, n: int)
    requires
        0 <= n <= entries.len(),
        forall|i: int| 0 <= i < n ==> unpack::entry_fault(host, #[trigger] entries[i]) is None,
    ensures
        unpack::first_fault(host, entries.take(n)) == n,
    decreases n,
{
    if n > 0 {
        lemma_faultless(host, entries, n - 1);
        assert(entries.take(n).drop_last() =~= entries.take(n - 1));
        assert(entries.take(n).last() == entries[n - 1]);
    }
}

proof fn lemma_first(host: Host, entries: Seq<RawView>, n: int)
    requires
        0 <= n <= entries.len(),
        unpack::first_fault(host, entries.take(n)) < n,
    ensures
        unpack::first_fault(host, entries) == unpack::first_fault(host, entries.take(n)),
    decreases entries.len() - n,
{
    if n < entries.len() {
        assert(entries.take(n + 1).drop_last() =~= entries.take(n));
        lemma_first(host, entries, n + 1);
    } else {
        assert(entries.take(n) =~= entries);
    }
}

// ---------------------------------------------------------------------------
// The build context
// ---------------------------------------------------------------------------

/// A name in the context stands for the path below its directory; a dot stands for the
/// directory itself, and `./` in front makes no difference.
pub proof fn context_names_stand_below_its_directory(root: PathView, parts: Seq<Seq<char>>)
    requires
        paths::components(parts),
        parts.len() > 0,
    ensures
        context::context_path(root, paths::slashed(parts)) == fs::below(root, parts),
        context::context_path(root, seq!['.', '/'] + paths::slashed(parts)) == fs::below(
            root,
            parts,
        ),
        context::context_path(root, seq!['.']) == root,
        context::context_path(root, Seq::empty()) == root,
{
    let s = paths::slashed(parts);
    paths::lemma_dots();
    paths::lemma_slashed_pieces(parts);
    let t = seq!['.', '/'] + s;
    assert(t.skip(2) =~= s);
    assert(!(s.len() >= 2 && s[0] == '.' && s[1] == '/')) by {
        assert(paths::component(parts[0]));
        if s.len() >= 2 && s[0] == '.' && s[1] == '/' {
            if parts[0].len() >= 2 {
                assert(s[1] == parts[0][1]);
                assert(parts[0].contains(parts[0][1]));
            } else {
                assert(parts[0] =~= seq!['.']);
            }
        }
    }
    assert(context::without_dot_slash(t) == context::without_dot_slash(s));
    assert(s != seq!['.']) by {
        if s == seq!['.'] {
            assert(s.len() == 1);
            assert(paths::component(parts[0]));
            assert(parts[0] =~= seq!['.']);
        }
    }
    lemma_named(parts);
    assert(context::without_dot_slash(seq!['.']) == seq!['.']);
}

proof fn lemma_named(parts: Seq<Seq<char>>)
    requires
        paths::components(parts),
    ensures
        path::named_parts(parts, false) == parts,
    decreases parts.len(),
{
    paths::lemma_dots();
    if parts.len() > 0 {
        let rest = parts.drop_last();
        assert forall|i: int| 0 <= i < rest.len() implies paths::component(#[trigger] rest[i]) by {
            assert(rest[i] == parts[i]);
        }
        lemma_named(rest);
        assert(paths::component(parts[parts.len() - 1]));
        assert(rest.push(parts.last()) =~= parts);
    }
}

/// The rules of a context see a path by the way that leads to it from the context's
/// directory, under its own name or with links resolved; a path outside has none.
pub proof fn places_lead_from_the_context(
    c: BuildContext,
    rel: Seq<Seq<char>>,
    path: PathView,
)
    ensures
        c.place(fs::below(c.canon@, rel)) == Some(rel),
        !fs::below(c.dir@, rel).within(c.canon@) ==> c.place(fs::below(c.dir@, rel)) == Some(rel),
        path.anchor != c.canon@.anchor && path.anchor != c.dir@.anchor ==> c.place(path) is None,
{
    trees::lemma_below(c.canon@, rel);
    trees::lemma_below(c.dir@, rel);
}

} // verus!
