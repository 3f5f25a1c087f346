//! What is asked of registries, and when a copy will do.

use vstd::bytes::*;
use vstd::prelude::*;
use vstd::utf8::*;

use crate::auth::{self, AuthEntry, AuthView};
use crate::config::ConfigOs;
use crate::laws::variables;
use crate::layer_cache;
use crate::materialize::{self, DestFacts};
use crate::path::{HostPath, PathView};
use crate::progress;
use crate::pull::{self, CacheFacts, Descriptor};
use crate::reference;
use crate::store::{self, StoreFacts};
use crate::text;

verus! {

/// Credentials are a user name up to the first colon and a password behind it.
pub proof fn credentials_are_name_and_password(user: Seq<char>, password: Seq<char>)
    requires
        !user.contains(':'),
    ensures
        auth::credentials(Some(encode_utf8(user + seq![':'] + password))) == Some((user, password)),
        auth::credentials(Some(encode_utf8(user))) is None,
        auth::credentials(None) is None,
{
    let s = user + seq![':'] + password;
    let n = user.len() as int;
    encode_utf8_valid_utf8(s);
    encode_utf8_decode_utf8(s);
    encode_utf8_valid_utf8(user);
    encode_utf8_decode_utf8(user);
    assert forall|k: int| 0 <= k < n implies #[trigger] s[k] != ':' by {
        assert(s[k] == user[k]);
        assert(user.contains(user[k]));
    }
    text::lemma_first_of(s, ':', n);
    assert forall|k: int| 0 <= k < n implies #[trigger] user[k] != ':' by {
        assert(user.contains(user[k]));
    }
    text::lemma_first_of(user, ':', n);
    assert(s.take(n) =~= user);
    assert(s.skip(n + 1) =~= password);
}

/// Credentials of the file count before those of the environment, which count only as
/// a pair; without either a registry is asked anonymously.
pub proof fn credentials_come_from_the_file_first(
    registry: Seq<char>,
    entries: Seq<(String, AuthEntry)>,
    user: Seq<char>,
    password: Seq<char>,
)
    ensures
        auth::resolved_auth(registry, None, Some(user), Some(password)) == AuthView::Basic(
            user,
            password,
        ),
        auth::resolved_auth(registry, None, None, Some(password)) is Anonymous,
        auth::resolved_auth(registry, None, Some(user), None) is Anonymous,
        auth::resolved_auth(registry, None, None, None) is Anonymous,
        auth::first_credentials(entries, auth::candidates(registry)) matches Some(pair)
            ==> auth::resolved_auth(registry, Some(entries), Some(user), Some(password))
            == AuthView::Basic(pair.0, pair.1),
        auth::first_credentials(entries, auth::candidates(registry)) is None
            ==> auth::resolved_auth(registry, Some(entries), Some(user), Some(password))
            == AuthView::Basic(user, password),
{
}

/// A registry's own entry in the file decides: its user name and password are used
/// where it states them in the clear and nothing else.
pub proof fn entries_give_the_credentials_of_their_registry(
    registry: Seq<char>,
    entries: Seq<(String, AuthEntry)>,
    k: int,
)
    requires
        0 <= k < entries.len(),
        entries[k].0@ == seq!['h', 't', 't', 'p', 's', ':', '/', '/'] + registry,
        forall|i: int| 0 <= i < k ==> (#[trigger] entries[i]).0@ != entries[k].0@,
        entries[k].1.auth is None,
        entries[k].1.username is Some,
        entries[k].1.password is Some,
    ensures
        auth::resolved_auth(registry, Some(entries), None, None) == AuthView::Basic(
            entries[k].1.username->0@,
            entries[k].1.password->0@,
        ),
{
    reveal_strlit("https://");
    assert("https://"@ =~= seq!['h', 't', 't', 'p', 's', ':', '/', '/']);
    let key = entries[k].0@;
    lemma_entry_called(entries, key, k);
    assert(auth::candidates(registry)[0] == key);
}

proof fn lemma_entry_called(entries: Seq<(String, AuthEntry)>, key: Seq<char>, k: int)
    requires
        0 <= k < entries.len(),
        entries[k].0@ == key,
        forall|i: int| 0 <= i < k ==> (#[trigger] entries[i]).0@ != key,
    ensures
        auth::entry_called(entries, key) == Some(entries[k].1),
    decreases entries.len(),
{
    if k > 0 {
        assert(entries[0].0@ != key);
        let rest = entries.skip(1);
        assert forall|i: int| 0 <= i < k - 1 implies (#[trigger] rest[i]).0@ != key by {
            assert(entries[i + 1].0@ != key);
        }
        lemma_entry_called(rest, key, k - 1);
    }
}

/// Without an entry for a registry, under any of the names that one can have, the file
/// gives no credentials.
pub proof fn other_entries_give_no_credentials(
    registry: Seq<char>,
    entries: Seq<(String, AuthEntry)>,
)
    requires
        forall|i: int, j: int|
            0 <= i < entries.len() && 0 <= j < 4 ==> (#[trigger] entries[i]).0@
                != #[trigger] auth::candidates(registry)[j],
    ensures
        auth::resolved_auth(registry, Some(entries), None, None) is Anonymous,
{
    let keys = auth::candidates(registry);
    lemma_not_called(entries, keys[0]);
    lemma_not_called(entries, keys[1]);
    lemma_not_called(entries, keys[2]);
    lemma_not_called(entries, keys[3]);
    lemma_none(entries, keys);
}

proof fn lemma_not_called(entries: Seq<(String, AuthEntry)>, key: Seq<char>)
    requires
        forall|i: int| 0 <= i < entries.len() ==> (#[trigger] entries[i]).0@ != key,
    ensures
        auth::entry_called(entries, key) is None,
    decreases entries.len(),
{
    if entries.len() > 0 {
        assert(entries[0].0@ != key);
        let rest = entries.skip(1);
        assert forall|i: int| 0 <= i < rest.len() implies (#[trigger] rest[i]).0@ != key by {
            assert(entries[i + 1].0@ != key);
        }
        lemma_not_called(rest, key);
    }
}

proof fn lemma_none(entries: Seq<(String, AuthEntry)>, keys: Seq<Seq<char>>)
    requires
        forall|j: int|
            0 <= j < keys.len() ==> auth::entry_called(entries, #[trigger] keys[j]) is None,
    ensures
        auth::first_credentials(entries, keys) is None,
    decreases keys.len(),
{
    if keys.len() > 0 {
        assert(auth::entry_called(entries, keys[0]) is None);
        let rest = keys.skip(1);
        assert forall|j: int| 0 <= j < rest.len() implies auth::entry_called(
            entries,
            #[trigger] rest[j],
        ) is None by {
            assert(rest[j] == keys[j + 1]);
        }
        lemma_none(entries, rest);
    }
}

/// The directory of the file is the forced one, else the first of the two that the
/// environment names, else the one below the home directory.
pub proof fn the_nearest_directory_counts(a: HostPath, b: HostPath, c: HostPath, home: HostPath)
    ensures
        auth::config_dir(Some(a), Some(b), Some(c), Some(home)) == Some(a@),
        auth::config_dir(None, Some(b), Some(c), Some(home)) == Some(b@),
        auth::config_dir(None, None, Some(c), Some(home)) == Some(c@),
        auth::config_dir(None, None, None, Some(home)) == Some(home@.child(".docker"@)),
        auth::config_dir(None, None, None, None) is None,
{
}

/// A scheme in front of an image name and blanks around it are no part of the name.
pub proof fn schemes_are_no_part_of_a_name(front: Seq<char>, name: Seq<char>, back: Seq<char>)
    requires
        forall|i: int| 0 <= i < front.len() ==> variables::blank(#[trigger] front[i]),
        forall|i: int| 0 <= i < back.len() ==> variables::blank(#[trigger] back[i]),
        name.len() > 0,
        '!' <= name[0] <= '~',
        '!' <= name.last() <= '~',
        !name.contains(':'),
    ensures
        reference::without_scheme(front + name + back) == name,
        reference::without_scheme(front + ("docker://"@ + name) + back) == name,
        reference::without_scheme(front + ("oci://"@ + name) + back) == name,
{
    reveal_strlit("docker://");
    reveal_strlit("oci://");
    let a = "docker://"@ + name;
    let b = "oci://"@ + name;
    variables::blanks_around_a_text_go(front, name, back);
    assert(a.last() == name.last());
    assert(b.last() == name.last());
    variables::blanks_around_a_text_go(front, a, back);
    variables::blanks_around_a_text_go(front, b, back);
    assert(a.take(9) =~= "docker://"@);
    assert(a.skip(9) =~= name);
    assert(b.take(6) =~= "oci://"@);
    assert(b.skip(6) =~= name);
    assert(!text::has_prefix(b, "docker://"@)) by {
        if text::has_prefix(b, "docker://"@) {
            assert(b.take(9)[0] == 'd');
        }
    }
    assert(!text::has_prefix(name, "docker://"@)) by {
        if text::has_prefix(name, "docker://"@) {
            assert(name.take(9)[6] == ':');
            assert(name[6] == ':');
        }
    }
    assert(!text::has_prefix(name, "oci://"@)) by {
        if text::has_prefix(name, "oci://"@) {
            assert(name.take(6)[3] == ':');
            assert(name[3] == ':');
        }
    }
}

/// A gzip-compressed layer of either kind.
pub open spec fn gzip_layer(d: Descriptor) -> bool {
    d.media_type@ == "application/vnd.oci.image.layer.v1.tar+gzip"@ || d.media_type@
        == "application/vnd.docker.image.rootfs.diff.tar.gzip"@
}

/// A manifest can be pulled exactly where it has layers and all of them are
/// gzip-compressed ones.
pub proof fn manifests_of_gzip_layers_are_pulled(layers: Seq<Descriptor>)
    ensures
        pull::layers_refused(layers) is None <==> layers.len() > 0 && forall|i: int|
            0 <= i < layers.len() ==> gzip_layer(#[trigger] layers[i]),
{
    lemma_unaccepted(layers);
}

proof fn lemma_unaccepted(layers: Seq<Descriptor>)
    ensures
        pull::unaccepted(layers) is None <==> forall|i: int|
            0 <= i < layers.len() ==> gzip_layer(#[trigger] layers[i]),
    decreases layers.len(),
{
    if layers.len() > 0 {
        let rest = layers.skip(1);
        lemma_unaccepted(rest);
        if forall|i: int| 0 <= i < layers.len() ==> gzip_layer(#[trigger] layers[i]) {
            assert(gzip_layer(layers[0]));
            assert forall|i: int| 0 <= i < rest.len() implies gzip_layer(#[trigger] rest[i]) by {
                assert(gzip_layer(layers[i + 1]));
            }
        }
        if gzip_layer(layers[0]) && (forall|i: int|
            0 <= i < rest.len() ==> gzip_layer(#[trigger] rest[i])) {
            assert forall|i: int| 0 <= i < layers.len() implies gzip_layer(
                #[trigger] layers[i],
            ) by {
                if i > 0 {
                    assert(gzip_layer(rest[i - 1]));
                }
            }
        }
    }
}

/// A stored copy stands for an image only where the digest is that of the image, the
/// config is there, and every layer is listed and there.
pub proof fn copies_stand_for_the_same_image(
    f: CacheFacts,
    s: StoreFacts,
    digest: Seq<char>,
    layers: Seq<Seq<char>>,
    i: int,
)
    requires
        0 <= i < layers.len(),
    ensures
        pull::cache_matches(f, digest, layers) ==> {
            &&& digest.len() > 0
            &&& f.digest is Some && text::trimmed(f.digest->0@) == text::trimmed(digest)
            &&& f.config_is_file
            &&& f.digests is Some && layer_cache::nonempty(text::lines_of(f.digests->0@)).len()
                == layers.len()
            &&& layer_cache::nonempty(text::lines_of(f.digests->0@))[i] == layers[i]
            &&& i < f.blobs@.len() && f.blobs@[i]
        },
        store::is_stored(s, digest, layers) ==> {
            &&& digest.len() > 0
            &&& s.digest is Some && text::trimmed(s.digest->0@) == text::trimmed(digest)
            &&& s.cached
            &&& s.layer_digests@.len() == layers.len()
            &&& s.layer_digests@[i]@ == layers[i]
            &&& i < s.layers@.len() && s.layers@[i]
        },
{
    if store::is_stored(s, digest, layers) {
        assert(s.layer_digests.deep_view()[i] == layers[i]);
    }
}

/// A destination is left as it is exactly where it is a directory with a file that
/// holds the fingerprint, line ends aside.
pub proof fn destinations_with_the_fingerprint_are_kept(
    facts: DestFacts,
    stamp: Seq<char>,
    back: Seq<char>,
)
    requires
        stamp.len() > 0,
        '!' <= stamp[0] <= '~',
        '!' <= stamp.last() <= '~',
        forall|i: int| 0 <= i < back.len() ==> variables::blank(#[trigger] back[i]),
    ensures
        facts.stamp@ == stamp + back ==> (materialize::up_to_date(facts, stamp) <==> facts.is_dir
            && facts.stamp_is_file),
        materialize::up_to_date(facts, stamp) ==> text::trimmed(facts.stamp@) == stamp,
{
    let none = Seq::<char>::empty();
    variables::blanks_around_a_text_go(none, stamp, back);
    variables::blanks_around_a_text_go(none, stamp, none);
    assert(none + stamp + back =~= stamp + back);
    assert(none + stamp + none =~= stamp);
}

/// Images of Windows and of macOS are refused, all others are unpacked.
pub proof fn only_linux_images_are_unpacked(os: ConfigOs)
    ensures
        materialize::unsupported(os) is Some <==> os is Windows || os is Darwin,
{
}

/// A layer is shown by the first twelve digits of its digest.
pub proof fn layers_are_shown_by_their_digest(hex: Seq<char>)
    requires
        hex.len() >= 12,
        !hex.contains(':'),
    ensures
        progress::front(progress::digest_hex("sha256:"@ + hex), 12) == hex.take(12),
        progress::front(progress::digest_hex(hex), 12) == hex.take(12),
{
    reveal_strlit("sha256:");
    reveal_strlit("sha512:");
    let s = "sha256:"@ + hex;
    assert(s.take(7) =~= "sha256:"@);
    assert(s.skip(7) =~= hex);
    assert(hex[6] != ':') by {
        assert(hex.contains(hex[6]));
    }
    if text::has_prefix(hex, "sha256:"@) {
        assert(hex.take(7)[6] == ':');
    }
    if text::has_prefix(hex, "sha512:"@) {
        assert(hex.take(7)[6] == ':');
    }
    if hex.len() == 12 {
        assert(hex.take(12) =~= hex);
    }
}

/// Two different layers of an image are stored in different files.
pub proof fn layers_have_their_own_files(image: PathView, i: nat, j: nat)
    requires
        store::blob_at(image, i) == store::blob_at(image, j),
    ensures
        i == j,
{
    let a = text::decimal(i);
    let b = text::decimal(j);
    let s = store::blob_at(image, i).parts.last();
    let t = store::blob_at(image, j).parts.last();
    assert(s == a + ".tar.gz"@);
    assert(t == b + ".tar.gz"@);
    assert(a.len() == b.len());
    assert(a =~= s.take(a.len() as int));
    assert(b =~= t.take(b.len() as int));
    variables::decimal_texts_read_back(i);
    variables::decimal_texts_read_back(j);
}

/// Whether an entry of the file is one of a registry: under its address, with or
/// without the version of the protocol, or under the name of the default registry.
pub open spec fn names_registry(key: Seq<char>, registry: Seq<char>) -> bool {
    ||| key == "https://"@ + registry
    ||| key == "https://"@ + registry + "/v1/"@
    ||| key == "https://"@ + registry + "/v2/"@
    ||| key == "https://index.docker.io/v1/"@
}

/// The only entry of a registry gives its credentials whichever of the names it stands
/// under. What it states in one counts before a user name and a password beside it.
pub proof fn entries_count_under_any_name(
    registry: Seq<char>,
    key: String,
    e: AuthEntry,
    user: Seq<char>,
    password: Seq<char>,
)
    requires
        names_registry(key@, registry),
        !user.contains(':'),
    ensures
        e.auth is None && e.username is Some && e.password is Some ==> auth::resolved_auth(
            registry,
            Some(seq![(key, e)]),
            None,
            None,
        ) == AuthView::Basic(e.username->0@, e.password->0@),
        e.auth is Some && auth::base64_decoded(e.auth->0@) == Some(
            encode_utf8(user + seq![':'] + password),
        ) ==> auth::resolved_auth(registry, Some(seq![(key, e)]), None, None) == AuthView::Basic(
            user,
            password,
        ),
        e.auth is None && (e.username is None || e.password is None) ==> auth::resolved_auth(
            registry,
            Some(seq![(key, e)]),
            None,
            None,
        ) is Anonymous,
{
    let entries = seq![(key, e)];
    let keys = auth::candidates(registry);
    credentials_are_name_and_password(user, password);
    lemma_only(entries, keys, 0);
    assert(keys.skip(0) =~= keys);
    assert(keys[0] == "https://"@ + registry);
    assert(keys[1] == "https://"@ + registry + "/v1/"@);
    assert(keys[2] == "https://"@ + registry + "/v2/"@);
    assert(keys[3] == "https://index.docker.io/v1/"@);
}

/// Where there is one entry, it is found under any of the names that are its own.
proof fn lemma_only(entries: Seq<(String, AuthEntry)>, keys: Seq<Seq<char>>, n: int)
    requires
        entries.len() == 1,
        0 <= n <= keys.len(),
    ensures
        auth::first_credentials(entries, keys.skip(n)) == if exists|i: int|
            n <= i < keys.len() && #[trigger] keys[i] == entries[0].0@ {
            auth::entry_credentials(entries[0].1)
        } else {
            None
        },
    decreases keys.len() - n,
{
    let rest = keys.skip(n);
    if n < keys.len() {
        lemma_only(entries, keys, n + 1);
        assert(rest.skip(1) =~= keys.skip(n + 1));
        assert(rest[0] == keys[n]);
        assert(entries.skip(1).len() == 0);
        assert(auth::entry_called(entries.skip(1), rest[0]) is None);
        if exists|i: int| n + 1 <= i < keys.len() && #[trigger] keys[i] == entries[0].0@ {
            let i = choose|i: int| n + 1 <= i < keys.len() && #[trigger] keys[i] == entries[0].0@;
            assert(n <= i < keys.len());
        }
    }
}

/// What is hashed of an image without a digest tells its config and the number and sizes
/// of its layers.
pub proof fn hashed_contents_are_told_apart(
    a: Seq<char>,
    x: Seq<u64>,
    b: Seq<char>,
    y: Seq<u64>,
)
    requires
        store::hashed(a, x) == store::hashed(b, y),
    ensures
        a == b,
        x == y,
    decreases x.len(),
{
    lemma_hashed_len(a, x);
    lemma_hashed_len(b, y);
    assert(x.len() == y.len());
    let u = store::hashed(a, x);
    let v = store::hashed(b, y);
    if x.len() == 0 {
        assert(u[0] == encode_utf8(a));
        assert(v[0] == encode_utf8(b));
        encode_utf8_decode_utf8(a);
        encode_utf8_decode_utf8(b);
        assert(x =~= y);
    } else {
        lemma_auto_spec_u64_to_from_le_bytes();
        assert(u.last() == spec_u64_to_le_bytes(x.last()));
        assert(v.last() == spec_u64_to_le_bytes(y.last()));
        assert(u.drop_last().drop_last() =~= store::hashed(a, x.drop_last()));
        assert(v.drop_last().drop_last() =~= store::hashed(b, y.drop_last()));
        hashed_contents_are_told_apart(a, x.drop_last(), b, y.drop_last());
        assert(x =~= x.drop_last().push(x.last()));
        assert(y =~= y.drop_last().push(y.last()));
    }
}

proof fn lemma_hashed_len(a: Seq<char>, x: Seq<u64>)
    ensures
        store::hashed(a, x).len() == 2 + 2 * x.len(),
    decreases x.len(),
{
    if x.len() > 0 {
        lemma_hashed_len(a, x.drop_last());
    }
}

} // verus!
