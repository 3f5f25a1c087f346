//! Registry authentication from Docker-style `config.json` and environment variables.

use base64::Engine;
use vstd::prelude::*;
use vstd::utf8::*;

use crate::meta::copy_text;
use crate::path::{HostPath, PathView};
use crate::reference::Reference;
use crate::text::{self, same_text, split_once};
use crate::winpath::from_utf8;

verus! {

/// Credentials for a registry.
#[derive(Debug)]
pub enum RegistryAuth {
    /// No credentials.
    Anonymous,
    /// User name and password.
    Basic(String, String),
}

/// A [`RegistryAuth`] with its texts as character sequences.
pub enum AuthView {
    Anonymous,
    Basic(Seq<char>, Seq<char>),
}

impl View for RegistryAuth {
    type V = AuthView;

    open spec fn view(&self) -> AuthView {
        match self {
            RegistryAuth::Anonymous => AuthView::Anonymous,
            RegistryAuth::Basic(u, p) => AuthView::Basic(u@, p@),
        }
    }
}

/// What `config.json` holds for one registry.
#[derive(Debug)]
pub struct AuthEntry {
    /// User name and password in one, encoded.
    pub auth: Option<String>,
    /// User name.
    pub username: Option<String>,
    /// Password.
    pub password: Option<String>,
}

/// The directory that is used for `config.json` in place of the default ones.
#[derive(Debug)]
pub struct ConfigOverride {
    /// The directory, if one is forced.
    pub dir: Option<HostPath>,
}

/// Override the client config directory used for registry auth (`config.json`).
///
/// When `None`, the default search order is restored: `DOCKER_CONFIG`,
/// `BUILDKIT_CONFIG`, then `~/.docker`. Pass `Some` to force a directory
/// (tests, isolated clients). Docker itself does not need to be installed.
pub fn set_config_dir(state: &mut ConfigOverride, path: Option<HostPath>)
    ensures
        final(state).dir == path,
{
    state.dir = path;
}

/// The directory that settles where `config.json` is: the forced one, then those of
/// the two variables, then the one in the user's home.
pub open spec fn config_dir(
    forced: Option<HostPath>,
    docker_config: Option<HostPath>,
    buildkit_config: Option<HostPath>,
    home: Option<HostPath>,
) -> Option<PathView> {
    match (forced, docker_config, buildkit_config, home) {
        (Some(d), _, _, _) => Some(d@),
        (None, Some(d), _, _) => Some(d@),
        (None, None, Some(d), _) => Some(d@),
        (None, None, None, Some(h)) => Some(h@.child(".docker"@)),
        (None, None, None, None) => None,
    }
}

/// The path of `config.json`: under the forced directory, `DOCKER_CONFIG`,
/// `BUILDKIT_CONFIG`, or `~/.docker`.
pub fn docker_config_path(
    state: &ConfigOverride,
    docker_config: &Option<HostPath>,
    buildkit_config: &Option<HostPath>,
    home: &Option<HostPath>,
) -> (r: Option<HostPath>)
    ensures
        match r {
            Some(p) => config_dir(
                state.dir,
                *docker_config,
                *buildkit_config,
                *home,
            ) matches Some(d) && p@ == d.child("config.json"@),
            None => config_dir(state.dir, *docker_config, *buildkit_config, *home) is None,
        },
{
    if let Some(dir) = &state.dir {
        return Some(dir.join("config.json"));
    }
    if let Some(dir) = docker_config {
        return Some(dir.join("config.json"));
    }
    if let Some(dir) = buildkit_config {
        return Some(dir.join("config.json"));
    }
    match home {
        Some(dir) => Some(dir.join(".docker").join("config.json")),
        None => None,
    }
}

/// The bytes that a text stands for in padded standard base64, if it stands for any.
pub uninterp spec fn base64_decoded(s: Seq<char>) -> Option<Seq<u8>>;

/// `Engine::decode` of the `base64` crate with its `STANDARD` engine. The result
/// depends on the text alone.
#[verifier::external_body]
fn base64_decode(s: &str) -> (r: Option<Vec<u8>>)
    ensures
        match r {
            Some(b) => base64_decoded(s@) matches Some(x) && x == b@,
            None => base64_decoded(s@) is None,
        },
{
    base64::engine::general_purpose::STANDARD.decode(s).ok()
}

/// What stands before and behind the first colon of a text in UTF-8.
pub open spec fn credentials(decoded: Option<Seq<u8>>) -> Option<(Seq<char>, Seq<char>)> {
    match decoded {
        Some(b) if valid_utf8(b) => text::cut(decode_utf8(b), ':'),
        _ => None,
    }
}

/// Whether a pair of texts is what `expected` says.
pub open spec fn pair_is(
    r: Option<(String, String)>,
    expected: Option<(Seq<char>, Seq<char>)>,
) -> bool {
    match r {
        Some((a, b)) => expected == Some((a@, b@)),
        None => expected is None,
    }
}

/// User name and password from `user:password` in UTF-8.
pub fn split_credentials(decoded: Option<Vec<u8>>) -> (r: Option<(String, String)>)
    ensures
        pair_is(
            r,
            credentials(
                match decoded {
                    Some(b) => Some(b@),
                    None => None,
                },
            ),
        ),
{
    match decoded {
        None => None,
        Some(b) => match from_utf8(b) {
            None => None,
            Some(pair) => {
                proof {
                    encode_utf8_decode_utf8(pair@);
                }
                split_once(pair.as_str(), ':')
            },
        },
    }
}

/// User name and password from an encoded `user:password`.
pub fn decode_basic(auth: &str) -> (r: Option<(String, String)>)
    ensures
        pair_is(r, credentials(base64_decoded(auth@))),
{
    split_credentials(base64_decode(auth))
}

/// The credentials of an entry: those in one, else the two by themselves.
pub open spec fn entry_credentials(e: AuthEntry) -> Option<(Seq<char>, Seq<char>)> {
    let alone = match (e.username, e.password) {
        (Some(u), Some(p)) => Some((u@, p@)),
        _ => None,
    };
    match e.auth {
        Some(a) => match credentials(base64_decoded(a@)) {
            Some(pair) => Some(pair),
            None => alone,
        },
        None => alone,
    }
}

/// The names under which `config.json` can hold a registry, in the order in which
/// they are tried.
pub open spec fn candidates(registry: Seq<char>) -> Seq<Seq<char>> {
    seq![
        "https://"@ + registry,
        "https://"@ + registry + "/v1/"@,
        "https://"@ + registry + "/v2/"@,
        "https://index.docker.io/v1/"@,
    ]
}

/// The first entry called `key`.
pub open spec fn entry_called(entries: Seq<(String, AuthEntry)>, key: Seq<char>) -> Option<AuthEntry>
    decreases entries.len(),
{
    if entries.len() == 0 {
        None
    } else if entries[0].0@ == key {
        Some(entries[0].1)
    } else {
        entry_called(entries.skip(1), key)
    }
}

/// The credentials of the first of these names that has an entry with credentials.
pub open spec fn first_credentials(
    entries: Seq<(String, AuthEntry)>,
    keys: Seq<Seq<char>>,
) -> Option<(Seq<char>, Seq<char>)>
    decreases keys.len(),
{
    if keys.len() == 0 {
        None
    } else {
        match entry_called(entries, keys[0]) {
            Some(e) => match entry_credentials(e) {
                Some(pair) => Some(pair),
                None => first_credentials(entries, keys.skip(1)),
            },
            None => first_credentials(entries, keys.skip(1)),
        }
    }
}

/// The credentials of an entry.
fn credentials_of(e: &AuthEntry) -> (r: Option<(String, String)>)
    ensures
        pair_is(r, entry_credentials(*e)),
{
    if let Some(a) = &e.auth {
        if let Some(pair) = decode_basic(a.as_str()) {
            return Some(pair);
        }
    }
    match (copy_text(&e.username), copy_text(&e.password)) {
        (Some(u), Some(p)) => Some((u, p)),
        _ => None,
    }
}

/// The position of the first entry called `key`, or the number of entries.
fn find_entry(entries: &Vec<(String, AuthEntry)>, key: &str) -> (r: usize)
    ensures
        r <= entries@.len(),
        match entry_called(entries@, key@) {
            Some(e) => r < entries@.len() && entries@[r as int].1 == e,
            None => r == entries@.len(),
        },
{
    let mut i: usize = 0;
    assert(entries@.skip(0) =~= entries@);
    while i < entries.len()
        invariant
            i <= entries@.len(),
            entry_called(entries@, key@) == entry_called(entries@.skip(i as int), key@),
        decreases entries@.len() - i,
    {
        if same_text(entries[i].0.as_str(), key) {
            assert(entries@.skip(i as int)[0] == entries@[i as int]);
            return i;
        }
        assert(entries@.skip(i as int).skip(1) =~= entries@.skip(i + 1));
        i += 1;
    }
    i
}

/// The names under which `config.json` can hold a registry.
fn candidate_keys(registry: &str) -> (r: Vec<String>)
    ensures
        r.deep_view() == candidates(registry@),
{
    let base = "https://".to_owned().concat(registry);
    let v1 = base.clone().concat("/v1/");
    let v2 = base.clone().concat("/v2/");
    let out = vec![base, v1, v2, "https://index.docker.io/v1/".to_owned()];
    assert(out.deep_view() =~= candidates(registry@));
    out
}

/// The credentials that the entries of `config.json` hold for a registry.
pub fn auth_from_docker_config(registry: &str, entries: &Vec<(String, AuthEntry)>) -> (r: Option<
    (String, String),
>)
    ensures
        pair_is(r, first_credentials(entries@, candidates(registry@))),
{
    let keys = candidate_keys(registry);
    let ghost all = keys.deep_view();
    assert(all.skip(0) =~= all);
    for i in 0..keys.len()
        invariant
            all == keys.deep_view(),
            first_credentials(entries@, all) == first_credentials(entries@, all.skip(i as int)),
            all == candidates(registry@),
    {
        assert(all.skip(i as int)[0] == keys@[i as int]@);
        assert(all.skip(i as int).skip(1) =~= all.skip(i + 1));
        let at = find_entry(entries, keys[i].as_str());
        if at < entries.len() {
            if let Some(pair) = credentials_of(&entries[at].1) {
                return Some(pair);
            }
        }
    }
    None
}

/// The credentials for a registry: those of `config.json`, else those of the
/// environment, else none.
pub open spec fn resolved_auth(
    registry: Seq<char>,
    entries: Option<Seq<(String, AuthEntry)>>,
    user: Option<Seq<char>>,
    password: Option<Seq<char>>,
) -> AuthView {
    let in_file = match entries {
        Some(e) => first_credentials(e, candidates(registry)),
        None => None,
    };
    match (in_file, user, password) {
        (Some((u, p)), _, _) => AuthView::Basic(u, p),
        (None, Some(u), Some(p)) => AuthView::Basic(u, p),
        _ => AuthView::Anonymous,
    }
}

/// Resolve registry credentials for `reference`.
///
/// Search order:
/// 1. the entries of `config.json`, where it could be read
/// 2. `BUILDKIT_REGISTRY_USER` and `BUILDKIT_REGISTRY_PASSWORD`
/// 3. Anonymous
pub fn auth_for_reference(
    reference: &Reference,
    entries: &Option<Vec<(String, AuthEntry)>>,
    user: Option<String>,
    password: Option<String>,
) -> (r: RegistryAuth)
    ensures
        r@ == resolved_auth(
            reference@.registry,
            match entries {
                Some(e) => Some(e@),
                None => None,
            },
            user.deep_view(),
            password.deep_view(),
        ),
{
    if let Some(e) = entries {
        if let Some((u, p)) = auth_from_docker_config(reference.registry.as_str(), e) {
            return RegistryAuth::Basic(u, p);
        }
    }
    match (user, password) {
        (Some(u), Some(p)) => RegistryAuth::Basic(u, p),
        _ => RegistryAuth::Anonymous,
    }
}

} // verus!
