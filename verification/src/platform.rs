//! OCI platform selection for pulls and builds.

use vstd::prelude::*;

use crate::shown::{self, quote, to_lowercase};
use crate::text::{self, same_text, split_once, trim};

verus! {

/// OCI platform selector, for example `linux/amd64`.
///
/// Only Linux images can be unpacked. [`Self::parse`] rejects `windows/*` and
/// `darwin/*`.
#[derive(Debug, Clone, PartialEq, Eq)]
pub struct Platform {
    /// OS name from the image index (`linux`).
    pub os: String,
    /// CPU architecture (`amd64`, `arm64`, ...).
    pub architecture: String,
}

/// A [`Platform`] with its texts as character sequences.
pub struct PlatformView {
    pub os: Seq<char>,
    pub architecture: Seq<char>,
}

impl View for Platform {
    type V = PlatformView;

    open spec fn view(&self) -> PlatformView {
        PlatformView { os: self.os@, architecture: self.architecture@ }
    }
}

/// The platform with the given names, where it is a Linux platform; otherwise
/// the reason why not.
pub open spec fn linux_platform(
    os: Seq<char>,
    architecture: Seq<char>,
) -> Result<PlatformView, Seq<char>> {
    if os == "linux"@ {
        Ok(PlatformView { os, architecture })
    } else {
        Err(
            "only linux/* platforms are supported (got "@ + os + "/"@ + architecture + ")"@,
        )
    }
}

/// The two sides of the slash in a platform text, or the reason why there are
/// no two sides.
pub open spec fn platform_parts(spec: Seq<char>) -> Result<(Seq<char>, Seq<char>), Seq<char>> {
    match text::cut(spec, '/') {
        None => Err("expected os/architecture, got "@ + shown::quoted(spec)),
        Some((os, arch)) => if os.len() == 0 || arch.len() == 0 {
            Err("invalid platform "@ + shown::quoted(spec))
        } else {
            Ok((os, arch))
        },
    }
}

/// The platform that a text names.
pub open spec fn parsed_platform(spec: Seq<char>) -> Result<PlatformView, Seq<char>> {
    match platform_parts(text::trimmed(spec)) {
        Err(e) => Err(e),
        Ok((os, arch)) => linux_platform(shown::lowercase(os), shown::lowercase(arch)),
    }
}

/// The platform that a text of ASCII characters names.
pub open spec fn ascii_platform(spec: Seq<char>) -> Result<PlatformView, Seq<char>> {
    match platform_parts(text::trimmed(spec)) {
        Err(e) => Err(e),
        Ok((os, arch)) => linux_platform(text::lowered(os), text::lowered(arch)),
    }
}

/// Trimming leaves only characters that were there.
proof fn lemma_ascii_trimmed_start(s: Seq<char>)
    requires
        shown::ascii(s),
    ensures
        shown::ascii(text::trimmed_start(s)),
    decreases s.len(),
{
    if s.len() > 0 && text::white(s[0]) {
        assert forall|i: int| 0 <= i < s.skip(1).len() implies (#[trigger] s.skip(1)[i] as u32)
            < 128 by {
            assert((s[i + 1] as u32) < 128);
        }
        lemma_ascii_trimmed_start(s.skip(1));
    }
}

/// Trimming leaves only characters that were there.
proof fn lemma_ascii_trimmed_end(s: Seq<char>)
    requires
        shown::ascii(s),
    ensures
        shown::ascii(text::trimmed_end(s)),
    decreases s.len(),
{
    if s.len() > 0 && text::white(s.last()) {
        lemma_ascii_trimmed_end(s.drop_last());
    }
}

/// Whether a result holds what `expected` says.
pub open spec fn platform_result(
    r: Result<Platform, String>,
    expected: Result<PlatformView, Seq<char>>,
) -> bool {
    match r {
        Ok(p) => expected == Ok::<PlatformView, Seq<char>>(p@),
        Err(e) => expected == Err::<PlatformView, Seq<char>>(e@),
    }
}

impl Platform {
    /// `linux/amd64`.
    pub fn linux_amd64() -> (r: Self)
        ensures
            r@ == (PlatformView { os: "linux"@, architecture: "amd64"@ }),
    {
        Platform { os: "linux".to_owned(), architecture: "amd64".to_owned() }
    }

    /// The platform with these names, which must be in lower case.
    ///
    /// # Errors
    ///
    /// Returns a message if `os` is not `linux`.
    pub fn linux(os: String, architecture: String) -> (r: Result<Self, String>)
        ensures
            platform_result(r, linux_platform(os@, architecture@)),
    {
        if !same_text(os.as_str(), "linux") {
            return Err(
                "only linux/* platforms are supported (got ".to_owned().concat(
                    os.as_str(),
                ).concat("/").concat(architecture.as_str()).concat(")"),
            );
        }
        Ok(Platform { os, architecture })
    }

    /// The names on the two sides of the slash.
    pub fn split(spec: &str) -> (r: Result<(String, String), String>)
        ensures
            match r {
                Ok((os, arch)) => platform_parts(spec@) == Ok::<
                    (Seq<char>, Seq<char>),
                    Seq<char>,
                >((os@, arch@)),
                Err(e) => platform_parts(spec@) == Err::<(Seq<char>, Seq<char>), Seq<char>>(e@),
            },
    {
        match split_once(spec, '/') {
            None => Err("expected os/architecture, got ".to_owned().concat(quote(spec).as_str())),
            Some((os, arch)) => {
                if os.as_str().is_empty() || arch.as_str().is_empty() {
                    return Err("invalid platform ".to_owned().concat(quote(spec).as_str()));
                }
                Ok((os, arch))
            },
        }
    }

    /// Parse `os/architecture` (case-insensitive).
    ///
    /// # Errors
    ///
    /// Returns a message if the string is not `os/arch` or if `os` is not
    /// `linux`.
    pub fn parse(spec: &str) -> (r: Result<Self, String>)
        ensures
            platform_result(r, parsed_platform(spec@)),
            shown::ascii(spec@) ==> platform_result(r, ascii_platform(spec@)),
            r matches Ok(p) ==> p@.os == "linux"@,
    {
        let whole = trim(spec);
        match Platform::split(whole.as_str()) {
            Err(e) => Err(e),
            Ok((os, arch)) => {
                proof {
                    if shown::ascii(spec@) {
                        lemma_ascii_trimmed_start(spec@);
                        lemma_ascii_trimmed_end(text::trimmed_start(spec@));
                        let i = text::first_of(whole@, '/');
                        text::lemma_first_of_bounds(whole@, '/');
                        assert(shown::ascii(whole@.take(i)));
                        assert forall|k: int| 0 <= k < arch@.len() implies (#[trigger] arch@[k]
                            as u32) < 128 by {
                            assert((whole@[k + i + 1] as u32) < 128);
                        }
                    }
                }
                Platform::linux(to_lowercase(os.as_str()), to_lowercase(arch.as_str()))
            },
        }
    }

    /// A copy of the platform.
    pub fn copy(&self) -> (r: Self)
        ensures
            r@ == self@,
    {
        Platform { os: self.os.clone(), architecture: self.architecture.clone() }
    }

    /// Whether the two platforms are the same.
    pub fn same(&self, other: &Platform) -> (r: bool)
        ensures
            r == (self@ == other@),
    {
        same_text(self.os.as_str(), other.os.as_str()) && same_text(
            self.architecture.as_str(),
            other.architecture.as_str(),
        )
    }

    /// `os/architecture`.
    pub fn to_text(&self) -> (r: String)
        ensures
            r@ == self@.os + "/"@ + self@.architecture,
    {
        self.os.clone().concat("/").concat(self.architecture.as_str())
    }
}

/// The default platform of a host.
pub open spec fn default_platform(apple_silicon: bool) -> PlatformView {
    PlatformView {
        os: "linux"@,
        architecture: if apple_silicon {
            "arm64"@
        } else {
            "amd64"@
        },
    }
}

/// Default platform for pulls and builds.
///
/// `linux/arm64` on Apple Silicon; `linux/amd64` on every other host
/// (including Windows, where images still run through a Linux ABI layer).
pub fn default_pull_platform(apple_silicon: bool) -> (r: Platform)
    ensures
        r@ == default_platform(apple_silicon),
{
    if apple_silicon {
        Platform { os: "linux".to_owned(), architecture: "arm64".to_owned() }
    } else {
        Platform::linux_amd64()
    }
}

/// One manifest listed by an image index.
#[derive(Debug)]
pub struct IndexEntry {
    /// Platform that the manifest is for, when the index says so.
    pub platform: Option<Platform>,
    /// Digest of the manifest.
    pub digest: String,
}

/// Whether an index entry is for `platform`.
pub open spec fn entry_for(entry: IndexEntry, platform: PlatformView) -> bool {
    entry.platform matches Some(p) && p@ == platform
}

/// Pick the manifest for `platform` from an image index: the digest of the
/// first entry for that platform.
pub fn platform_resolver(platform: &Platform, manifests: &Vec<IndexEntry>) -> (r: Option<String>)
    ensures
        match r {
            Some(d) => exists|i: int|
                {
                    &&& 0 <= i < manifests@.len()
                    &&& entry_for(manifests@[i], platform@)
                    &&& d@ == (#[trigger] manifests@[i]).digest@
                    &&& forall|k: int| 0 <= k < i ==> !entry_for(#[trigger] manifests@[k], platform@)
                },
            None => forall|k: int|
                0 <= k < manifests@.len() ==> !entry_for(#[trigger] manifests@[k], platform@),
        },
{
    for i in 0..manifests.len()
        invariant
            forall|k: int| 0 <= k < i ==> !entry_for(#[trigger] manifests@[k], platform@),
    {
        let hit = match &manifests[i].platform {
            Some(p) => p.same(platform),
            None => false,
        };
        if hit {
            assert(entry_for(manifests@[i as int], platform@));
            return Some(manifests[i].digest.clone());
        }
    }
    None
}

} // verus!
