//! Image reference parsing.

use std::str::FromStr;

use vstd::prelude::*;

use crate::error::{Error, ErrorView};
use crate::meta::copy_text;
use crate::text::{self, strip_prefix, trim};

verus! {

/// A reference to an image in an OCI registry.
#[derive(Debug, Clone, PartialEq, Eq)]
pub struct Reference {
    /// Name of the registry.
    pub registry: String,
    /// Name of the repository.
    pub repository: String,
    /// Tag, if present.
    pub tag: Option<String>,
    /// Digest, if present.
    pub digest: Option<String>,
}

/// A [`Reference`] with its texts as character sequences.
pub struct ReferenceView {
    pub registry: Seq<char>,
    pub repository: Seq<char>,
    pub tag: Option<Seq<char>>,
    pub digest: Option<Seq<char>>,
}

impl View for Reference {
    type V = ReferenceView;

    open spec fn view(&self) -> ReferenceView {
        ReferenceView {
            registry: self.registry@,
            repository: self.repository@,
            tag: self.tag.deep_view(),
            digest: self.digest.deep_view(),
        }
    }
}

/// What `mark` introduces, appended to `s`; the mark is left out where nothing
/// precedes it.
pub open spec fn marked(s: Seq<char>, mark: Seq<char>, part: Option<Seq<char>>) -> Seq<char> {
    match part {
        None => s,
        Some(p) => if s.len() == 0 {
            p
        } else {
            s + mark + p
        },
    }
}

impl ReferenceView {
    /// `registry/repository[:tag][@digest]`.
    pub open spec fn whole(self) -> Seq<char> {
        let name = if self.registry.len() == 0 {
            self.repository
        } else {
            self.registry + "/"@ + self.repository
        };
        marked(marked(name, ":"@, self.tag), "@"@, self.digest)
    }
}

/// The reference that the OCI grammar reads in a text, or the reason why the
/// text is none.
pub uninterp spec fn oci_reference(s: Seq<char>) -> Result<ReferenceView, Seq<char>>;

/// `oci_distribution::Reference::from_str`, with the parsed reference taken
/// apart and the error as its text. The result depends on the text alone. A
/// parsed reference always has a tag or a digest, and the empty text is no
/// reference.
#[verifier::external_body]
fn oci_parse(s: &str) -> (r: Result<Reference, String>)
    ensures
        match r {
            Ok(x) => oci_reference(s@) == Ok::<ReferenceView, Seq<char>>(x@),
            Err(e) => oci_reference(s@) == Err::<ReferenceView, Seq<char>>(e@),
        },
        r matches Ok(x) ==> x@.tag is Some || x@.digest is Some,
        s@.len() == 0 ==> r is Err,
{
    match oci_distribution::Reference::from_str(s) {
        Ok(x) => Ok(
            Reference {
                registry: x.registry().to_owned(),
                repository: x.repository().to_owned(),
                tag: x.tag().map(str::to_owned),
                digest: x.digest().map(str::to_owned),
            },
        ),
        Err(e) => Err(e.to_string()),
    }
}

impl Reference {
    /// A copy of the reference.
    pub fn copy(&self) -> (r: Self)
        ensures
            r@ == self@,
    {
        Reference {
            registry: self.registry.clone(),
            repository: self.repository.clone(),
            tag: copy_text(&self.tag),
            digest: copy_text(&self.digest),
        }
    }

    /// The whole reference as text.
    pub fn whole(&self) -> (r: String)
        ensures
            r@ == self@.whole(),
    {
        let mut s = if self.registry.as_str().is_empty() {
            self.repository.clone()
        } else {
            self.registry.clone().concat("/").concat(self.repository.as_str())
        };
        if let Some(t) = &self.tag {
            if !s.as_str().is_empty() {
                s.append(":");
            } else {
                assert(s@ + t@ =~= t@);
            }
            s.append(t.as_str());
        }
        if let Some(d) = &self.digest {
            if !s.as_str().is_empty() {
                s.append("@");
            } else {
                assert(s@ + d@ =~= d@);
            }
            s.append(d.as_str());
        }
        s
    }
}

/// An image name without the white space around it and without a `docker://`
/// or `oci://` in front.
pub open spec fn without_scheme(image: Seq<char>) -> Seq<char> {
    let t = text::trimmed(image);
    match text::after_prefix(t, "docker://"@) {
        Some(rest) => rest,
        None => match text::after_prefix(t, "oci://"@) {
            Some(rest) => rest,
            None => t,
        },
    }
}

/// What a parsed or refused name means for the caller: a refused name is
/// reported together with the reason.
pub open spec fn reference_outcome(
    name: Seq<char>,
    parsed: Result<ReferenceView, Seq<char>>,
) -> Result<ReferenceView, ErrorView> {
    match parsed {
        Ok(r) => Ok(r),
        Err(e) => Err(ErrorView::Reference(name + ": "@ + e)),
    }
}

/// Whether a result holds what `expected` says.
pub open spec fn reference_result(
    r: Result<Reference, Error>,
    expected: Result<ReferenceView, ErrorView>,
) -> bool {
    match r {
        Ok(x) => expected == Ok::<ReferenceView, ErrorView>(x@),
        Err(e) => expected == Err::<ReferenceView, ErrorView>(e@),
    }
}

/// An image name without the white space around it and without its scheme.
pub fn strip_scheme(image: &str) -> (r: String)
    ensures
        r@ == without_scheme(image@),
{
    let trimmed = trim(image);
    match strip_prefix(trimmed.as_str(), "docker://") {
        Some(rest) => rest,
        None => match strip_prefix(trimmed.as_str(), "oci://") {
            Some(rest) => rest,
            None => trimmed,
        },
    }
}

/// Report the outcome of parsing `name`.
pub fn report_reference(name: &str, parsed: Result<Reference, String>) -> (r: Result<
    Reference,
    Error,
>)
    ensures
        match parsed {
            Ok(x) => reference_result(r, reference_outcome(name@, Ok(x@))),
            Err(e) => reference_result(r, reference_outcome(name@, Err(e@))),
        },
{
    match parsed {
        Ok(x) => Ok(x),
        Err(e) => Err(Error::Reference(name.to_owned().concat(": ").concat(e.as_str()))),
    }
}

/// Parse a user-facing image reference.
///
/// Accepts Docker Hub short names (`hello-world`), fully qualified names
/// (`docker.io/library/alpine:3.19`), and scheme prefixes `docker://` /
/// `oci://`.
///
/// # Errors
///
/// Returns [`Error::Reference`] when the string is not a valid OCI reference.
pub fn parse_reference(image: &str) -> (r: Result<Reference, Error>)
    ensures
        reference_result(
            r,
            reference_outcome(without_scheme(image@), oci_reference(without_scheme(image@))),
        ),
        r matches Ok(x) ==> x@.tag is Some || x@.digest is Some,
        without_scheme(image@).len() == 0 ==> r is Err,
{
    let name = strip_scheme(image);
    let parsed = oci_parse(name.as_str());
    report_reference(name.as_str(), parsed)
}

} // verus!
