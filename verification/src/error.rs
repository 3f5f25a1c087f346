//! Errors produced while pulling images or executing a build.

use vstd::prelude::*;

verus! {

/// What kind of failure the filesystem reported.
#[derive(Debug, Clone, Copy, PartialEq, Eq, Structural)]
pub enum IoKind {
    /// The path does not exist.
    NotFound,
    /// The path exists already.
    AlreadyExists,
    /// Any other failure.
    Other,
}

/// Errors produced while pulling images or executing a build.
#[derive(Debug)]
pub enum Error {
    /// `FROM` / tag string could not be parsed as an OCI reference.
    Reference(String),
    /// Registry HTTP or protocol failure while pulling.
    Registry(String),
    /// Catch-all for build, unpack, and validation failures.
    Other(String),
    /// Filesystem error, with the path that was being accessed when known.
    Io {
        /// Path related to the failure (`<io>` when the origin is unknown).
        path: String,
        /// Kind of the failure.
        kind: IoKind,
        /// Error code of the operating system, when there is one.
        code: Option<i32>,
        /// Description of the failure.
        source: String,
    },
    /// Image `config.json` could not be parsed.
    Config(String),
    /// Dockerfile failed to parse.
    Dockerfile(String),
    /// The backend could not run a command.
    Backend(String),
}

/// An [`Error`] with its texts as character sequences.
pub enum ErrorView {
    Reference(Seq<char>),
    Registry(Seq<char>),
    Other(Seq<char>),
    Io { path: Seq<char>, kind: IoKind, code: Option<i32>, source: Seq<char> },
    Config(Seq<char>),
    Dockerfile(Seq<char>),
    Backend(Seq<char>),
}

impl View for Error {
    type V = ErrorView;

    open spec fn view(&self) -> ErrorView {
        match self {
            Error::Reference(s) => ErrorView::Reference(s@),
            Error::Registry(s) => ErrorView::Registry(s@),
            Error::Other(s) => ErrorView::Other(s@),
            Error::Io { path, kind, code, source } => ErrorView::Io {
                path: path@,
                kind: *kind,
                code: *code,
                source: source@,
            },
            Error::Config(s) => ErrorView::Config(s@),
            Error::Dockerfile(s) => ErrorView::Dockerfile(s@),
            Error::Backend(s) => ErrorView::Backend(s@),
        }
    }
}

/// The text shown for an error.
pub open spec fn error_text(e: ErrorView) -> Seq<char> {
    match e {
        ErrorView::Reference(s) => "invalid image reference: "@ + s,
        ErrorView::Registry(s) => "registry error: "@ + s,
        ErrorView::Other(s) => s,
        ErrorView::Io { path, source, .. } => "failed to read "@ + path + ": "@ + source,
        ErrorView::Config(s) => "invalid image config: "@ + s,
        ErrorView::Dockerfile(s) => s,
        ErrorView::Backend(s) => "backend: "@ + s,
    }
}

/// The description of a failure, without the path in front of it.
pub open spec fn error_reason(e: ErrorView) -> Seq<char> {
    match e {
        ErrorView::Io { source, .. } => source,
        _ => error_text(e),
    }
}

impl Error {
    /// An error that only carries a message.
    pub fn other(msg: &str) -> (r: Self)
        ensures
            r@ == ErrorView::Other(msg@),
    {
        Error::Other(msg.to_owned())
    }

    /// The backend's own error, described by `msg`.
    pub fn backend(msg: &str) -> (r: Self)
        ensures
            r@ == ErrorView::Backend(msg@),
    {
        Error::Backend(msg.to_owned())
    }

    /// A filesystem failure at `path`.
    pub fn io(path: &str, kind: IoKind, code: Option<i32>, source: &str) -> (r: Self)
        ensures
            r@ == (ErrorView::Io { path: path@, kind, code, source: source@ }),
    {
        Error::Io { path: path.to_owned(), kind, code, source: source.to_owned() }
    }

    /// A filesystem failure whose path is not known.
    pub fn from_io(kind: IoKind, code: Option<i32>, source: &str) -> (r: Self)
        ensures
            r@ == (ErrorView::Io { path: "<io>"@, kind, code, source: source@ }),
    {
        Error::io("<io>", kind, code, source)
    }

    /// Whether this is an I/O error for a missing path.
    pub fn is_not_found(&self) -> (r: bool)
        ensures
            r == (self@ matches ErrorView::Io { kind, .. } && kind == IoKind::NotFound),
    {
        match self {
            Error::Io { kind, .. } => *kind == IoKind::NotFound,
            _ => false,
        }
    }

    /// Raw OS error code when this is an I/O failure.
    pub fn raw_os_error(&self) -> (r: Option<i32>)
        ensures
            r == (match self@ {
                ErrorView::Io { code, .. } => code,
                _ => None,
            }),
    {
        match self {
            Error::Io { code, .. } => *code,
            _ => None,
        }
    }

    /// The description of this error, without the path in front of it.
    pub fn reason(&self) -> (r: String)
        ensures
            r@ == error_reason(self@),
    {
        match self {
            Error::Io { source, .. } => source.clone(),
            _ => self.message(),
        }
    }

    /// The text shown for this error.
    pub fn message(&self) -> (r: String)
        ensures
            r@ == error_text(self@),
    {
        match self {
            Error::Reference(s) => "invalid image reference: ".to_owned().concat(s.as_str()),
            Error::Registry(s) => "registry error: ".to_owned().concat(s.as_str()),
            Error::Other(s) => s.clone(),
            Error::Io { path, source, .. } => "failed to read ".to_owned().concat(
                path.as_str(),
            ).concat(": ").concat(source.as_str()),
            Error::Config(s) => "invalid image config: ".to_owned().concat(s.as_str()),
            Error::Dockerfile(s) => s.clone(),
            Error::Backend(s) => "backend: ".to_owned().concat(s.as_str()),
        }
    }
}

} // verus!
