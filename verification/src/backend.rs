//! Execution of Dockerfile `RUN` instructions by a runtime.

use vstd::prelude::*;

use crate::error::{Error, ErrorView};
use crate::path::HostPath;
use crate::path::PathView;
use crate::shown::{self, signed_number};
use crate::text::{self, same_text, to_lower, trim};

verus! {

/// How `RUN` instructions should reach the network.
///
/// Matches Docker's `--network` values. The backend is responsible for
/// enforcing the policy; this crate only records what was requested.
#[derive(Debug, Clone, Copy, PartialEq, Eq, Structural)]
pub enum NetworkMode {
    /// Isolated / NAT networking (Docker `bridge`).
    Bridge,
    /// Share the host network namespace (Docker `host`).
    Host,
    /// No network access (Docker `none`).
    Disabled,
}

/// The mode that a Docker network name stands for.
pub open spec fn network_named(name: Seq<char>) -> Option<NetworkMode> {
    let n = text::lowered(text::trimmed(name));
    if n.len() == 0 || n == "bridge"@ || n == "default"@ {
        Some(NetworkMode::Bridge)
    } else if n == "host"@ {
        Some(NetworkMode::Host)
    } else if n == "none"@ {
        Some(NetworkMode::Disabled)
    } else {
        None
    }
}

/// The canonical Docker name of a mode.
pub open spec fn network_name(mode: NetworkMode) -> Seq<char> {
    match mode {
        NetworkMode::Bridge => "bridge"@,
        NetworkMode::Host => "host"@,
        NetworkMode::Disabled => "none"@,
    }
}

/// The message for a network name that stands for no mode.
pub open spec fn unknown_network(name: Seq<char>) -> Seq<char> {
    "unknown network mode '"@ + text::lowered(text::trimmed(name))
        + "' (expected bridge, host, or none)"@
}

impl Default for NetworkMode {
    /// [`NetworkMode::Bridge`].
    fn default() -> (r: Self)
        ensures
            r == NetworkMode::Bridge,
    {
        NetworkMode::Bridge
    }
}

impl NetworkMode {
    /// Parse a Docker-style network name (`bridge`, `host`, `none`).
    ///
    /// Empty string, `bridge`, and `default` all map to [`Self::Bridge`].
    pub fn parse(name: &str) -> (r: Result<Self, Error>)
        ensures
            match r {
                Ok(m) => network_named(name@) == Some(m),
                Err(e) => network_named(name@) is None && e@ == ErrorView::Other(
                    unknown_network(name@),
                ),
            },
    {
        let n = to_lower(trim(name).as_str());
        let n = n.as_str();
        if n.is_empty() || same_text(n, "bridge") || same_text(n, "default") {
            Ok(NetworkMode::Bridge)
        } else if same_text(n, "host") {
            Ok(NetworkMode::Host)
        } else if same_text(n, "none") {
            Ok(NetworkMode::Disabled)
        } else {
            Err(
                Error::Other(
                    "unknown network mode '".to_owned().concat(n).concat(
                        "' (expected bridge, host, or none)",
                    ),
                ),
            )
        }
    }

    /// Canonical Docker name for this mode (`bridge`, `host`, or `none`).
    pub fn as_str(self) -> (r: &'static str)
        ensures
            r@ == network_name(self),
    {
        match self {
            NetworkMode::Bridge => "bridge",
            NetworkMode::Host => "host",
            NetworkMode::Disabled => "none",
        }
    }
}

/// The canonical name of a mode stands for that mode.
pub proof fn network_name_round_trip(mode: NetworkMode)
    ensures
        network_named(network_name(mode)) == Some(mode),
{
    reveal_strlit("bridge");
    reveal_strlit("host");
    reveal_strlit("none");
    reveal_strlit("default");
    let n = network_name(mode);
    assert(!text::white(n[0]) && !text::white(n.last()));
    assert(text::trimmed_start(n) == n);
    assert(text::trimmed(n) == n);
    assert(text::lowered(n) =~= n);
    assert("none"@[0] == 'n' && "bridge"@[0] == 'b' && "host"@[0] == 'h' && "default"@[0] == 'd');
}

/// A command the backend should execute inside a stage rootfs.
///
/// The path in [`Self::rootfs`] is on the host. [`Self::cwd`] and [`Self::user`]
/// are guest values from the image config / Dockerfile.
#[derive(Debug, Clone)]
pub struct RunRequest {
    /// Host path of the writable stage root filesystem. Treat this directory as
    /// the container's `/`.
    pub rootfs: HostPath,
    /// Process arguments (already expanded; shell form is `[shell..., command]`).
    pub args: Vec<String>,
    /// `KEY=value` environment entries, including image `ENV` and in-scope `ARG`.
    pub env: Vec<String>,
    /// Guest working directory (`WORKDIR`), typically starting with `/`.
    pub cwd: String,
    /// Image `USER` spec (`uid`, `name`, `uid:gid`, ...), if set.
    pub user: Option<String>,
    /// Network policy for this `RUN`.
    pub network: NetworkMode,
}

/// A [`RunRequest`] with its texts as character sequences.
#[verifier::ext_equal]
pub struct RunRequestView {
    pub rootfs: PathView,
    pub args: Seq<Seq<char>>,
    pub env: Seq<Seq<char>>,
    pub cwd: Seq<char>,
    pub user: Option<Seq<char>>,
    pub network: NetworkMode,
}

impl View for RunRequest {
    type V = RunRequestView;

    open spec fn view(&self) -> RunRequestView {
        RunRequestView {
            rootfs: self.rootfs@,
            args: self.args.deep_view(),
            env: self.env.deep_view(),
            cwd: self.cwd@,
            user: self.user.deep_view(),
            network: self.network,
        }
    }
}

/// Outcome of a backend `RUN`.
///
/// A non-zero [`Self::status`] fails the build.
#[derive(Debug, Clone, Copy, PartialEq, Eq, Structural)]
pub struct RunResult {
    /// Process exit status. Non-zero fails the build.
    pub status: i32,
}

impl RunResult {
    /// Successful run (`status == 0`).
    pub fn success() -> (r: Self)
        ensures
            r.status == 0,
    {
        RunResult { status: 0 }
    }

    /// Whether [`Self::status`] is zero.
    pub fn is_success(&self) -> (r: bool)
        ensures
            r == (self.status == 0),
    {
        self.status == 0
    }
}

/// What a finished `RUN` means for the build: a runtime failure and a non-zero
/// exit status both fail it.
pub fn run_outcome(result: Result<RunResult, String>) -> (r: Result<(), Error>)
    ensures
        match result {
            Err(e) => r matches Err(x) && x@ == ErrorView::Backend(e@),
            Ok(run) => if run.status == 0 {
                r is Ok
            } else {
                r matches Err(x) && x@ == ErrorView::Other(
                    "RUN failed with exit code "@ + shown::signed_decimal(run.status as int),
                )
            },
        },
{
    match result {
        Err(e) => Err(Error::backend(e.as_str())),
        Ok(run) => {
            if run.is_success() {
                Ok(())
            } else {
                Err(
                    Error::Other(
                        "RUN failed with exit code ".to_owned().concat(
                            signed_number(run.status).as_str(),
                        ),
                    ),
                )
            }
        },
    }
}

} // verus!
