//! Inputs and outputs for a local Dockerfile build.

use vstd::prelude::*;

use crate::backend::NetworkMode;
use crate::path::{HostPath, PathView};
use crate::platform::{Platform, PlatformView};
use crate::vars::{self, Vars};

verus! {

/// Inputs for a local image build.
///
/// Mirrors common `docker build` flags. Construct with [`Self::new`] and chain
/// setters.
#[derive(Debug, Clone)]
pub struct BuildRequest {
    /// Build context directory (`.` in `docker build .`).
    pub context: HostPath,
    /// Dockerfile path, relative to `context` unless absolute.
    pub dockerfile: HostPath,
    /// Image tags to write (`name:tag`). Defaults to `buildkit:latest` if empty.
    pub tags: Vec<String>,
    /// `--build-arg` overrides keyed by argument name.
    pub build_args: Vars,
    /// Named or numeric `--target` stage. `None` builds the last stage.
    pub target: Option<String>,
    /// Target platform. Defaults to [`crate::platform::default_pull_platform`].
    pub platform: Option<Platform>,
    /// Always consult the registry for `FROM` images, even if cached locally.
    pub pull: bool,
    /// Skip local layer cache lookups (still writes new cache entries).
    pub no_cache: bool,
    /// Network mode for `RUN` unless a `RUN --network=` flag overrides it.
    pub network: NetworkMode,
}

/// A [`BuildRequest`] with its texts as character sequences.
#[verifier::ext_equal]
pub struct RequestView {
    pub context: PathView,
    pub dockerfile: PathView,
    pub tags: Seq<Seq<char>>,
    pub build_args: Seq<(Seq<char>, Seq<char>)>,
    pub target: Option<Seq<char>>,
    pub platform: Option<PlatformView>,
    pub pull: bool,
    pub no_cache: bool,
    pub network: NetworkMode,
}

impl View for BuildRequest {
    type V = RequestView;

    open spec fn view(&self) -> RequestView {
        RequestView {
            context: self.context@,
            dockerfile: self.dockerfile@,
            tags: self.tags.deep_view(),
            build_args: self.build_args.pairs(),
            target: self.target.deep_view(),
            platform: match self.platform {
                Some(p) => Some(p@),
                None => None,
            },
            pull: self.pull,
            no_cache: self.no_cache,
            network: self.network,
        }
    }
}

impl BuildRequest {
    /// Build the context at `context`, using `Dockerfile` in that directory.
    ///
    /// Tags default to `buildkit:latest` when none are added with [`Self::tag`].
    pub fn new(context: HostPath) -> (r: Self)
        ensures
            r@ == (RequestView {
                context: context@,
                dockerfile: PathView { anchor: Seq::empty(), parts: seq!["Dockerfile"@] },
                tags: Seq::empty(),
                build_args: Seq::empty(),
                target: None,
                platform: None,
                pull: false,
                no_cache: false,
                network: NetworkMode::Bridge,
            }),
    {
        let dockerfile = HostPath { anchor: String::new(), parts: vec!["Dockerfile".to_owned()] };
        assert(dockerfile@.parts =~= seq!["Dockerfile"@]);
        assert(dockerfile@.anchor =~= Seq::<char>::empty());
        let tags: Vec<String> = Vec::new();
        assert(tags.deep_view() =~= Seq::<Seq<char>>::empty());
        BuildRequest {
            context,
            dockerfile,
            tags,
            build_args: Vars::new(),
            target: None,
            platform: None,
            pull: false,
            no_cache: false,
            network: NetworkMode::default(),
        }
    }

    /// Set the Dockerfile path (relative to the context unless absolute).
    pub fn dockerfile(self, path: HostPath) -> (r: Self)
        ensures
            r@ == (RequestView { dockerfile: path@, ..self@ }),
    {
        BuildRequest { dockerfile: path, ..self }
    }

    /// Append an image tag (`name:tag`) to write on success.
    pub fn tag(self, tag: &str) -> (r: Self)
        ensures
            r@ == (RequestView { tags: self@.tags.push(tag@), ..self@ }),
    {
        let ghost before = self.tags.deep_view();
        let mut tags = self.tags;
        tags.push(tag.to_owned());
        assert(tags.deep_view() =~= before.push(tag@));
        BuildRequest { tags, ..self }
    }

    /// Append several image tags.
    pub fn tags(self, tags: Vec<String>) -> (r: Self)
        ensures
            r@ == (RequestView { tags: self@.tags + tags.deep_view(), ..self@ }),
    {
        let ghost before = self.tags.deep_view();
        let ghost more = tags.deep_view();
        let mut new = tags;
        let mut tags = self.tags;
        tags.append(&mut new);
        assert(tags.deep_view() =~= before + more);
        BuildRequest { tags, ..self }
    }

    /// Set a `--build-arg` override.
    pub fn arg(self, key: &str, value: &str) -> (r: Self)
        ensures
            r@ == (RequestView {
                build_args: vars::with_pair(self@.build_args, key@, value@),
                ..self@
            }),
            r.build_args@ == self.build_args@.insert(key@, value@),
    {
        let mut build_args = self.build_args;
        build_args.insert(key.to_owned(), value.to_owned());
        BuildRequest { build_args, ..self }
    }

    /// Build only this named or numeric stage (`--target`).
    pub fn target(self, target: &str) -> (r: Self)
        ensures
            r@ == (RequestView { target: Some(target@), ..self@ }),
    {
        BuildRequest { target: Some(target.to_owned()), ..self }
    }

    /// Set the target platform (for example `linux/amd64`).
    pub fn platform(self, platform: Platform) -> (r: Self)
        ensures
            r@ == (RequestView { platform: Some(platform@), ..self@ }),
    {
        BuildRequest { platform: Some(platform), ..self }
    }

    /// When `true`, always consult the registry for `FROM` images.
    pub fn pull(self, pull: bool) -> (r: Self)
        ensures
            r@ == (RequestView { pull, ..self@ }),
    {
        BuildRequest { pull, ..self }
    }

    /// When `true`, skip local layer cache lookups.
    pub fn no_cache(self, no_cache: bool) -> (r: Self)
        ensures
            r@ == (RequestView { no_cache, ..self@ }),
    {
        BuildRequest { no_cache, ..self }
    }

    /// Set the default network mode for `RUN`.
    pub fn network(self, network: NetworkMode) -> (r: Self)
        ensures
            r@ == (RequestView { network, ..self@ }),
    {
        BuildRequest { network, ..self }
    }
}

/// Result of a successful build.
#[derive(Debug, Clone)]
pub struct BuildResult {
    /// Tags written to the image store (at least one).
    pub tags: Vec<String>,
    /// Local image identifiers recorded for those tags.
    pub image_ids: Vec<String>,
}

} // verus!
