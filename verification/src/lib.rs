//! Build OCI images from Dockerfiles, with a pluggable execution backend.
//!
//! The rules of a build are verified functions on plain values. Whoever drives a build
//! reads files, registries and clocks, hands over what was found, and carries out the
//! steps that come back.
//!
//! - A build runs as the state machine [`solve::Solve`] over the instructions that
//!   [`stage`] applies, with cache keys from [`cache`] and stage rules from
//!   [`executor`].
//! - [`context`] and [`copying`] decide what `COPY` and `ADD` bring where, and
//!   [`transfer`] does so source by source.
//! - [`unpack`], [`rootfs`] and [`materialize`] turn layers into a root filesystem;
//!   [`archive`], [`config`] and [`export`] turn a root filesystem into an image.
//! - [`layer_cache`], [`overlay2`], [`merge`] and [`changeset`] are the instruction
//!   cache, [`fs_cache`] is its variant with whole snapshots.
//! - [`store`] lays out images on disk, [`pull`], [`reference`] and [`auth`] get them
//!   from registries.
//! - Steps on a filesystem are planned as [`fs::Step`]s; [`effect`] says what they do.

pub mod archive;
pub mod auth;
pub mod backend;
pub mod buildkit;
pub mod cache;
pub mod changeset;
pub mod config;
pub mod context;
pub mod copying;
pub mod digest;
pub mod dockerfile;
pub mod effect;
pub mod error;
pub mod executor;
pub mod expand;
pub mod export;
pub mod fs;
pub mod fs_cache;
pub mod fsutil;
pub mod hash;
pub mod laws;
pub mod layer_cache;
pub mod materialize;
pub mod merge;
pub mod meta;
pub mod order;
pub mod overlay2;
pub mod packing;
pub mod path;
pub mod platform;
pub mod progress;
pub mod pull;
pub mod reference;
pub mod request;
pub mod rootfs;
pub mod shown;
pub mod solve;
pub mod stage;
pub mod store;
pub mod text;
pub mod transfer;
pub mod tree;
pub mod unpack;
pub mod vars;
pub mod winpath;

pub use auth::set_config_dir;
pub use backend::{NetworkMode, RunRequest, RunResult};
pub use buildkit::Buildkit;
pub use dockerfile::{Dockerfile, Instruction, Stage};
pub use error::Error;
pub use fs::{FsDirEntry, FsMetadata};
pub use layer_cache::LayerCache;
pub use meta::ImageMeta;
pub use platform::{default_pull_platform, Platform};
pub use progress::{BuildEvent, BuildProgress, NullProgress, PullEvent, PullProgress};
pub use pull::{finish_pull_progress, PulledImage};
pub use reference::{parse_reference, Reference};
pub use request::{BuildRequest, BuildResult};
pub use store::{LocalImageStore, StoredImage, StoredLayer};
