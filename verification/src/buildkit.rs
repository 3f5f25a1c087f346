//! What a builder of images consists of.

use vstd::prelude::*;

use crate::fs::{self, FsOpView, Step};
use crate::layer_cache::LayerCache;
use crate::path::{HostPath, PathView};
use crate::store::LocalImageStore;

verus! {

/// Builds OCI images from Dockerfiles.
///
/// `B` is the runtime that executes `RUN` instructions.
///
/// Images and cache live under the [`LocalImageStore`] passed to [`Self::new`]:
///
/// ```text
/// <store>/
///   images/    pulled and exported image config and layers
///   overlay2/  instruction cache
///   work/      temporary stage rootfs during a build
/// ```
#[derive(Debug)]
pub struct Buildkit<B> {
    backend: B,
    store: LocalImageStore,
    cache: LayerCache,
    work_root: HostPath,
}

impl<B> Buildkit<B> {
    /// The runtime.
    pub closed spec fn runtime(&self) -> B {
        self.backend
    }

    /// The image store.
    pub closed spec fn images(&self) -> LocalImageStore {
        self.store
    }

    /// The layer cache.
    pub closed spec fn layers(&self) -> LayerCache {
        self.cache
    }

    /// The directory for work in progress.
    pub closed spec fn work(&self) -> PathView {
        self.work_root@
    }

    /// Create a builder that stores images under `store`, and plan what has to be
    /// created for its cache.
    pub fn new(backend: B, store: LocalImageStore) -> (r: (Self, Vec<Step>))
        ensures
            r.0.runtime() == backend,
            r.0.images() == store,
            r.0.layers().dir@ == store.at().child("overlay2"@),
            r.0.work() == store.at().child("work"@),
            fs::step_views(r.1@) == seq![
                fs::must(FsOpView::CreateDirAll(store.at().child("overlay2"@).child("l"@))),
            ],
    {
        let (cache, steps) = LayerCache::open(store.root());
        let work_root = store.root().join("work");
        (Buildkit { backend, store, cache, work_root }, steps)
    }

    /// Override the layer cache (defaults to `<store>/overlay2`).
    pub fn with_cache(self, cache: LayerCache) -> (r: Self)
        ensures
            r.layers() == cache,
            r.runtime() == self.runtime(),
            r.images() == self.images(),
            r.work() == self.work(),
    {
        Buildkit { cache, ..self }
    }

    /// Override the temporary build-work directory (defaults to `<store>/work`).
    pub fn with_work_dir(self, dir: HostPath) -> (r: Self)
        ensures
            r.work() == dir@,
            r.runtime() == self.runtime(),
            r.images() == self.images(),
            r.layers() == self.layers(),
    {
        Buildkit { work_root: dir, ..self }
    }

    /// Image store this builder reads and writes.
    pub fn store(&self) -> (r: &LocalImageStore)
        ensures
            *r == self.images(),
    {
        &self.store
    }

    /// Layer cache used for instruction snapshots (defaults to `<store>/overlay2`).
    pub fn cache(&self) -> (r: &LayerCache)
        ensures
            *r == self.layers(),
    {
        &self.cache
    }

    /// Runtime that executes `RUN` instructions.
    pub fn backend(&self) -> (r: &B)
        ensures
            *r == self.runtime(),
    {
        &self.backend
    }

    /// Temporary directory for in-progress stage rootfs trees.
    pub fn work_root(&self) -> (r: &HostPath)
        ensures
            r@ == self.work(),
    {
        &self.work_root
    }
}

} // verus!
