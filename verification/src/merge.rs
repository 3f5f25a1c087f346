//! How the merged tree of a cached layer is put together from its chain.

use vstd::prelude::*;

use crate::error::{Error, ErrorView};
use crate::fs::{self, Step, StepView};
use crate::layer_cache::{self, LayerCache, LowerLink};
use crate::overlay2::{self, apply_diff_dir};
use crate::path::{HostPath, PathView};
use crate::tree::Entry;

verus! {

broadcast use vstd::seq_lib::group_seq_properties;

/// What putting a tree together needs next.
#[derive(Debug)]
pub enum MergeTask {
    /// Perform the steps and read the layer's `lower` file, then call
    /// [`MergeRun::prepared`].
    Prepare(Vec<Step>),
    /// Find out what stands at the link of this listed layer, then call
    /// [`MergeRun::linked`].
    Link(String),
    /// Read the changeset at this path, if there is one, then call
    /// [`MergeRun::read`].
    Read(HostPath),
    /// Perform the steps, then call [`MergeRun::applied`].
    Apply(Vec<Step>),
    /// The tree is complete.
    Done,
}

/// A [`MergeTask`] with its steps and texts as views.
pub enum MergeTaskView {
    Prepare(Seq<StepView>),
    Link(Seq<char>),
    Read(PathView),
    Apply(Seq<StepView>),
    Done,
}

impl View for MergeTask {
    type V = MergeTaskView;

    open spec fn view(&self) -> MergeTaskView {
        match self {
            MergeTask::Prepare(steps) => MergeTaskView::Prepare(fs::step_views(steps@)),
            MergeTask::Link(spec) => MergeTaskView::Link(spec@),
            MergeTask::Read(path) => MergeTaskView::Read(path@),
            MergeTask::Apply(steps) => MergeTaskView::Apply(fs::step_views(steps@)),
            MergeTask::Done => MergeTaskView::Done,
        }
    }
}

/// How far a tree is put together.
#[derive(Debug, Clone, Copy, PartialEq, Eq, Structural)]
pub enum MergePhase {
    /// The directory is being prepared.
    Preparing,
    /// What stands at the link with this number is awaited.
    Linking(usize),
    /// The changeset with this number is awaited.
    Reading(usize),
    /// The changeset with this number is being applied.
    Applying(usize),
    /// The tree is complete.
    Done,
    /// The tree cannot be put together.
    Failed,
}

/// A merged tree that is put together: the listed layers are found first, then their
/// changesets are applied from the lowest to the highest, the layer's own one last.
#[derive(Debug)]
pub struct MergeRun<'a> {
    /// Cache of the layer.
    pub cache: &'a LayerCache,
    /// Chain id of the layer.
    pub id: String,
    /// Directory of the merged tree.
    pub merged: HostPath,
    /// The layers below, from the lowest to the highest.
    pub specs: Vec<String>,
    /// Changesets that are found.
    pub diffs: Vec<HostPath>,
    /// How far the tree is.
    pub phase: MergePhase,
}

/// The views of several paths.
pub open spec fn path_views(paths: Seq<HostPath>) -> Seq<PathView> {
    paths.map_values(|p: HostPath| p@)
}

impl<'a> MergeRun<'a> {
    /// The directory of the layer's own changeset.
    pub open spec fn own(&self) -> PathView {
        self.cache.dir@.child(self.id@).child("diff"@)
    }

    /// One changeset is found for each listed layer that was asked for, and the layer's
    /// own one stands behind them when changesets are applied.
    pub open spec fn well_formed(&self) -> bool {
        match self.phase {
            MergePhase::Preparing => self.specs@.len() == 0 && self.diffs@.len() == 0,
            MergePhase::Linking(i) => i < self.specs@.len() && self.diffs@.len() == i,
            MergePhase::Reading(i) => self.is_found() && i < self.diffs@.len(),
            MergePhase::Applying(i) => self.is_found() && i < self.diffs@.len(),
            MergePhase::Done => self.is_found(),
            MergePhase::Failed => true,
        }
    }

    /// All changesets are found.
    pub open spec fn is_found(&self) -> bool {
        &&& self.diffs@.len() == self.specs@.len() + 1
        &&& self.diffs@.last()@ == self.own()
    }

    /// What is put together where is the same.
    pub open spec fn same_tree(&self, other: MergeRun) -> bool {
        &&& self.cache == other.cache
        &&& self.id == other.id
        &&& self.merged == other.merged
    }

    /// How many tasks are left at most, once the listed layers are known.
    pub open spec fn remaining(&self) -> int {
        let n = self.specs@.len() + 1;
        match self.phase {
            MergePhase::Linking(i) => 3 * n - i,
            MergePhase::Reading(i) => 2 * (n - i),
            MergePhase::Applying(i) => 2 * (n - i) - 1,
            _ => 0,
        }
    }

    /// Begin with the directory of the merged tree.
    pub fn begin(cache: &'a LayerCache, id: &str, merged_exists: bool) -> (r: (Self, MergeTask))
        ensures
            r.0.well_formed(),
            r.0.phase is Preparing,
            r.0.cache == cache,
            r.0.id@ == id@,
            r.0.merged@ == cache.dir@.child(id@).child("merged"@),
            r.1@ == MergeTaskView::Prepare(
                layer_cache::emptied_merged(r.0.merged@, merged_exists),
            ),
    {
        let run = MergeRun {
            cache,
            id: id.to_owned(),
            merged: cache.merged_dir(id),
            specs: Vec::new(),
            diffs: Vec::new(),
            phase: MergePhase::Preparing,
        };
        (run, MergeTask::Prepare(cache.resolve_rootfs(id, merged_exists)))
    }

    /// Go on with the listed layer with this number, or with the lowest changeset where
    /// there are no more.
    fn go_link(&mut self, i: usize) -> (r: MergeTask)
        requires
            i <= old(self).specs@.len(),
            old(self).diffs@.len() == i,
        ensures
            final(self).same_tree(*old(self)),
            final(self).specs == old(self).specs,
            final(self).well_formed(),
            final(self).remaining() <= 3 * (old(self).specs@.len() + 1) - i,
            if i < old(self).specs@.len() {
                &&& final(self).phase == MergePhase::Linking(i)
                &&& final(self).diffs == old(self).diffs
                &&& r@ == MergeTaskView::Link(old(self).specs@[i as int]@)
            } else {
                &&& final(self).phase == MergePhase::Reading(0)
                &&& path_views(final(self).diffs@) == path_views(old(self).diffs@).push(
                    old(self).own(),
                )
                &&& r@ == MergeTaskView::Read(path_views(final(self).diffs@)[0])
            },
    {
        if i < self.specs.len() {
            self.phase = MergePhase::Linking(i);
            MergeTask::Link(self.specs[i].clone())
        } else {
            let ghost found = path_views(self.diffs@);
            let own = self.cache.diff_dir(self.id.as_str());
            self.diffs.push(own);
            assert(path_views(self.diffs@) =~= found.push(own@));
            self.phase = MergePhase::Reading(0);
            MergeTask::Read(self.diffs[0].copy())
        }
    }

    /// Go on with the changeset with this number.
    fn go_diff(&mut self, i: usize) -> (r: MergeTask)
        requires
            old(self).is_found(),
            i <= old(self).diffs@.len(),
        ensures
            final(self).same_tree(*old(self)),
            final(self).specs == old(self).specs,
            final(self).diffs == old(self).diffs,
            final(self).well_formed(),
            final(self).remaining() <= 2 * (old(self).diffs@.len() - i),
            if i < old(self).diffs@.len() {
                &&& final(self).phase == MergePhase::Reading(i)
                &&& r@ == MergeTaskView::Read(path_views(old(self).diffs@)[i as int])
            } else {
                final(self).phase is Done && r@ is Done
            },
    {
        if i < self.diffs.len() {
            self.phase = MergePhase::Reading(i);
            MergeTask::Read(self.diffs[i].copy())
        } else {
            self.phase = MergePhase::Done;
            MergeTask::Done
        }
    }

    /// The directory is prepared, and the layer's `lower` file says this; nothing where
    /// it cannot be read.
    pub fn prepared(&mut self, lower: &str) -> (r: MergeTask)
        requires
            old(self).well_formed(),
            old(self).phase is Preparing,
        ensures
            final(self).same_tree(*old(self)),
            final(self).well_formed(),
            final(self).specs.deep_view() == layer_cache::lower_chain(lower@),
            if layer_cache::lower_chain(lower@).len() > 0 {
                &&& final(self).phase == MergePhase::Linking(0)
                &&& r@ == MergeTaskView::Link(layer_cache::lower_chain(lower@)[0])
            } else {
                &&& final(self).phase == MergePhase::Reading(0)
                &&& path_views(final(self).diffs@) == seq![old(self).own()]
                &&& r@ == MergeTaskView::Read(old(self).own())
            },
    {
        self.specs = LayerCache::lower_specs(lower);
        assert(self.specs.deep_view().len() == self.specs@.len());
        assert(self.specs@.len() > 0 ==> self.specs.deep_view()[0] == self.specs@[0]@);
        let task = self.go_link(0);
        assert(path_views(old(self).diffs@) =~= Seq::<PathView>::empty());
        assert(self.specs@.len() == 0 ==> path_views(self.diffs@) =~= seq![old(self).own()]);
        task
    }

    /// This stands at the link of the listed layer in hand.
    pub fn linked(&mut self, link: &LowerLink) -> (r: Result<MergeTask, Error>)
        requires
            old(self).well_formed(),
            old(self).phase is Linking,
        ensures
            final(self).same_tree(*old(self)),
            final(self).specs == old(self).specs,
            final(self).well_formed(),
            final(self).remaining() < old(self).remaining(),
            ({
                let i = old(self).phase->Linking_0 as int;
                let specs = old(self).specs@;
                match layer_cache::lower_diff_path(old(self).cache.dir@, *link) {
                    None => {
                        &&& r matches Err(e) && e@ == ErrorView::Other(
                            "build cache: missing overlay2 link '"@ + specs[i]@ + "'"@,
                        )
                        &&& final(self).phase is Failed
                    },
                    Some(diff) => if i + 1 < specs.len() {
                        &&& r matches Ok(task) && task@ == MergeTaskView::Link(specs[i + 1]@)
                        &&& final(self).phase == MergePhase::Linking((i + 1) as usize)
                        &&& path_views(final(self).diffs@) == path_views(old(self).diffs@).push(
                            diff,
                        )
                    } else {
                        &&& r matches Ok(task) && task@ == MergeTaskView::Read(
                            path_views(final(self).diffs@)[0],
                        )
                        &&& final(self).phase == MergePhase::Reading(0)
                        &&& path_views(final(self).diffs@) == path_views(old(self).diffs@).push(
                            diff,
                        ).push(old(self).own())
                    },
                }
            }),
    {
        match self.phase {
            MergePhase::Linking(i) => match self.cache.resolve_lower_diff(
                self.specs[i].as_str(),
                link,
            ) {
                Ok(diff) => {
                    let ghost found = path_views(self.diffs@);
                    self.diffs.push(diff);
                    assert(path_views(self.diffs@) =~= found.push(diff@));
                    assert(i < self.specs.len());
                    Ok(self.go_link(i + 1))
                },
                Err(e) => {
                    self.phase = MergePhase::Failed;
                    Err(e)
                },
            },
            _ => Ok(MergeTask::Done),
        }
    }

    /// These are the entries of the changeset in hand, if there is one.
    pub fn read(&mut self, entries: Option<&Vec<Entry>>) -> (r: MergeTask)
        requires
            old(self).well_formed(),
            old(self).phase is Reading,
        ensures
            final(self).same_tree(*old(self)),
            final(self).specs == old(self).specs,
            final(self).diffs == old(self).diffs,
            final(self).well_formed(),
            final(self).remaining() < old(self).remaining(),
            ({
                let i = old(self).phase->Reading_0 as int;
                let diffs = path_views(old(self).diffs@);
                match entries {
                    Some(e) => {
                        &&& final(self).phase == MergePhase::Applying(i as usize)
                        &&& r@ == MergeTaskView::Apply(
                            fs::placed(overlay2::apply_ops(e@), diffs[i], old(self).merged@),
                        )
                    },
                    None => if i + 1 < diffs.len() {
                        &&& final(self).phase == MergePhase::Reading((i + 1) as usize)
                        &&& r@ == MergeTaskView::Read(diffs[i + 1])
                    } else {
                        final(self).phase is Done && r@ is Done
                    },
                }
            }),
    {
        match self.phase {
            MergePhase::Reading(i) => match entries {
                Some(e) => {
                    let steps = apply_diff_dir(e, &self.diffs[i], &self.merged);
                    self.phase = MergePhase::Applying(i);
                    MergeTask::Apply(steps)
                },
                None => {
                    assert(i < self.diffs.len());
                    self.go_diff(i + 1)
                },
            },
            _ => MergeTask::Done,
        }
    }

    /// The changeset in hand is applied.
    pub fn applied(&mut self) -> (r: MergeTask)
        requires
            old(self).well_formed(),
            old(self).phase is Applying,
        ensures
            final(self).same_tree(*old(self)),
            final(self).specs == old(self).specs,
            final(self).diffs == old(self).diffs,
            final(self).well_formed(),
            final(self).remaining() < old(self).remaining(),
            ({
                let i = old(self).phase->Applying_0 as int;
                let diffs = path_views(old(self).diffs@);
                if i + 1 < diffs.len() {
                    &&& final(self).phase == MergePhase::Reading((i + 1) as usize)
                    &&& r@ == MergeTaskView::Read(diffs[i + 1])
                } else {
                    final(self).phase is Done && r@ is Done
                }
            }),
    {
        match self.phase {
            MergePhase::Applying(i) => {
                assert(i < self.diffs.len());
                self.go_diff(i + 1)
            },
            _ => MergeTask::Done,
        }
    }
}

} // verus!
