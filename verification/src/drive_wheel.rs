use vstd::prelude::*;

use crate::combine::{combine_vfs_dirs, is_combine_of};
use crate::config_loader::DriveConfig;
use crate::path_compress::IndexedVfs;
use crate::vfs::{dir_model_wf, dir_models, CombinableVfsDir, VfsEntry};

verus! {

/// One complete aggregation cycle's result: a combined tree and the path
/// index built over it. Immutable once built; replaced, never changed.
pub struct Snapshot {
    pub index: IndexedVfs,
}

/// What a snapshot built from the given provider trees holds: the merge of
/// the trees when there is at least one, an empty unnamed root when every
/// provider failed, and in either case an index that matches the tree.
pub open spec fn built_from(s: Snapshot, trees: Seq<crate::vfs::DirModel>) -> bool {
    &&& trees.len() >= 1 ==> is_combine_of(s.spec_tree(), trees)
    &&& trees.len() == 0 ==> (s.spec_tree().name.len() == 0 && s.spec_tree().sub_dirs.len() == 0
        && s.spec_tree().files.len() == 0)
    &&& s.wf()
}

impl Snapshot {
    /// The combined tree this snapshot serves.
    pub open spec fn spec_tree(&self) -> crate::vfs::DirModel {
        self.index.spec_root()
    }

    /// The index holds exactly the walk of the tree.
    pub open spec fn wf(&self) -> bool {
        self.index.wf()
    }

    /// Builds a snapshot from the provider trees of one aggregation cycle.
    /// No tree at all — every provider failed — yields an empty aggregate
    /// rather than a failure.
    pub fn build(trees: Vec<CombinableVfsDir>) -> (r: Snapshot)
        ensures
            built_from(r, dir_models(trees@)),
            (trees@.len() >= 1 && (forall|i: int|
                0 <= i < trees@.len() ==> dir_model_wf(#[trigger] trees@[i]@)))
                ==> dir_model_wf(r.spec_tree()),
    {
        proof {
            crate::vfs::lemma_dir_models_index(trees@);
        }
        let root = if trees.len() == 0 {
            CombinableVfsDir::new(String::new(), Vec::new(), Vec::new(), 0)
        } else {
            combine_vfs_dirs(trees)
        };
        Snapshot { index: IndexedVfs::new(root) }
    }

    /// The served tree, for listings; callers must not surface download
    /// locations from it.
    pub fn tree(&self) -> (r: &CombinableVfsDir)
        ensures
            r@ == self.spec_tree(),
    {
        &self.index.root
    }
}

impl Clone for Snapshot {
    /// A reader's private copy: it observes the same tree and the same
    /// index as the original, and later replacements of the original do
    /// not touch it.
    fn clone(&self) -> (r: Self)
        ensures
            r.spec_tree() == self.spec_tree(),
            r.index.spec_map() == self.index.spec_map(),
            r.wf() == self.wf(),
    {
        let root = self.index.root.clone();
        let mut compressed_path: Vec<(String, VfsEntry)> = Vec::new();
        let mut i: usize = 0;
        while i < self.index.compressed_path.len()
            invariant
                0 <= i <= self.index.compressed_path@.len(),
                compressed_path@.len() == i,
                forall|k: int|
                    0 <= k < i ==> ((#[trigger] compressed_path@[k]).0@
                        == self.index.compressed_path@[k].0@ && compressed_path@[k].1@
                        == self.index.compressed_path@[k].1@),
            decreases self.index.compressed_path@.len() - i,
        {
            let key = self.index.compressed_path[i].0.clone();
            let entry = self.index.compressed_path[i].1.clone();
            compressed_path.push((key, entry));
            i += 1;
        }
        let r = Snapshot { index: IndexedVfs { root, compressed_path } };
        proof {
            assert(r.index.spec_map() =~= self.index.spec_map());
        }
        r
    }
}

/// The stop flag of the refresh loop: once raised it never falls, and no
/// further rebuild is scheduled.
pub struct StopSignal {
    pub stop: bool,
}

impl StopSignal {
    pub fn new() -> (r: StopSignal)
        ensures
            !r.stop,
    {
        StopSignal { stop: false }
    }

    pub fn is_stop(&self) -> (r: bool)
        ensures
            r == self.stop,
    {
        self.stop
    }

    pub fn stop(&mut self)
        ensures
            final(self).stop,
    {
        self.stop = true;
    }
}

/// Owns the authoritative current snapshot and its refresh state. The
/// caller runs the timer and the provider fetches; this type makes every
/// decision: what the first snapshot is, what a refresh publishes, and
/// when the loop stops.
pub struct DriveWheel {
    pub current: Snapshot,
    pub drive_config: Vec<DriveConfig>,
    pub stop_signal: StopSignal,
}

impl DriveWheel {
    /// Initializing: the first snapshot is built synchronously from the
    /// trees the providers delivered — possibly none — before the wheel
    /// becomes ready.
    pub fn new(drive_config: Vec<DriveConfig>, trees: Vec<CombinableVfsDir>) -> (r: DriveWheel)
        ensures
            built_from(r.current, dir_models(trees@)),
            r.drive_config == drive_config,
            !r.stop_signal.stop,
    {
        let current = Snapshot::build(trees);
        DriveWheel { current, drive_config, stop_signal: StopSignal::new() }
    }

    /// Publishes a fresh snapshot built from this cycle's provider trees,
    /// atomically replacing the current one. A reader that already holds a
    /// copy of the old snapshot is unaffected: only this wheel's `current`
    /// changes.
    pub fn refresh(&mut self, trees: Vec<CombinableVfsDir>)
        ensures
            built_from(final(self).current, dir_models(trees@)),
            final(self).drive_config == old(self).drive_config,
            final(self).stop_signal == old(self).stop_signal,
    {
        self.current = Snapshot::build(trees);
    }

    /// The snapshot current at this instant; a reader uses the reference,
    /// or a clone of it, to completion even across a concurrent publish.
    pub fn get_snapshot(&self) -> (r: &Snapshot)
        ensures
            r == self.current,
    {
        &self.current
    }
}

} // verus!
