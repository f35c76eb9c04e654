use vstd::prelude::*;
use vstd::string::StringExecFns;

use crate::vfs::{
    dir_model, entry_model, CombinableVfsDir, CombinableVfsFile, DirModel, EntryModel, FileModel,
    VfsEntry,
};

verus! {

// ---------------------------------------------------------------------------
// The spec-level walk: the association list the index must hold.
// ---------------------------------------------------------------------------

/// The absolute path of a child named `name` under a parent at `prefix`.
pub open spec fn joined(prefix: Seq<char>, name: Seq<char>) -> Seq<char> {
    prefix.push('/') + name
}

/// The association list a depth-first walk of `d` produces under `prefix`:
/// first one pair per subdirectory, each followed by its own subtree's
/// pairs, then one pair per file.
pub open spec fn walk_dir(d: DirModel, prefix: Seq<char>) -> Seq<(Seq<char>, EntryModel)>
    decreases d, 1nat,
{
    walk_dirs(d.sub_dirs, prefix) + walk_files(d.files, prefix)
}

pub open spec fn walk_dirs(ds: Seq<DirModel>, prefix: Seq<char>) -> Seq<(Seq<char>, EntryModel)>
    decreases ds, 0nat,
{
    if ds.len() == 0 {
        Seq::empty()
    } else {
        walk_dirs(ds.drop_last(), prefix) + seq![
            (joined(prefix, ds.last().name), EntryModel::Dir(ds.last())),
        ] + walk_dir(ds.last(), joined(prefix, ds.last().name))
    }
}

pub open spec fn walk_files(fs: Seq<FileModel>, prefix: Seq<char>) -> Seq<
    (Seq<char>, EntryModel),
>
    decreases fs.len(),
{
    if fs.len() == 0 {
        Seq::empty()
    } else {
        walk_files(fs.drop_last(), prefix).push(
            (joined(prefix, fs.last().name), EntryModel::File(fs.last())),
        )
    }
}

/// The first entry an association list holds under the key `p`.
pub open spec fn assoc_lookup(m: Seq<(Seq<char>, EntryModel)>, p: Seq<char>) -> Option<
    EntryModel,
>
    decreases m.len(),
{
    if m.len() == 0 {
        None
    } else if m[0].0 == p {
        Some(m[0].1)
    } else {
        assoc_lookup(m.drop_first(), p)
    }
}

pub open spec fn assoc_models(s: Seq<(String, VfsEntry)>) -> Seq<(Seq<char>, EntryModel)> {
    s.map_values(|p: (String, VfsEntry)| (p.0@, entry_model(p.1)))
}

// ---------------------------------------------------------------------------
// The executable index.
// ---------------------------------------------------------------------------

/// Outcome of a path lookup: the path is absent, or it names a directory,
/// or it names a file.
pub enum TryPathResult {
    NotFound,
    Dir(CombinableVfsDir),
    File(CombinableVfsFile),
}

/// A tree together with its flattened path index, built once per snapshot
/// and read-only afterwards.
pub struct IndexedVfs {
    pub root: CombinableVfsDir,
    pub compressed_path: Vec<(String, VfsEntry)>,
}

impl IndexedVfs {
    /// The tree this index was built from.
    pub open spec fn spec_root(&self) -> DirModel {
        self.root@
    }

    /// The path-to-entry association the index holds.
    pub open spec fn spec_map(&self) -> Seq<(Seq<char>, EntryModel)> {
        assoc_models(self.compressed_path@)
    }

    /// The index holds exactly the walk of its root, under the empty
    /// prefix: the root itself has no name in path strings.
    pub open spec fn wf(&self) -> bool {
        self.spec_map() == walk_dir(self.spec_root(), Seq::empty())
    }

    /// Builds the index by a full depth-first walk of `root`.
    pub fn new(root: CombinableVfsDir) -> (r: IndexedVfs)
        ensures
            r.spec_root() == root@,
            r.wf(),
    {
        let mut compressed_path: Vec<(String, VfsEntry)> = Vec::new();
        let empty = String::new();
        compress_path(&root, &empty, &mut compressed_path);
        IndexedVfs { root, compressed_path }
    }

    /// Looks the path up in the flattened index: one scan, no tree
    /// descent. Returns the first entry recorded for the path.
    pub fn try_path(&self, path: &str) -> (r: TryPathResult)
        ensures
            r is NotFound <==> assoc_lookup(self.spec_map(), path@) is None,
            forall|d: CombinableVfsDir|
                r == TryPathResult::Dir(d) ==> assoc_lookup(self.spec_map(), path@) == Some(
                    EntryModel::Dir(d@),
                ),
            forall|f: CombinableVfsFile|
                r == TryPathResult::File(f) ==> assoc_lookup(self.spec_map(), path@) == Some(
                    EntryModel::File(f@),
                ),
    {
        let p = path.to_owned();
        proof {
            assert(self.spec_map().skip(0) =~= self.spec_map());
        }
        let mut i: usize = 0;
        while i < self.compressed_path.len()
            invariant
                0 <= i <= self.compressed_path@.len(),
                p@ == path@,
                assoc_lookup(self.spec_map(), path@) == assoc_lookup(
                    self.spec_map().skip(i as int),
                    path@,
                ),
            decreases self.compressed_path@.len() - i,
        {
            proof {
                assert(self.spec_map().skip(i as int)[0] == (
                    self.compressed_path@[i as int].0@,
                    self.compressed_path@[i as int].1@,
                ));
                assert(self.spec_map().skip(i as int).drop_first() =~= self.spec_map().skip(
                    i + 1,
                ));
            }
            if self.compressed_path[i].0 == p {
                proof {
                    assert(self.spec_map().skip(i as int).len() > 0);
                    assert(self.spec_map().skip(i as int)[0].0 == path@);
                    assert(assoc_lookup(self.spec_map().skip(i as int), path@) == Some(
                        self.spec_map().skip(i as int)[0].1,
                    ));
                    assert(assoc_lookup(self.spec_map(), path@) == Some(
                        entry_model(self.compressed_path@[i as int].1),
                    ));
                }
                let e = self.compressed_path[i].1.clone();
                proof {
                    assert(entry_model(e) == entry_model(self.compressed_path@[i as int].1));
                    assert(assoc_lookup(self.spec_map(), path@) == Some(entry_model(e)));
                }
                match e {
                    VfsEntry::Dir(d) => {
                        return TryPathResult::Dir(d);
                    },
                    VfsEntry::File(f) => {
                        return TryPathResult::File(f);
                    },
                }
            }
            i += 1;
        }
        proof {
            assert(self.spec_map().skip(self.compressed_path@.len() as int) =~= Seq::<
                (Seq<char>, EntryModel),
            >::empty());
        }
        TryPathResult::NotFound
    }
}

/// Records, under `path`, every entry of `d`'s subtree: each subdirectory
/// with its own subtree, then each file.
fn compress_path(d: &CombinableVfsDir, path: &String, out: &mut Vec<(String, VfsEntry)>)
    ensures
        assoc_models(final(out)@) == assoc_models(old(out)@) + walk_dir(d@, path@),
    decreases *d,
{
    let ghost out0 = out@;
    proof {
        assert(dir_model(*d).sub_dirs.take(0) =~= Seq::<DirModel>::empty());
        assert(assoc_models(out@) =~= assoc_models(out0) + walk_dirs(
            dir_model(*d).sub_dirs.take(0),
            path@,
        ));
    }
    let mut i: usize = 0;
    while i < d.sub_dirs.len()
        invariant
            0 <= i <= d.sub_dirs@.len(),
            assoc_models(out@) == assoc_models(out0) + walk_dirs(
                dir_model(*d).sub_dirs.take(i as int),
                path@,
            ),
        decreases d.sub_dirs@.len() - i,
    {
        proof {
            crate::vfs::lemma_dir_models_index(d.sub_dirs@);
            let ms = dir_model(*d).sub_dirs;
            assert(ms.take(i + 1).drop_last() =~= ms.take(i as int));
            assert(ms.take(i + 1).last() == ms[i as int]);
            assert(ms[i as int] == d.sub_dirs@[i as int]@);
        }
        let sub = &d.sub_dirs[i];
        let mut ep = path.clone();
        ep.append("/");
        ep.append(sub.name.as_str());
        proof {
            reveal_strlit("/");
            assert("/"@ =~= seq!['/']);
            assert(ep@ == joined(path@, sub@.name));
        }
        let ghost out_before = out@;
        let entry = VfsEntry::Dir(sub.clone());
        out.push((ep.clone(), entry));
        proof {
            assert(assoc_models(out@) =~= assoc_models(out_before).push(
                (ep@, EntryModel::Dir(sub@)),
            ));
            assert(decreases_to!(*d => d.sub_dirs@[i as int]));
        }
        compress_path(sub, &ep, out);
        proof {
            let ms = dir_model(*d).sub_dirs;
            assert(walk_dirs(ms.take(i + 1), path@) == walk_dirs(ms.take(i as int), path@)
                + seq![(joined(path@, ms[i as int].name), EntryModel::Dir(ms[i as int]))]
                + walk_dir(ms[i as int], joined(path@, ms[i as int].name)));
            assert(assoc_models(out@) =~= assoc_models(out0) + walk_dirs(
                ms.take(i + 1),
                path@,
            ));
        }
        i += 1;
    }
    proof {
        crate::vfs::lemma_dir_models_index(d.sub_dirs@);
        let ms = dir_model(*d).sub_dirs;
        assert(ms.len() == d.sub_dirs@.len());
        assert(ms.take(ms.len() as int) =~= ms);
        assert(dir_model(*d).files.take(0) =~= Seq::<FileModel>::empty());
    }
    let ghost out1 = out@;
    proof {
        assert(assoc_models(out@) =~= assoc_models(out1) + walk_files(
            dir_model(*d).files.take(0),
            path@,
        ));
    }
    let mut j: usize = 0;
    while j < d.files.len()
        invariant
            0 <= j <= d.files@.len(),
            assoc_models(out@) == assoc_models(out1) + walk_files(
                dir_model(*d).files.take(j as int),
                path@,
            ),
            assoc_models(out1) == assoc_models(out0) + walk_dirs(dir_model(*d).sub_dirs, path@),
        decreases d.files@.len() - j,
    {
        proof {
            let mf = dir_model(*d).files;
            assert(mf.take(j + 1).drop_last() =~= mf.take(j as int));
            assert(mf.take(j + 1).last() == mf[j as int]);
            assert(mf[j as int] == d.files@[j as int]@);
        }
        let f = &d.files[j];
        let mut ep = path.clone();
        ep.append("/");
        ep.append(f.name.as_str());
        proof {
            reveal_strlit("/");
            assert("/"@ =~= seq!['/']);
            assert(ep@ == joined(path@, f@.name));
        }
        let ghost out_before = out@;
        out.push((ep, VfsEntry::File(f.clone())));
        proof {
            assert(assoc_models(out@) =~= assoc_models(out_before).push(
                (joined(path@, dir_model(*d).files[j as int].name),
                EntryModel::File(dir_model(*d).files[j as int])),
            ));
        }
        j += 1;
    }
    proof {
        let mf = dir_model(*d).files;
        assert(mf.take(mf.len() as int) =~= mf);
        assert(assoc_models(out@) =~= assoc_models(out0) + walk_dir(d@, path@));
    }
}

} // verus!
