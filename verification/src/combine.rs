use vstd::prelude::*;

use crate::valid_segment;
use crate::vfs::{
    dir_children_latest, dir_model, dir_model_wf, dir_models, dir_sizes_total, file_model,
    file_model_wf, file_models, file_sizes_total, files_latest, lemma_dir_models_index,
    sat_add_u64, string_models, CombinableVfsDir, CombinableVfsFile, DirModel, FileModel,
    VfsBasicMeta,
};

verus! {

broadcast use vstd::seq_lib::group_filter_ensures;

// ---------------------------------------------------------------------------
// Spec-level views of the merge.
// ---------------------------------------------------------------------------

/// Number of directory nodes in a tree, counting the root.
pub open spec fn dir_node_count(d: DirModel) -> nat
    decreases d, 1nat,
{
    1 + dirs_node_count(d.sub_dirs)
}

/// Number of directory nodes in a forest.
pub open spec fn dirs_node_count(ds: Seq<DirModel>) -> nat
    decreases ds, 0nat,
{
    if ds.len() == 0 {
        0
    } else {
        dirs_node_count(ds.drop_last()) + dir_node_count(ds.last())
    }
}

/// The concatenation of the immediate subdirectories of every directory of
/// `ds`, in order.
pub open spec fn concat_sub_dirs(ds: Seq<DirModel>) -> Seq<DirModel>
    decreases ds.len(),
{
    if ds.len() == 0 {
        Seq::empty()
    } else {
        concat_sub_dirs(ds.drop_last()) + ds.last().sub_dirs
    }
}

/// The concatenation of the immediate files of every directory of `ds`.
pub open spec fn concat_files(ds: Seq<DirModel>) -> Seq<FileModel>
    decreases ds.len(),
{
    if ds.len() == 0 {
        Seq::empty()
    } else {
        concat_files(ds.drop_last()) + ds.last().files
    }
}

/// The directories of `ds` whose name is `n`.
pub open spec fn dirs_named(ds: Seq<DirModel>, n: Seq<char>) -> Seq<DirModel> {
    ds.filter(|x: DirModel| x.name == n)
}

/// The files of `fs` whose name is `n`.
pub open spec fn files_named(fs: Seq<FileModel>, n: Seq<char>) -> Seq<FileModel> {
    fs.filter(|x: FileModel| x.name == n)
}

/// The elements of `s` whose name segment is `n`.
pub open spec fn named_of<T: VfsBasicMeta>(s: Seq<T>, n: Seq<char>) -> Seq<T> {
    s.filter(|t: T| t.spec_name() == n)
}

/// The download locations of the files of `fs`, concatenated in order.
pub open spec fn all_links(fs: Seq<FileModel>) -> Seq<Seq<char>>
    decreases fs.len(),
{
    if fs.len() == 0 {
        Seq::empty()
    } else {
        all_links(fs.drop_last()) + fs.last().links
    }
}

/// The one file that stands for a group of same-named files: the name and
/// the size of the first member (an arbitrary representative), the latest
/// stamp of any member, and the union of every member's locations.
pub open spec fn combined_file(fs: Seq<FileModel>) -> FileModel
    recommends
        fs.len() >= 1,
{
    FileModel {
        name: fs[0].name,
        size: fs[0].size,
        last_modified: files_latest(fs),
        links: all_links(fs),
    }
}

// ---------------------------------------------------------------------------
// Helper lemmas.
// ---------------------------------------------------------------------------

pub proof fn lemma_filter_push<A>(s: Seq<A>, x: A, pred: spec_fn(A) -> bool)
    ensures
        s.push(x).filter(pred) == if pred(x) {
            s.filter(pred).push(x)
        } else {
            s.filter(pred)
        },
{
    reveal(Seq::filter);
    assert(s.push(x).drop_last() =~= s);
    assert(s.push(x).last() == x);
}

pub proof fn lemma_dirs_node_count_add(a: Seq<DirModel>, b: Seq<DirModel>)
    ensures
        dirs_node_count(a + b) == dirs_node_count(a) + dirs_node_count(b),
    decreases b.len(),
{
    if b.len() == 0 {
        assert(a + b =~= a);
    } else {
        assert((a + b).drop_last() =~= a + b.drop_last());
        assert((a + b).last() == b.last());
        lemma_dirs_node_count_add(a, b.drop_last());
    }
}

pub proof fn lemma_dirs_node_count_filter(ds: Seq<DirModel>, pred: spec_fn(DirModel) -> bool)
    ensures
        dirs_node_count(ds.filter(pred)) <= dirs_node_count(ds),
    decreases ds.len(),
{
    reveal(Seq::filter);
    if ds.len() > 0 {
        lemma_dirs_node_count_filter(ds.drop_last(), pred);
        if pred(ds.last()) {
            assert(ds.filter(pred) == ds.drop_last().filter(pred).push(ds.last()));
            assert(ds.filter(pred).drop_last() =~= ds.drop_last().filter(pred));
            assert(ds.filter(pred).last() == ds.last());
        }
    }
}

/// A forest holds strictly more directory nodes than the concatenation of
/// its children, as long as it is not empty.
pub proof fn lemma_concat_sub_dirs_count(ds: Seq<DirModel>)
    ensures
        dirs_node_count(concat_sub_dirs(ds)) + ds.len() == dirs_node_count(ds),
    decreases ds.len(),
{
    if ds.len() > 0 {
        lemma_concat_sub_dirs_count(ds.drop_last());
        lemma_dirs_node_count_add(concat_sub_dirs(ds.drop_last()), ds.last().sub_dirs);
        assert(dir_node_count(ds.last()) == 1 + dirs_node_count(ds.last().sub_dirs));
        assert(dirs_node_count(ds) == dirs_node_count(ds.drop_last()) + dir_node_count(ds.last()));
    }
}

/// Every element a filter keeps is an element of the original sequence.
pub proof fn lemma_filter_elements<A>(s: Seq<A>, pred: spec_fn(A) -> bool)
    ensures
        forall|k: int|
            0 <= k < s.filter(pred).len() ==> s.contains(#[trigger] s.filter(pred)[k]),
    decreases s.len(),
{
    reveal(Seq::filter);
    if s.len() > 0 {
        lemma_filter_elements(s.drop_last(), pred);
        assert forall|k: int|
            0 <= k < s.filter(pred).len() implies s.contains(#[trigger] s.filter(pred)[k]) by {
            let pre = s.drop_last().filter(pred);
            if k < pre.len() {
                assert(pre[k] == s.filter(pred)[k]);
                assert(s.drop_last().contains(pre[k]));
                let i = choose|i: int|
                    0 <= i < s.drop_last().len() && s.drop_last()[i] == pre[k];
                assert(s[i] == pre[k]);
            } else {
                assert(s.filter(pred)[k] == s.last());
                assert(s[s.len() - 1] == s.last());
            }
        }
    }
}

/// In a forest of well-formed directories, every concatenated child
/// directory and child file is well formed.
pub proof fn lemma_concat_children_wf(ds: Seq<DirModel>)
    requires
        forall|i: int| 0 <= i < ds.len() ==> dir_model_wf(#[trigger] ds[i]),
    ensures
        forall|k: int|
            0 <= k < concat_sub_dirs(ds).len() ==> dir_model_wf(#[trigger] concat_sub_dirs(ds)[k]),
        forall|k: int|
            0 <= k < concat_files(ds).len() ==> file_model_wf(#[trigger] concat_files(ds)[k]),
    decreases ds.len(),
{
    if ds.len() > 0 {
        assert(forall|i: int|
            0 <= i < ds.drop_last().len() ==> #[trigger] ds.drop_last()[i] == ds[i]);
        lemma_concat_children_wf(ds.drop_last());
        let last = ds.last();
        assert(dir_model_wf(last));
        assert forall|k: int|
            0 <= k < concat_sub_dirs(ds).len() implies dir_model_wf(
            #[trigger] concat_sub_dirs(ds)[k],
        ) by {
            let pre = concat_sub_dirs(ds.drop_last());
            if k < pre.len() {
                assert(concat_sub_dirs(ds)[k] == pre[k]);
            } else {
                assert(concat_sub_dirs(ds)[k] == last.sub_dirs[k - pre.len()]);
            }
        }
        assert forall|k: int|
            0 <= k < concat_files(ds).len() implies file_model_wf(
            #[trigger] concat_files(ds)[k],
        ) by {
            let pre = concat_files(ds.drop_last());
            if k < pre.len() {
                assert(concat_files(ds)[k] == pre[k]);
            } else {
                assert(concat_files(ds)[k] == last.files[k - pre.len()]);
            }
        }
    }
}

/// Mapping a directory sequence to models commutes with taking the elements
/// of a given name.
pub proof fn lemma_dir_models_named(s: Seq<CombinableVfsDir>, n: Seq<char>)
    ensures
        dir_models(named_of(s, n)) == dirs_named(dir_models(s), n),
    decreases s.len(),
{
    reveal(Seq::filter);
    if s.len() == 0 {
        assert(dir_models(s).len() == 0);
        assert(named_of(s, n) =~= Seq::<CombinableVfsDir>::empty());
        assert(dirs_named(dir_models(s), n) =~= Seq::<DirModel>::empty());
        assert(dir_models(named_of(s, n)).len() == 0);
        assert(dir_models(named_of(s, n)) =~= dirs_named(dir_models(s), n));
    } else {
        lemma_dir_models_named(s.drop_last(), n);
        assert(dir_models(s).drop_last() =~= dir_models(s.drop_last()));
        assert(dir_models(s).last() == dir_model(s.last()));
        assert(dir_models(s) == dir_models(s.drop_last()).push(dir_model(s.last())));
        lemma_filter_push(s.drop_last(), s.last(), |t: CombinableVfsDir| t.spec_name() == n);
        lemma_filter_push(
            dir_models(s.drop_last()),
            dir_model(s.last()),
            |x: DirModel| x.name == n,
        );
        assert(s.drop_last().push(s.last()) =~= s);
        assert(dir_models(s.drop_last()).push(dir_model(s.last())) =~= dir_models(s));
        if s.last().spec_name() == n {
            assert(named_of(s, n) == named_of(s.drop_last(), n).push(s.last()));
            assert(named_of(s, n).drop_last() =~= named_of(s.drop_last(), n));
            assert(named_of(s, n).last() == s.last());
            assert(dir_models(named_of(s, n)) == dir_models(named_of(s.drop_last(), n)).push(
                dir_model(s.last()),
            ));
            assert(dirs_named(dir_models(s), n) == dirs_named(dir_models(s.drop_last()), n).push(
                dir_model(s.last()),
            ));
        } else {
            assert(named_of(s, n) == named_of(s.drop_last(), n));
            assert(dirs_named(dir_models(s), n) == dirs_named(dir_models(s.drop_last()), n));
        }
    }
}

/// Mapping a file sequence to models commutes with taking the elements of a
/// given name.
pub proof fn lemma_file_models_named(s: Seq<CombinableVfsFile>, n: Seq<char>)
    ensures
        file_models(named_of(s, n)) == files_named(file_models(s), n),
    decreases s.len(),
{
    reveal(Seq::filter);
    if s.len() == 0 {
        assert(named_of(s, n) =~= Seq::<CombinableVfsFile>::empty());
        assert(file_models(s) =~= Seq::<FileModel>::empty());
        assert(file_models(named_of(s, n)) =~= files_named(file_models(s), n));
    } else {
        lemma_file_models_named(s.drop_last(), n);
        assert(file_models(s).drop_last() =~= file_models(s.drop_last()));
        assert(file_models(s).last() == file_model(s.last()));
        lemma_filter_push(s.drop_last(), s.last(), |t: CombinableVfsFile| t.spec_name() == n);
        lemma_filter_push(
            file_models(s.drop_last()),
            file_model(s.last()),
            |x: FileModel| x.name == n,
        );
        assert(s.drop_last().push(s.last()) =~= s);
        assert(file_models(s.drop_last()).push(file_model(s.last())) =~= file_models(s));
        if s.last().spec_name() == n {
            assert(named_of(s, n) == named_of(s.drop_last(), n).push(s.last()));
            assert(named_of(s, n).drop_last() =~= named_of(s.drop_last(), n));
            assert(named_of(s, n).last() == s.last());
            assert(file_models(named_of(s, n)) =~= file_models(named_of(s.drop_last(), n)).push(
                file_model(s.last()),
            ));
        } else {
            assert(named_of(s, n) == named_of(s.drop_last(), n));
            assert(file_models(named_of(s, n)) =~= file_models(named_of(s.drop_last(), n)));
        }
    }
}

pub proof fn lemma_dir_models_add(a: Seq<CombinableVfsDir>, b: Seq<CombinableVfsDir>)
    ensures
        dir_models(a + b) == dir_models(a) + dir_models(b),
    decreases b.len(),
{
    if b.len() == 0 {
        assert(a + b =~= a);
        assert(dir_models(b) =~= Seq::<DirModel>::empty());
        assert(dir_models(a) + dir_models(b) =~= dir_models(a));
    } else {
        lemma_dir_models_add(a, b.drop_last());
        assert((a + b).drop_last() =~= a + b.drop_last());
        assert((a + b).last() == b.last());
        assert(dir_models(b).drop_last() =~= dir_models(b.drop_last()));
        assert(dir_models(b).last() == dir_model(b.last()));
        assert(dir_models(a) + dir_models(b) =~= (dir_models(a) + dir_models(b.drop_last())).push(
            dir_model(b.last()),
        ));
    }
}

// ---------------------------------------------------------------------------
// Grouping by name.
// ---------------------------------------------------------------------------

/// Whether some group carries the key `n`.
pub open spec fn key_present<T: VfsBasicMeta>(groups: Seq<(String, Vec<T>)>, n: Seq<char>) -> bool {
    exists|g: int| 0 <= g < groups.len() && (#[trigger] groups[g]).0@ == n
}

/// Splits `flat` into one group per distinct name: each group carries the
/// subsequence of the input that bears its key, every key appears once, and
/// every input element lands in the group of its own name.
pub fn separate_by_name<T: VfsBasicMeta>(flat: Vec<T>) -> (groups: Vec<(String, Vec<T>)>)
    ensures
        forall|g: int|
            0 <= g < groups@.len() ==> (#[trigger] groups@[g]).1@ == named_of(
                flat@,
                groups@[g].0@,
            ),
        forall|g: int| 0 <= g < groups@.len() ==> (#[trigger] groups@[g]).1@.len() >= 1,
        forall|g1: int, g2: int|
            #![trigger groups@[g1].0, groups@[g2].0]
            0 <= g1 < g2 < groups@.len() ==> groups@[g1].0@ != groups@[g2].0@,
        forall|i: int|
            0 <= i < flat@.len() ==> key_present(groups@, (#[trigger] flat@[i]).spec_name()),
{
    let ghost flat_snap = flat@;
    let mut groups: Vec<(String, Vec<T>)> = Vec::new();
    let mut rest = flat;
    let ghost mut done: Seq<T> = Seq::empty();
    while rest.len() > 0
        invariant
            done + rest@ == flat_snap,
            forall|g: int|
                0 <= g < groups@.len() ==> (#[trigger] groups@[g]).1@ == named_of(
                    done,
                    groups@[g].0@,
                ),
            forall|g: int| 0 <= g < groups@.len() ==> (#[trigger] groups@[g]).1@.len() >= 1,
            forall|g1: int, g2: int|
                #![trigger groups@[g1].0, groups@[g2].0]
                0 <= g1 < g2 < groups@.len() ==> groups@[g1].0@ != groups@[g2].0@,
            forall|i: int|
                0 <= i < done.len() ==> key_present(groups@, (#[trigger] done[i]).spec_name()),
        decreases rest@.len(),
    {
        let x = rest.remove(0);
        let nm = x.name().clone();
        let mut idx: usize = groups.len();
        let mut g: usize = 0;
        while g < groups.len()
            invariant
                0 <= g <= groups@.len(),
                idx == groups@.len() || (0 <= idx < groups@.len() && groups@[idx as int].0@
                    == nm@),
                idx == groups@.len() ==> forall|k: int| 0 <= k < g ==> groups@[k].0@ != nm@,
                nm@ == x.spec_name(),
            decreases groups@.len() - g,
        {
            if idx == groups.len() && nm == groups[g].0 {
                idx = g;
            }
            g += 1;
        }
        let ghost g0 = groups@;
        if idx < groups.len() {
            let mut pair = groups.remove(idx);
            pair.1.push(x);
            groups.insert(idx, pair);
            proof {
                let done0 = done;
                assert(groups@.len() == g0.len());
                assert(forall|k: int|
                    0 <= k < g0.len() && k != idx ==> #[trigger] groups@[k] == g0[k]);
                assert(groups@[idx as int].0 == g0[idx as int].0);
                assert(groups@[idx as int].1@ == g0[idx as int].1@.push(x));
                assert forall|g2: int|
                    0 <= g2 < groups@.len() implies (#[trigger] groups@[g2]).1@ == named_of(
                    done0.push(x),
                    groups@[g2].0@,
                ) by {
                    lemma_filter_push(done0, x, |t: T| t.spec_name() == groups@[g2].0@);
                    if g2 != idx {
                        assert(groups@[g2].0@ != nm@);
                    }
                }
                done = done0.push(x);
                assert(done + rest@ =~= flat_snap);
                assert forall|i: int| 0 <= i < done.len() implies key_present(
                    groups@,
                    (#[trigger] done[i]).spec_name(),
                ) by {
                    if i < done.len() - 1 {
                        assert(done[i] == done0[i]);
                        assert(key_present(g0, done0[i].spec_name()));
                        let gg = choose|gg: int|
                            0 <= gg < g0.len() && (#[trigger] g0[gg]).0@ == done0[i].spec_name();
                        assert(groups@[gg].0 == g0[gg].0);
                        assert(groups@[gg].0@ == done[i].spec_name());
                    } else {
                        assert(done[i] == x);
                        assert(groups@[idx as int].0@ == done[i].spec_name());
                    }
                }
            }
        } else {
            proof {
                // nothing processed so far bears the new key, else the key
                // would already head a group
                assert forall|i: int| 0 <= i < done.len() implies (#[trigger] done[i]).spec_name()
                    != nm@ by {
                    assert(key_present(groups@, done[i].spec_name()));
                    let gg = choose|gg: int|
                        0 <= gg < groups@.len() && (#[trigger] groups@[gg]).0@
                            == done[i].spec_name();
                }
                lemma_filter_all_false(done, |t: T| t.spec_name() == nm@);
                assert(named_of(done, nm@).len() == 0);
            }
            let mut v: Vec<T> = Vec::new();
            v.push(x);
            groups.push((nm, v));
            proof {
                let done0 = done;
                assert(groups@ == g0.push((nm, v)));
                assert forall|g2: int|
                    0 <= g2 < groups@.len() implies (#[trigger] groups@[g2]).1@ == named_of(
                    done0.push(x),
                    groups@[g2].0@,
                ) by {
                    lemma_filter_push(done0, x, |t: T| t.spec_name() == groups@[g2].0@);
                    if g2 == g0.len() {
                        assert(groups@[g2].1@ =~= Seq::empty().push(x));
                        assert(named_of(done0, nm@) =~= Seq::<T>::empty());
                    } else {
                        assert(groups@[g2] == g0[g2]);
                        assert(groups@[g2].0@ != nm@);
                    }
                }
                done = done0.push(x);
                assert(done + rest@ =~= flat_snap);
                assert forall|i: int| 0 <= i < done.len() implies key_present(
                    groups@,
                    (#[trigger] done[i]).spec_name(),
                ) by {
                    if i < done.len() - 1 {
                        assert(done[i] == done0[i]);
                        assert(key_present(g0, done0[i].spec_name()));
                        let gg = choose|gg: int|
                            0 <= gg < g0.len() && (#[trigger] g0[gg]).0@ == done0[i].spec_name();
                        assert(groups@[gg] == g0[gg]);
                        assert(groups@[gg].0@ == done[i].spec_name());
                    } else {
                        assert(done[i] == x);
                        assert(groups@[g0.len() as int].0@ == done[i].spec_name());
                    }
                }
            }
        }
    }
    proof {
        assert(done =~= flat_snap);
        assert forall|i: int| 0 <= i < flat_snap.len() implies key_present(
            groups@,
            (#[trigger] flat_snap[i]).spec_name(),
        ) by {
            assert(done[i] == flat_snap[i]);
            assert(key_present(groups@, done[i].spec_name()));
        }
    }
    groups
}

pub proof fn lemma_filter_all_false<A>(s: Seq<A>, pred: spec_fn(A) -> bool)
    requires
        forall|i: int| 0 <= i < s.len() ==> !pred(#[trigger] s[i]),
    ensures
        s.filter(pred).len() == 0,
    decreases s.len(),
{
    reveal(Seq::filter);
    if s.len() > 0 {
        assert(forall|i: int|
            0 <= i < s.drop_last().len() ==> #[trigger] s.drop_last()[i] == s[i]);
        lemma_filter_all_false(s.drop_last(), pred);
        assert(!pred(s.last()));
    }
}


// ---------------------------------------------------------------------------
// Merging files.
// ---------------------------------------------------------------------------

/// Merges a non-empty group of same-named files into one logical file: the
/// name and size of the first member, the latest stamp of any member, and
/// the union of all members' download locations.
pub fn combine_vfs_files(files: Vec<CombinableVfsFile>) -> (r: CombinableVfsFile)
    requires
        files@.len() >= 1,
    ensures
        r@ == combined_file(file_models(files@)),
{
    let mut links: Vec<String> = Vec::new();
    let mut latest: i64 = i64::MIN;
    let mut i: usize = 0;
    while i < files.len()
        invariant
            0 <= i <= files@.len(),
            string_models(links@) == all_links(file_models(files@.take(i as int))),
            latest == files_latest(file_models(files@.take(i as int))),
        decreases files@.len() - i,
    {
        proof {
            assert(files@.take(i + 1).drop_last() =~= files@.take(i as int));
            assert(files@.take(i + 1).last() == files@[i as int]);
            assert(file_models(files@.take(i + 1)).drop_last() =~= file_models(
                files@.take(i as int),
            ));
            assert(file_models(files@.take(i + 1)).last() == files@[i as int]@);
        }
        let mut ls = files[i].possible_on_download();
        let ghost links_before = links@;
        let ghost lsg = ls@;
        links.append(&mut ls);
        proof {
            assert(links@ == links_before + lsg);
            assert(string_models(links_before + lsg) =~= string_models(links_before)
                + string_models(lsg));
        }
        let lm = files[i].last_modified;
        if lm > latest {
            latest = lm;
        }
        i += 1;
    }
    proof {
        assert(files@.take(files@.len() as int) =~= files@);
    }
    let name = files[0].name.clone();
    let size = files[0].size;
    let r = CombinableVfsFile::new(links, name, size, latest);
    proof {
        assert(file_models(files@)[0] == files@[0]@);
        assert(r@ =~~= combined_file(file_models(files@)));
    }
    r
}

// ---------------------------------------------------------------------------
// Merging directory forests.
// ---------------------------------------------------------------------------

/// What it means for `r` to be the merge of the forest `ds`:
/// `r` takes the first root's name; its size and stamp are recomputed from
/// its children; its files are exactly one combined file per distinct name
/// among the inputs' immediate files; and its subdirectories are exactly
/// one merge, recursively, per distinct name among the inputs' immediate
/// subdirectories.
pub open spec fn is_combine_of(r: DirModel, ds: Seq<DirModel>) -> bool
    recommends
        ds.len() >= 1,
    decreases dirs_node_count(ds),
{
    let cd = concat_sub_dirs(ds);
    let cf = concat_files(ds);
    &&& r.name == ds[0].name
    &&& r.size == sat_add_u64(dir_sizes_total(r.sub_dirs), file_sizes_total(r.files))
    &&& (r.sub_dirs.len() + r.files.len() > 0 ==> r.last_modified == dir_children_latest(r))
    &&& (r.sub_dirs.len() + r.files.len() == 0 ==> r.last_modified == ds[0].last_modified)
    &&& (forall|j: int|
        0 <= j < r.files.len() ==> {
            let grp = files_named(cf, (#[trigger] r.files[j]).name);
            grp.len() >= 1 && r.files[j] == combined_file(grp)
        })
    &&& (forall|i: int|
        0 <= i < cf.len() ==> file_name_present(r.files, (#[trigger] cf[i]).name))
    &&& (forall|j1: int, j2: int|
        #![trigger r.files[j1], r.files[j2]]
        0 <= j1 < j2 < r.files.len() ==> r.files[j1].name != r.files[j2].name)
    &&& (forall|j: int|
        0 <= j < r.sub_dirs.len() ==> {
            let grp = dirs_named(cd, (#[trigger] r.sub_dirs[j]).name);
            &&& grp.len() >= 1
            &&& dirs_node_count(grp) < dirs_node_count(ds)
            &&& is_combine_of(r.sub_dirs[j], grp)
        })
    &&& (forall|i: int|
        0 <= i < cd.len() ==> dir_name_present(r.sub_dirs, (#[trigger] cd[i]).name))
    &&& (forall|j1: int, j2: int|
        #![trigger r.sub_dirs[j1], r.sub_dirs[j2]]
        0 <= j1 < j2 < r.sub_dirs.len() ==> r.sub_dirs[j1].name != r.sub_dirs[j2].name)
}

/// Whether some file of `fs` bears the name `n`.
pub open spec fn file_name_present(fs: Seq<FileModel>, n: Seq<char>) -> bool {
    exists|j: int| 0 <= j < fs.len() && (#[trigger] fs[j]).name == n
}

/// Whether some directory of `ds` bears the name `n`.
pub open spec fn dir_name_present(ds: Seq<DirModel>, n: Seq<char>) -> bool {
    exists|j: int| 0 <= j < ds.len() && (#[trigger] ds[j]).name == n
}


/// The union of the locations of a non-empty group of files with locations
/// is itself non-empty.
pub proof fn lemma_all_links_nonempty(fs: Seq<FileModel>)
    requires
        fs.len() >= 1,
        forall|i: int| 0 <= i < fs.len() ==> (#[trigger] fs[i]).links.len() >= 1,
    ensures
        all_links(fs).len() >= 1,
    decreases fs.len(),
{
    if fs.len() == 1 {
        assert(all_links(fs) == all_links(fs.drop_last()) + fs.last().links);
        assert(fs.last() == fs[0]);
    } else {
        assert(forall|i: int|
            0 <= i < fs.drop_last().len() ==> #[trigger] fs.drop_last()[i] == fs[i]);
        lemma_all_links_nonempty(fs.drop_last());
    }
}

/// Merges a non-empty collection of directories that stand for the same
/// logical root into one de-duplicated directory. The result takes the
/// first input's name; same-named subdirectories are merged recursively and
/// same-named files are merged into one file with all locations kept.
pub fn combine_vfs_dirs(dirs: Vec<CombinableVfsDir>) -> (r: CombinableVfsDir)
    requires
        dirs@.len() >= 1,
    ensures
        is_combine_of(r@, dir_models(dirs@)),
        (forall|i: int| 0 <= i < dirs@.len() ==> dir_model_wf(#[trigger] dirs@[i]@))
            ==> dir_model_wf(r@),
    decreases dirs_node_count(dir_models(dirs@)),
{
    let ghost orig = dir_models(dirs@);
    proof {
        lemma_dir_models_index(dirs@);
    }
    let ghost inputs_wf: bool = (forall|i: int|
        0 <= i < dirs@.len() ==> dir_model_wf(#[trigger] dirs@[i]@));
    let name = dirs[0].name.clone();
    let fallback_lm = dirs[0].last_modified;

    // Gather every input's immediate subdirectories and files.
    let mut all_dirs: Vec<CombinableVfsDir> = Vec::new();
    let mut all_files: Vec<CombinableVfsFile> = Vec::new();
    let mut i0: usize = 0;
    while i0 < dirs.len()
        invariant
            0 <= i0 <= dirs@.len(),
            dir_models(all_dirs@) == concat_sub_dirs(dir_models(dirs@.take(i0 as int))),
            file_models(all_files@) == concat_files(dir_models(dirs@.take(i0 as int))),
        decreases dirs@.len() - i0,
    {
        proof {
            assert(dirs@.take(i0 + 1).drop_last() =~= dirs@.take(i0 as int));
            assert(dirs@.take(i0 + 1).last() == dirs@[i0 as int]);
            assert(dir_models(dirs@.take(i0 + 1)) == dir_models(dirs@.take(i0 as int)).push(
                dir_model(dirs@[i0 as int]),
            ));
            assert(dir_models(dirs@.take(i0 + 1)).drop_last() =~= dir_models(
                dirs@.take(i0 as int),
            ));
            assert(dir_models(dirs@.take(i0 + 1)).last() == dir_model(dirs@[i0 as int]));
        }
        let d = dirs[i0].clone();
        let (mut sd, mut fs, _sz, _nm) = d.destruct();
        let ghost sdg = sd@;
        let ghost fsg = fs@;
        let ghost all_dirs_before = all_dirs@;
        let ghost all_files_before = all_files@;
        all_dirs.append(&mut sd);
        all_files.append(&mut fs);
        proof {
            lemma_dir_models_add(all_dirs_before, sdg);
            assert(dir_models(sdg) == dir_model(dirs@[i0 as int]).sub_dirs);
            assert(file_models(all_files_before + fsg) =~= file_models(all_files_before)
                + file_models(fsg));
            assert(file_models(fsg) == dir_model(dirs@[i0 as int]).files);
        }
        i0 += 1;
    }
    proof {
        assert(dirs@.take(dirs@.len() as int) =~= dirs@);
    }
    let ghost cd = concat_sub_dirs(orig);
    let ghost cf = concat_files(orig);
    let ghost all_dirs_snap = all_dirs@;
    let ghost all_files_snap = all_files@;
    proof {
        lemma_dir_models_index(dirs@);
        assert(orig.len() == dirs@.len());
        if inputs_wf {
            assert forall|i: int| 0 <= i < orig.len() implies dir_model_wf(
                #[trigger] orig[i],
            ) by {
                assert(orig[i] == dirs@[i]@);
            }
            lemma_concat_children_wf(orig);
        }
        lemma_dir_models_index(all_dirs_snap);
        lemma_concat_sub_dirs_count(orig);
    }

    // Merge the same-named subdirectories, one group at a time.
    let mut dir_groups = separate_by_name(all_dirs);
    let ghost dgroups0 = dir_groups@;
    let mut new_dirs: Vec<CombinableVfsDir> = Vec::new();
    let ghost mut gk: int = 0;
    while dir_groups.len() > 0
        invariant
            0 <= gk <= dgroups0.len(),
            dir_groups@ == dgroups0.skip(gk),
            new_dirs@.len() == gk,
            dirs@.len() >= 1,
            orig == dir_models(dirs@),
            orig.len() == dirs@.len(),
            dirs_node_count(cd) + orig.len() == dirs_node_count(orig),
            cd == concat_sub_dirs(orig),
            dir_models(all_dirs_snap) == cd,
            inputs_wf ==> (forall|k: int|
                0 <= k < cd.len() ==> dir_model_wf(#[trigger] cd[k])),
            forall|g: int|
                0 <= g < dgroups0.len() ==> (#[trigger] dgroups0[g]).1@ == named_of(
                    all_dirs_snap,
                    dgroups0[g].0@,
                ),
            forall|g: int| 0 <= g < dgroups0.len() ==> (#[trigger] dgroups0[g]).1@.len() >= 1,
            forall|j: int|
                0 <= j < gk ==> (#[trigger] new_dirs@[j])@.name == dgroups0[j].0@,
            forall|j: int|
                0 <= j < gk ==> is_combine_of(
                    (#[trigger] new_dirs@[j])@,
                    dirs_named(cd, dgroups0[j].0@),
                ),
            forall|j: int|
                0 <= j < gk ==> dirs_node_count(
                    dirs_named(cd, (#[trigger] dgroups0[j]).0@),
                ) < dirs_node_count(orig),
            forall|j: int|
                0 <= j < gk ==> dirs_named(cd, (#[trigger] dgroups0[j]).0@).len() >= 1,
            inputs_wf ==> (forall|j: int|
                0 <= j < gk ==> dir_model_wf((#[trigger] new_dirs@[j])@)),
        decreases dir_groups@.len(),
    {
        let (key, grp) = dir_groups.remove(0);
        proof {
            assert(dgroups0.skip(gk)[0] == dgroups0[gk]);
            assert((key, grp)@ == dgroups0[gk]@) by {
                assert(key == dgroups0[gk].0);
                assert(grp == dgroups0[gk].1);
            }
            assert(grp@ == named_of(all_dirs_snap, key@));
            assert(grp@.len() >= 1);
            lemma_dir_models_named(all_dirs_snap, key@);
            assert(dir_models(grp@) == dirs_named(cd, key@));
            lemma_dirs_node_count_filter(cd, |x: DirModel| x.name == key@);
            assert(dirs_node_count(dirs_named(cd, key@)) <= dirs_node_count(cd));
            assert(dirs_node_count(dir_models(grp@)) < dirs_node_count(orig));
            lemma_dir_models_index(grp@);
            if inputs_wf {
                lemma_filter_elements(cd, |x: DirModel| x.name == key@);
                assert forall|t: int| 0 <= t < grp@.len() implies dir_model_wf(
                    #[trigger] grp@[t]@,
                ) by {
                    assert(grp@[t]@ == dirs_named(cd, key@)[t]);
                    assert(cd.contains(dirs_named(cd, key@)[t]));
                    let w = choose|w: int| 0 <= w < cd.len() && cd[w] == dirs_named(cd, key@)[t];
                }
            }
        }
        let sub = combine_vfs_dirs(grp);
        new_dirs.push(sub);
        proof {
            assert(dirs_named(cd, key@).len() >= 1);
            assert(dirs_named(cd, key@)[0].name == key@) by {
                broadcast use vstd::seq_lib::group_filter_ensures;
            }
            assert(new_dirs@.last()@.name == key@);
            gk = gk + 1;
            assert(dir_groups@ =~= dgroups0.skip(gk));
        }
    }

    // Merge the same-named files, one group at a time.
    let mut file_groups = separate_by_name(all_files);
    let ghost fgroups0 = file_groups@;
    let mut new_files: Vec<CombinableVfsFile> = Vec::new();
    let ghost mut fk: int = 0;
    while file_groups.len() > 0
        invariant
            0 <= fk <= fgroups0.len(),
            file_groups@ == fgroups0.skip(fk),
            new_files@.len() == fk,
            cf == concat_files(orig),
            file_models(all_files_snap) == cf,
            inputs_wf ==> (forall|k: int|
                0 <= k < cf.len() ==> file_model_wf(#[trigger] cf[k])),
            forall|g: int|
                0 <= g < fgroups0.len() ==> (#[trigger] fgroups0[g]).1@ == named_of(
                    all_files_snap,
                    fgroups0[g].0@,
                ),
            forall|g: int| 0 <= g < fgroups0.len() ==> (#[trigger] fgroups0[g]).1@.len() >= 1,
            forall|j: int|
                0 <= j < fk ==> (#[trigger] new_files@[j])@.name == fgroups0[j].0@,
            forall|j: int|
                0 <= j < fk ==> (#[trigger] new_files@[j])@ == combined_file(
                    files_named(cf, fgroups0[j].0@),
                ),
            forall|j: int|
                0 <= j < fk ==> files_named(cf, (#[trigger] fgroups0[j]).0@).len() >= 1,
            inputs_wf ==> (forall|j: int|
                0 <= j < fk ==> file_model_wf((#[trigger] new_files@[j])@)),
        decreases file_groups@.len(),
    {
        let (key, grp) = file_groups.remove(0);
        proof {
            assert(fgroups0.skip(fk)[0] == fgroups0[fk]);
            assert(key == fgroups0[fk].0);
            assert(grp == fgroups0[fk].1);
            assert(grp@ == named_of(all_files_snap, key@));
            assert(grp@.len() >= 1);
            lemma_file_models_named(all_files_snap, key@);
            assert(file_models(grp@) == files_named(cf, key@));
            assert(files_named(cf, key@)[0].name == key@) by {
                broadcast use vstd::seq_lib::group_filter_ensures;
            }
        }
        let merged = combine_vfs_files(grp);
        new_files.push(merged);
        proof {
            assert(new_files@.last()@ == combined_file(files_named(cf, key@)));
            assert(new_files@.last()@.name == key@);
            if inputs_wf {
                lemma_filter_elements(cf, |x: FileModel| x.name == key@);
                let fgrp = files_named(cf, key@);
                assert forall|t: int| 0 <= t < fgrp.len() implies (#[trigger] fgrp[t]).links.len()
                    >= 1 by {
                    assert(cf.contains(fgrp[t]));
                    let w = choose|w: int| 0 <= w < cf.len() && cf[w] == fgrp[t];
                }
                lemma_all_links_nonempty(fgrp);
                assert(cf.contains(fgrp[0]));
                let w0 = choose|w0: int| 0 <= w0 < cf.len() && cf[w0] == fgrp[0];
                assert(file_model_wf(new_files@.last()@));
            }
            fk = fk + 1;
            assert(file_groups@ =~= fgroups0.skip(fk));
        }
    }

    // Assemble the merged directory; its size and stamp are recomputed.
    let ghost ndg = new_dirs@;
    let ghost nfg = new_files@;
    let r = CombinableVfsDir::new(name, new_dirs, new_files, fallback_lm);
    proof {
        lemma_dir_models_index(dirs@);
        lemma_dir_models_index(ndg);
        assert(r@.sub_dirs == dir_models(ndg));
        assert(r@.files == file_models(nfg));
        assert(r@.sub_dirs.len() == dgroups0.len());
        assert(r@.files.len() == fgroups0.len());
        assert forall|j: int| 0 <= j < r@.sub_dirs.len() implies {
            let grp2 = dirs_named(cd, (#[trigger] r@.sub_dirs[j]).name);
            &&& grp2.len() >= 1
            &&& dirs_node_count(grp2) < dirs_node_count(orig)
            &&& is_combine_of(r@.sub_dirs[j], grp2)
        } by {
            assert(r@.sub_dirs[j] == ndg[j]@);
            assert(r@.sub_dirs[j].name == dgroups0[j].0@);
        }
        assert forall|j: int| 0 <= j < r@.files.len() implies {
            let grp2 = files_named(cf, (#[trigger] r@.files[j]).name);
            &&& grp2.len() >= 1
            &&& r@.files[j] == combined_file(grp2)
        } by {
            assert(r@.files[j] == nfg[j]@);
            assert(r@.files[j].name == fgroups0[j].0@);
        }
        // every input child name is represented
        assert forall|i: int| 0 <= i < cd.len() implies dir_name_present(
            r@.sub_dirs,
            (#[trigger] cd[i]).name,
        ) by {
            assert(all_dirs_snap[i]@ == cd[i]);
            assert(all_dirs_snap[i].spec_name() == cd[i].name);
            assert(key_present(dgroups0, all_dirs_snap[i].spec_name()));
            let g = choose|g: int|
                0 <= g < dgroups0.len() && (#[trigger] dgroups0[g]).0@ == all_dirs_snap[
                    i
                ].spec_name();
            assert(r@.sub_dirs[g] == ndg[g]@);
            assert(r@.sub_dirs[g].name == cd[i].name);
        }
        assert forall|i: int| 0 <= i < cf.len() implies file_name_present(
            r@.files,
            (#[trigger] cf[i]).name,
        ) by {
            assert(all_files_snap[i]@ == cf[i]);
            assert(all_files_snap[i].spec_name() == cf[i].name);
            assert(key_present(fgroups0, all_files_snap[i].spec_name()));
            let g = choose|g: int|
                0 <= g < fgroups0.len() && (#[trigger] fgroups0[g]).0@ == all_files_snap[
                    i
                ].spec_name();
            assert(r@.files[g] == nfg[g]@);
            assert(r@.files[g].name == cf[i].name);
        }
        // distinct names
        assert forall|j1: int, j2: int|
            #![trigger r@.sub_dirs[j1], r@.sub_dirs[j2]]
            0 <= j1 < j2 < r@.sub_dirs.len() implies r@.sub_dirs[j1].name
            != r@.sub_dirs[j2].name by {
            assert(r@.sub_dirs[j1] == ndg[j1]@);
            assert(r@.sub_dirs[j2] == ndg[j2]@);
            assert(dgroups0[j1].0@ != dgroups0[j2].0@);
        }
        assert forall|j1: int, j2: int|
            #![trigger r@.files[j1], r@.files[j2]]
            0 <= j1 < j2 < r@.files.len() implies r@.files[j1].name != r@.files[j2].name by {
            assert(r@.files[j1] == nfg[j1]@);
            assert(r@.files[j2] == nfg[j2]@);
            assert(fgroups0[j1].0@ != fgroups0[j2].0@);
        }
        assert(r@.name == orig[0].name);
        assert(r@.sub_dirs.len() + r@.files.len() == 0 ==> r@.last_modified == orig[
            0
        ].last_modified);
        assert(is_combine_of(r@, orig));
        if inputs_wf {
            assert forall|i: int| 0 <= i < ndg.len() implies dir_model_wf(
                #[trigger] ndg[i]@,
            ) by {}
            assert forall|i: int| 0 <= i < nfg.len() implies file_model_wf(
                #[trigger] nfg[i]@,
            ) by {}
            assert(valid_segment(orig[0].name));
            assert(dir_model_wf(r@));
        }
    }
    r
}

} // verus!
