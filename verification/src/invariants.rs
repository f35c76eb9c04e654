use vstd::prelude::*;
use vstd::seq_lib::lemma_seq_union_to_multiset_commutative;

use crate::combine::{
    all_links, combined_file, concat_files, dir_name_present, dirs_node_count, file_name_present,
    files_named, is_combine_of, lemma_filter_elements, lemma_filter_push,
};
use crate::path_compress::{joined, walk_dir, walk_dirs, walk_files};
use crate::vfs::{
    dir_model_wf, dir_sizes_total, dirs_latest, file_sizes_total, files_latest, spec_max_i64,
    DirModel, EntryModel, FileModel,
};

verus! {

// ---------------------------------------------------------------------------
// The size invariant.
// ---------------------------------------------------------------------------

/// The exact mathematical sum of the files' sizes.
pub open spec fn files_sizes_sum(fs: Seq<FileModel>) -> int
    decreases fs.len(),
{
    if fs.len() == 0 {
        0
    } else {
        files_sizes_sum(fs.drop_last()) + fs.last().size
    }
}

/// The exact mathematical sum of the directories' sizes.
pub open spec fn dirs_sizes_sum(ds: Seq<DirModel>) -> int
    decreases ds.len(),
{
    if ds.len() == 0 {
        0
    } else {
        dirs_sizes_sum(ds.drop_last()) + ds.last().size
    }
}

/// Whether, at every directory of the tree, the children's sizes sum
/// within the byte-count type.
pub open spec fn sizes_fit(d: DirModel) -> bool
    decreases d,
{
    &&& dirs_sizes_sum(d.sub_dirs) + files_sizes_sum(d.files) <= u64::MAX
    &&& forall|i: int| 0 <= i < d.sub_dirs.len() ==> sizes_fit(#[trigger] d.sub_dirs[i])
}

/// Whether every directory's size is exactly the sum of its children's
/// sizes, at every depth.
pub open spec fn sizes_exact(d: DirModel) -> bool
    decreases d,
{
    &&& d.size == dirs_sizes_sum(d.sub_dirs) + files_sizes_sum(d.files)
    &&& forall|i: int| 0 <= i < d.sub_dirs.len() ==> sizes_exact(#[trigger] d.sub_dirs[i])
}

pub proof fn lemma_files_sizes_sum_nonneg(fs: Seq<FileModel>)
    ensures
        files_sizes_sum(fs) >= 0,
    decreases fs.len(),
{
    if fs.len() > 0 {
        lemma_files_sizes_sum_nonneg(fs.drop_last());
    }
}

pub proof fn lemma_dirs_sizes_sum_nonneg(ds: Seq<DirModel>)
    ensures
        dirs_sizes_sum(ds) >= 0,
    decreases ds.len(),
{
    if ds.len() > 0 {
        lemma_dirs_sizes_sum_nonneg(ds.drop_last());
    }
}

pub proof fn lemma_file_total_is_sum(fs: Seq<FileModel>)
    requires
        files_sizes_sum(fs) <= u64::MAX,
    ensures
        file_sizes_total(fs) == files_sizes_sum(fs),
    decreases fs.len(),
{
    lemma_files_sizes_sum_nonneg(fs);
    if fs.len() > 0 {
        lemma_files_sizes_sum_nonneg(fs.drop_last());
        lemma_file_total_is_sum(fs.drop_last());
    }
}

pub proof fn lemma_dir_total_is_sum(ds: Seq<DirModel>)
    requires
        dirs_sizes_sum(ds) <= u64::MAX,
    ensures
        dir_sizes_total(ds) == dirs_sizes_sum(ds),
    decreases ds.len(),
{
    lemma_dirs_sizes_sum_nonneg(ds);
    if ds.len() > 0 {
        lemma_dirs_sizes_sum_nonneg(ds.drop_last());
        lemma_dir_total_is_sum(ds.drop_last());
    }
}

/// Size invariant: in any well-formed tree — built or merged — whose
/// children's sizes sum within the byte-count type at every directory,
/// every directory's size equals the exact sum of its children's sizes,
/// recursively at every depth.
pub proof fn lemma_size_invariant(d: DirModel)
    requires
        dir_model_wf(d),
        sizes_fit(d),
    ensures
        sizes_exact(d),
    decreases d,
{
    lemma_files_sizes_sum_nonneg(d.files);
    lemma_dirs_sizes_sum_nonneg(d.sub_dirs);
    lemma_file_total_is_sum(d.files);
    lemma_dir_total_is_sum(d.sub_dirs);
    assert forall|i: int| 0 <= i < d.sub_dirs.len() implies sizes_exact(
        #[trigger] d.sub_dirs[i],
    ) by {
        lemma_size_invariant(d.sub_dirs[i]);
    }
}

// ---------------------------------------------------------------------------
// The timestamp invariant.
// ---------------------------------------------------------------------------

/// The latest stamp among all entries strictly below `d`: its files, its
/// subdirectories, and everything below them.
pub open spec fn descendants_latest(d: DirModel) -> i64
    decreases d, 1nat,
{
    spec_max_i64(files_latest(d.files), dirs_descendants_latest(d.sub_dirs))
}

pub open spec fn dirs_descendants_latest(ds: Seq<DirModel>) -> i64
    decreases ds, 0nat,
{
    if ds.len() == 0 {
        i64::MIN
    } else {
        spec_max_i64(
            dirs_descendants_latest(ds.drop_last()),
            spec_max_i64(ds.last().last_modified, descendants_latest(ds.last())),
        )
    }
}

/// Timestamp invariant: in a well-formed tree, every directory with
/// descendants carries exactly the latest stamp among its descendants.
pub proof fn lemma_timestamp_invariant(d: DirModel)
    requires
        dir_model_wf(d),
        d.sub_dirs.len() + d.files.len() > 0,
    ensures
        d.last_modified == descendants_latest(d),
    decreases d, 1nat,
{
    lemma_dirs_descendants(d.sub_dirs);
}

/// For well-formed directories, folding their own stamps in adds nothing:
/// a directory's stamp never exceeds and, with children, equals its
/// subtree's latest.
pub proof fn lemma_dirs_descendants(ds: Seq<DirModel>)
    requires
        forall|i: int| 0 <= i < ds.len() ==> dir_model_wf(#[trigger] ds[i]),
    ensures
        dirs_descendants_latest(ds) == dirs_latest(ds),
    decreases ds, 0nat,
{
    if ds.len() > 0 {
        assert(forall|i: int|
            0 <= i < ds.len() - 1 ==> #[trigger] ds.drop_last()[i] == ds[i]);
        lemma_dirs_descendants(ds.drop_last());
        let last = ds.last();
        assert(dir_model_wf(last));
        if last.sub_dirs.len() + last.files.len() > 0 {
            lemma_dirs_descendants(last.sub_dirs);
            assert(last.last_modified == descendants_latest(last));
        } else {
            assert(descendants_latest(last) == i64::MIN);
        }
        assert(spec_max_i64(last.last_modified, descendants_latest(last))
            == last.last_modified);
    }
}

// ---------------------------------------------------------------------------
// Merge order-independence.
// ---------------------------------------------------------------------------

pub proof fn lemma_all_links_add(a: Seq<FileModel>, b: Seq<FileModel>)
    ensures
        all_links(a + b) == all_links(a) + all_links(b),
    decreases b.len(),
{
    if b.len() == 0 {
        assert(a + b =~= a);
        assert(all_links(a) + all_links(b) =~= all_links(a));
    } else {
        assert((a + b).drop_last() =~= a + b.drop_last());
        assert((a + b).last() == b.last());
        lemma_all_links_add(a, b.drop_last());
        assert(all_links(a) + all_links(b) =~= all_links(a) + all_links(b.drop_last())
            + b.last().links);
    }
}

pub proof fn lemma_files_latest_add(a: Seq<FileModel>, b: Seq<FileModel>)
    ensures
        files_latest(a + b) == spec_max_i64(files_latest(a), files_latest(b)),
    decreases b.len(),
{
    if b.len() == 0 {
        assert(a + b =~= a);
    } else {
        assert((a + b).drop_last() =~= a + b.drop_last());
        assert((a + b).last() == b.last());
        lemma_files_latest_add(a, b.drop_last());
    }
}

pub proof fn lemma_files_named_add(a: Seq<FileModel>, b: Seq<FileModel>, n: Seq<char>)
    ensures
        files_named(a + b, n) == files_named(a, n) + files_named(b, n),
    decreases b.len(),
{
    if b.len() == 0 {
        assert(a + b =~= a);
        assert(files_named(b, n) =~= Seq::<FileModel>::empty());
        assert(files_named(a, n) + files_named(b, n) =~= files_named(a, n));
    } else {
        assert((a + b).drop_last() =~= a + b.drop_last());
        assert((a + b).last() == b.last());
        lemma_files_named_add(a, b.drop_last(), n);
        lemma_filter_push(a + b.drop_last(), b.last(), |x: FileModel| x.name == n);
        assert((a + b.drop_last()).push(b.last()) =~= a + b);
        lemma_filter_push(b.drop_last(), b.last(), |x: FileModel| x.name == n);
        assert(b.drop_last().push(b.last()) =~= b);
        if b.last().name == n {
            assert(files_named(a, n) + files_named(b, n) =~= (files_named(a, n) + files_named(
                b.drop_last(),
                n,
            )).push(b.last()));
        }
    }
}

/// What merge order-independence preserves, at every depth: the same file
/// and directory names; for same-named files the same candidate-location
/// multiset — the order of candidates may differ — and the same stamp;
/// and for same-named subdirectories the same again, recursively.
pub open spec fn combine_equiv(r1: DirModel, r2: DirModel) -> bool
    decreases r1,
{
    &&& (forall|n: Seq<char>|
        file_name_present(r1.files, n) <==> file_name_present(r2.files, n))
    &&& (forall|n: Seq<char>|
        dir_name_present(r1.sub_dirs, n) <==> dir_name_present(r2.sub_dirs, n))
    &&& (forall|j1: int, j2: int|
        #![trigger r1.files[j1], r2.files[j2]]
        0 <= j1 < r1.files.len() && 0 <= j2 < r2.files.len() && r1.files[j1].name
            == r2.files[j2].name ==> (r1.files[j1].links.to_multiset()
            == r2.files[j2].links.to_multiset() && r1.files[j1].last_modified
            == r2.files[j2].last_modified))
    &&& (forall|j1: int, j2: int|
        #![trigger r1.sub_dirs[j1], r2.sub_dirs[j2]]
        0 <= j1 < r1.sub_dirs.len() && 0 <= j2 < r2.sub_dirs.len() && r1.sub_dirs[j1].name
            == r2.sub_dirs[j2].name ==> combine_equiv(r1.sub_dirs[j1], r2.sub_dirs[j2]))
}

pub proof fn lemma_concat_files_blocks(x: Seq<DirModel>, y: Seq<DirModel>)
    ensures
        concat_files(x + y) == concat_files(x) + concat_files(y),
    decreases y.len(),
{
    if y.len() == 0 {
        assert(x + y =~= x);
        assert(concat_files(y).len() == 0);
        assert(concat_files(x) + concat_files(y) =~= concat_files(x));
    } else {
        assert((x + y).drop_last() =~= x + y.drop_last());
        assert((x + y).last() == y.last());
        lemma_concat_files_blocks(x, y.drop_last());
        assert(concat_files(x) + concat_files(y) =~= (concat_files(x) + concat_files(
            y.drop_last(),
        )) + y.last().files);
    }
}

pub proof fn lemma_concat_sub_dirs_blocks(x: Seq<DirModel>, y: Seq<DirModel>)
    ensures
        crate::combine::concat_sub_dirs(x + y) == crate::combine::concat_sub_dirs(x)
            + crate::combine::concat_sub_dirs(y),
    decreases y.len(),
{
    if y.len() == 0 {
        assert(x + y =~= x);
        assert(crate::combine::concat_sub_dirs(y).len() == 0);
        assert(crate::combine::concat_sub_dirs(x) + crate::combine::concat_sub_dirs(y)
            =~= crate::combine::concat_sub_dirs(x));
    } else {
        assert((x + y).drop_last() =~= x + y.drop_last());
        assert((x + y).last() == y.last());
        lemma_concat_sub_dirs_blocks(x, y.drop_last());
        assert(crate::combine::concat_sub_dirs(x) + crate::combine::concat_sub_dirs(y) =~= (
        crate::combine::concat_sub_dirs(x) + crate::combine::concat_sub_dirs(y.drop_last()))
            + y.last().sub_dirs);
    }
}

pub proof fn lemma_dirs_named_add(a: Seq<DirModel>, b: Seq<DirModel>, n: Seq<char>)
    ensures
        crate::combine::dirs_named(a + b, n) == crate::combine::dirs_named(a, n)
            + crate::combine::dirs_named(b, n),
    decreases b.len(),
{
    if b.len() == 0 {
        assert(a + b =~= a);
        assert(crate::combine::dirs_named(b, n) =~= Seq::<DirModel>::empty());
        assert(crate::combine::dirs_named(a, n) + crate::combine::dirs_named(b, n)
            =~= crate::combine::dirs_named(a, n));
    } else {
        assert((a + b).drop_last() =~= a + b.drop_last());
        assert((a + b).last() == b.last());
        lemma_dirs_named_add(a, b.drop_last(), n);
        lemma_filter_push(a + b.drop_last(), b.last(), |x: DirModel| x.name == n);
        assert((a + b.drop_last()).push(b.last()) =~= a + b);
        lemma_filter_push(b.drop_last(), b.last(), |x: DirModel| x.name == n);
        assert(b.drop_last().push(b.last()) =~= b);
        if b.last().name == n {
            assert(crate::combine::dirs_named(a, n) + crate::combine::dirs_named(b, n) =~= (
            crate::combine::dirs_named(a, n) + crate::combine::dirs_named(b.drop_last(), n)).push(
                b.last(),
            ));
        }
    }
}

/// Merge order-independence: exchanging the two halves of the merged
/// collection yields a tree with the same path set, the same per-path
/// candidate-location multisets, and the same per-path stamps, at every
/// depth. Representative sizes are the one exception: see
/// `lemma_combine_sizes_order_independent`.
pub proof fn lemma_combine_swap_equiv(
    r1: DirModel,
    r2: DirModel,
    x: Seq<DirModel>,
    y: Seq<DirModel>,
)
    requires
        is_combine_of(r1, x + y),
        is_combine_of(r2, y + x),
    ensures
        combine_equiv(r1, r2),
    decreases dirs_node_count(x + y),
{
    let cf1 = concat_files(x + y);
    let cf2 = concat_files(y + x);
    lemma_concat_files_blocks(x, y);
    lemma_concat_files_blocks(y, x);
    let cfx = concat_files(x);
    let cfy = concat_files(y);
    let cd1 = crate::combine::concat_sub_dirs(x + y);
    let cd2 = crate::combine::concat_sub_dirs(y + x);
    lemma_concat_sub_dirs_blocks(x, y);
    lemma_concat_sub_dirs_blocks(y, x);
    let cdx = crate::combine::concat_sub_dirs(x);
    let cdy = crate::combine::concat_sub_dirs(y);
    assert forall|n: Seq<char>|
        file_name_present(r1.files, n) implies file_name_present(r2.files, n) by {
        lemma_present_swap(r1, r2, cfx, cfy, n);
    }
    assert forall|n: Seq<char>|
        file_name_present(r2.files, n) implies file_name_present(r1.files, n) by {
        lemma_present_swap(r2, r1, cfy, cfx, n);
    }
    assert forall|n: Seq<char>|
        dir_name_present(r1.sub_dirs, n) implies dir_name_present(r2.sub_dirs, n) by {
        lemma_dir_present_swap(r1, r2, cdx, cdy, n);
    }
    assert forall|n: Seq<char>|
        dir_name_present(r2.sub_dirs, n) implies dir_name_present(r1.sub_dirs, n) by {
        lemma_dir_present_swap(r2, r1, cdy, cdx, n);
    }
    assert forall|j1: int, j2: int|
        #![trigger r1.files[j1], r2.files[j2]]
        0 <= j1 < r1.files.len() && 0 <= j2 < r2.files.len() && r1.files[j1].name
            == r2.files[j2].name implies (r1.files[j1].links.to_multiset()
        == r2.files[j2].links.to_multiset() && r1.files[j1].last_modified
        == r2.files[j2].last_modified) by {
        let n = r1.files[j1].name;
        let g1 = files_named(cf1, n);
        let g2 = files_named(cf2, n);
        assert(r1.files[j1] == combined_file(g1));
        assert(r2.files[j2] == combined_file(g2));
        lemma_files_named_add(cfx, cfy, n);
        lemma_files_named_add(cfy, cfx, n);
        let ga = files_named(cfx, n);
        let gb = files_named(cfy, n);
        lemma_all_links_add(ga, gb);
        lemma_all_links_add(gb, ga);
        lemma_seq_union_to_multiset_commutative(all_links(ga), all_links(gb));
        assert(combined_file(g1).links.to_multiset() == combined_file(g2).links.to_multiset());
        lemma_files_latest_add(ga, gb);
        lemma_files_latest_add(gb, ga);
        assert(spec_max_i64(files_latest(ga), files_latest(gb)) == spec_max_i64(
            files_latest(gb),
            files_latest(ga),
        ));
    }
    assert forall|j1: int, j2: int|
        #![trigger r1.sub_dirs[j1], r2.sub_dirs[j2]]
        0 <= j1 < r1.sub_dirs.len() && 0 <= j2 < r2.sub_dirs.len() && r1.sub_dirs[j1].name
            == r2.sub_dirs[j2].name implies combine_equiv(r1.sub_dirs[j1], r2.sub_dirs[j2]) by {
        let n = r1.sub_dirs[j1].name;
        let g1 = crate::combine::dirs_named(cd1, n);
        let g2 = crate::combine::dirs_named(cd2, n);
        assert(g1.len() >= 1 && dirs_node_count(g1) < dirs_node_count(x + y) && is_combine_of(
            r1.sub_dirs[j1],
            g1,
        ));
        assert(g2.len() >= 1 && is_combine_of(r2.sub_dirs[j2], g2));
        lemma_dirs_named_add(cdx, cdy, n);
        lemma_dirs_named_add(cdy, cdx, n);
        let u = crate::combine::dirs_named(cdx, n);
        let v = crate::combine::dirs_named(cdy, n);
        assert(g1 == u + v);
        assert(g2 == v + u);
        lemma_combine_swap_equiv(r1.sub_dirs[j1], r2.sub_dirs[j2], u, v);
    }
}

/// Merge order-independence for two providers: `combine` of `[a, b]` and
/// of `[b, a]` yield equivalent trees at every depth.
pub proof fn lemma_combine_order_independent(r1: DirModel, r2: DirModel, a: DirModel, b: DirModel)
    requires
        is_combine_of(r1, seq![a, b]),
        is_combine_of(r2, seq![b, a]),
    ensures
        combine_equiv(r1, r2),
{
    assert(seq![a] + seq![b] =~= seq![a, b]);
    assert(seq![b] + seq![a] =~= seq![b, a]);
    lemma_combine_swap_equiv(r1, r2, seq![a], seq![b]);
}

pub proof fn lemma_concat_files_two(a: DirModel, b: DirModel)
    ensures
        concat_files(seq![a, b]) == a.files + b.files,
{
    let s = seq![a, b];
    let s1 = seq![a];
    assert(s.drop_last() =~= s1);
    assert(s.last() == b);
    assert(s1.drop_last() =~= Seq::<DirModel>::empty());
    assert(s1.last() == a);
    assert(concat_files(Seq::<DirModel>::empty()).len() == 0);
    assert(concat_files(s1) == concat_files(s1.drop_last()) + a.files);
    assert(concat_files(s1) =~= a.files);
    assert(concat_files(s) == concat_files(s.drop_last()) + b.files);
    assert(concat_files(s) =~= a.files + b.files);
}

pub proof fn lemma_concat_sub_dirs_two(a: DirModel, b: DirModel)
    ensures
        crate::combine::concat_sub_dirs(seq![a, b]) == a.sub_dirs + b.sub_dirs,
{
    let s = seq![a, b];
    let s1 = seq![a];
    assert(s.drop_last() =~= s1);
    assert(s.last() == b);
    assert(s1.drop_last() =~= Seq::<DirModel>::empty());
    assert(s1.last() == a);
    assert(crate::combine::concat_sub_dirs(Seq::<DirModel>::empty()).len() == 0);
    assert(crate::combine::concat_sub_dirs(s1) == crate::combine::concat_sub_dirs(
        s1.drop_last(),
    ) + a.sub_dirs);
    assert(crate::combine::concat_sub_dirs(s1) =~= a.sub_dirs);
    assert(crate::combine::concat_sub_dirs(s) == crate::combine::concat_sub_dirs(s.drop_last())
        + b.sub_dirs);
    assert(crate::combine::concat_sub_dirs(s) =~= a.sub_dirs + b.sub_dirs);
}

/// A top-level file name of one merge order is a top-level file name of
/// the other.
proof fn lemma_present_swap(
    r1: DirModel,
    r2: DirModel,
    af: Seq<FileModel>,
    bf: Seq<FileModel>,
    n: Seq<char>,
)
    requires
        file_name_present(r1.files, n),
        forall|j: int|
            0 <= j < r1.files.len() ==> {
                let grp = files_named(af + bf, (#[trigger] r1.files[j]).name);
                grp.len() >= 1 && r1.files[j] == combined_file(grp)
            },
        forall|i: int|
            0 <= i < (bf + af).len() ==> file_name_present(
                r2.files,
                (#[trigger] (bf + af)[i]).name,
            ),
    ensures
        file_name_present(r2.files, n),
{
    let j = choose|j: int| 0 <= j < r1.files.len() && (#[trigger] r1.files[j]).name == n;
    let grp = files_named(af + bf, n);
    assert(grp.len() >= 1 && r1.files[j] == combined_file(grp));
    assert(combined_file(grp).name == grp[0].name);
    assert(grp[0].name == n);
    lemma_filter_elements(af + bf, |x: FileModel| x.name == n);
    assert((af + bf).contains(grp[0]));
    let i = choose|i: int| 0 <= i < (af + bf).len() && (af + bf)[i] == grp[0];
    if i < af.len() {
        assert((bf + af)[bf.len() + i] == af[i]);
        assert(file_name_present(r2.files, (bf + af)[bf.len() + i].name));
    } else {
        assert((bf + af)[i - af.len()] == bf[i - af.len()]);
        assert(file_name_present(r2.files, (bf + af)[i - af.len()].name));
    }
}

/// A top-level directory name of one merge order is a top-level directory
/// name of the other.
proof fn lemma_dir_present_swap(
    r1: DirModel,
    r2: DirModel,
    ad: Seq<DirModel>,
    bd: Seq<DirModel>,
    n: Seq<char>,
)
    requires
        dir_name_present(r1.sub_dirs, n),
        forall|j: int|
            0 <= j < r1.sub_dirs.len() ==> {
                let grp = crate::combine::dirs_named(ad + bd, (#[trigger] r1.sub_dirs[j]).name);
                grp.len() >= 1
            },
        forall|i: int|
            0 <= i < (bd + ad).len() ==> dir_name_present(
                r2.sub_dirs,
                (#[trigger] (bd + ad)[i]).name,
            ),
    ensures
        dir_name_present(r2.sub_dirs, n),
{
    let j = choose|j: int| 0 <= j < r1.sub_dirs.len() && (#[trigger] r1.sub_dirs[j]).name == n;
    let grp = crate::combine::dirs_named(ad + bd, n);
    assert(grp.len() >= 1);
    broadcast use vstd::seq_lib::group_filter_ensures;

    assert(grp[0].name == n);
    lemma_filter_elements(ad + bd, |x: DirModel| x.name == n);
    assert((ad + bd).contains(grp[0]));
    let i = choose|i: int| 0 <= i < (ad + bd).len() && (ad + bd)[i] == grp[0];
    if i < ad.len() {
        assert((bd + ad)[bd.len() + i] == ad[i]);
        assert(dir_name_present(r2.sub_dirs, (bd + ad)[bd.len() + i].name));
    } else {
        assert((bd + ad)[i - ad.len()] == bd[i - ad.len()]);
        assert(dir_name_present(r2.sub_dirs, (bd + ad)[i - ad.len()].name));
    }
}

/// The representative sizes are order-independent too, for inputs whose
/// same-named files agree in size. Where duplicates genuinely diverge in
/// size, the merge picks whichever representative comes first, and the two
/// orders may pick differently.
pub proof fn lemma_combine_sizes_order_independent(
    r1: DirModel,
    r2: DirModel,
    a: DirModel,
    b: DirModel,
)
    requires
        is_combine_of(r1, seq![a, b]),
        is_combine_of(r2, seq![b, a]),
        forall|i: int, j: int|
            #![trigger (a.files + b.files)[i], (a.files + b.files)[j]]
            0 <= i < (a.files + b.files).len() && 0 <= j < (a.files + b.files).len() && (a.files
                + b.files)[i].name == (a.files + b.files)[j].name ==> (a.files + b.files)[i].size
                == (a.files + b.files)[j].size,
    ensures
        forall|j1: int, j2: int|
            #![trigger r1.files[j1], r2.files[j2]]
            0 <= j1 < r1.files.len() && 0 <= j2 < r2.files.len() && r1.files[j1].name
                == r2.files[j2].name ==> r1.files[j1].size == r2.files[j2].size,
{
    let cf1 = a.files + b.files;
    let cf2 = b.files + a.files;
    lemma_concat_files_two(a, b);
    lemma_concat_files_two(b, a);
    assert forall|j1: int, j2: int|
        #![trigger r1.files[j1], r2.files[j2]]
        0 <= j1 < r1.files.len() && 0 <= j2 < r2.files.len() && r1.files[j1].name
            == r2.files[j2].name implies r1.files[j1].size == r2.files[j2].size by {
        let n = r1.files[j1].name;
        let g1 = files_named(cf1, n);
        let g2 = files_named(cf2, n);
        assert(g1.len() >= 1 && r1.files[j1] == combined_file(g1));
        assert(g2.len() >= 1 && r2.files[j2] == combined_file(g2));
        broadcast use vstd::seq_lib::group_filter_ensures;

        assert(g1[0].name == n && g2[0].name == n);
        lemma_filter_elements(cf1, |x: FileModel| x.name == n);
        lemma_filter_elements(cf2, |x: FileModel| x.name == n);
        assert(cf1.contains(g1[0]));
        assert(cf2.contains(g2[0]));
        let i1 = choose|i1: int| 0 <= i1 < cf1.len() && cf1[i1] == g1[0];
        let i2 = choose|i2: int| 0 <= i2 < cf2.len() && cf2[i2] == g2[0];
        // an index of the one concatenation maps to an index of the other
        let i2m: int = if i2 < b.files.len() {
            a.files.len() + i2
        } else {
            i2 - b.files.len()
        };
        assert(cf1[i2m] == cf2[i2]);
        assert(cf1[i1].size == cf1[i2m].size);
    }
}

// ---------------------------------------------------------------------------
// Index completeness.
// ---------------------------------------------------------------------------

/// Whether descending from `d` along the name segments `segs` reaches the
/// entry `e`.
pub open spec fn tree_contains(d: DirModel, segs: Seq<Seq<char>>, e: EntryModel) -> bool
    decreases segs.len(),
{
    if segs.len() == 0 {
        false
    } else if segs.len() == 1 {
        (exists|j: int|
            0 <= j < d.files.len() && (#[trigger] d.files[j]).name == segs[0] && e
                == EntryModel::File(d.files[j])) || (exists|j: int|
            0 <= j < d.sub_dirs.len() && (#[trigger] d.sub_dirs[j]).name == segs[0] && e
                == EntryModel::Dir(d.sub_dirs[j]))
    } else {
        exists|j: int|
            0 <= j < d.sub_dirs.len() && (#[trigger] d.sub_dirs[j]).name == segs[0]
                && tree_contains(d.sub_dirs[j], segs.drop_first(), e)
    }
}

/// The path string of the segments `segs` under `prefix`.
pub open spec fn path_string(prefix: Seq<char>, segs: Seq<Seq<char>>) -> Seq<char>
    decreases segs.len(),
{
    if segs.len() == 0 {
        prefix
    } else {
        path_string(joined(prefix, segs[0]), segs.drop_first())
    }
}

pub proof fn lemma_walk_files_member(fs: Seq<FileModel>, prefix: Seq<char>, j: int)
    requires
        0 <= j < fs.len(),
    ensures
        walk_files(fs, prefix).contains((joined(prefix, fs[j].name), EntryModel::File(fs[j]))),
    decreases fs.len(),
{
    if j == fs.len() - 1 {
        assert(fs.last() == fs[j]);
        assert(walk_files(fs, prefix).last() == (
            joined(prefix, fs[j].name),
            EntryModel::File(fs[j]),
        ));
    } else {
        assert(forall|i: int|
            0 <= i < fs.len() - 1 ==> #[trigger] fs.drop_last()[i] == fs[i]);
        lemma_walk_files_member(fs.drop_last(), prefix, j);
        let pre = walk_files(fs.drop_last(), prefix);
        let k = choose|k: int|
            0 <= k < pre.len() && pre[k] == (joined(prefix, fs[j].name), EntryModel::File(fs[j]));
        assert(walk_files(fs, prefix)[k] == pre[k]);
    }
}

pub proof fn lemma_walk_dirs_member(ds: Seq<DirModel>, prefix: Seq<char>, j: int)
    requires
        0 <= j < ds.len(),
    ensures
        walk_dirs(ds, prefix).contains((joined(prefix, ds[j].name), EntryModel::Dir(ds[j]))),
        forall|k: int|
            0 <= k < walk_dir(ds[j], joined(prefix, ds[j].name)).len() ==> walk_dirs(
                ds,
                prefix,
            ).contains(#[trigger] walk_dir(ds[j], joined(prefix, ds[j].name))[k]),
    decreases ds.len(),
{
    let own = (joined(prefix, ds[j].name), EntryModel::Dir(ds[j]));
    let sub = walk_dir(ds[j], joined(prefix, ds[j].name));
    if j == ds.len() - 1 {
        assert(ds.last() == ds[j]);
        let pre = walk_dirs(ds.drop_last(), prefix);
        assert(walk_dirs(ds, prefix) == pre + seq![own] + sub);
        assert(walk_dirs(ds, prefix)[pre.len() as int] == own);
        assert forall|k: int| 0 <= k < sub.len() implies walk_dirs(ds, prefix).contains(
            #[trigger] sub[k],
        ) by {
            assert(walk_dirs(ds, prefix)[pre.len() + 1 + k] == sub[k]);
        }
    } else {
        assert(forall|i: int|
            0 <= i < ds.len() - 1 ==> #[trigger] ds.drop_last()[i] == ds[i]);
        lemma_walk_dirs_member(ds.drop_last(), prefix, j);
        let pre = walk_dirs(ds.drop_last(), prefix);
        assert(pre.contains(own));
        let k0 = choose|k0: int| 0 <= k0 < pre.len() && pre[k0] == own;
        assert(walk_dirs(ds, prefix)[k0] == own);
        assert forall|k: int| 0 <= k < sub.len() implies walk_dirs(ds, prefix).contains(
            #[trigger] sub[k],
        ) by {
            assert(pre.contains(sub[k]));
            let k1 = choose|k1: int| 0 <= k1 < pre.len() && pre[k1] == sub[k];
            assert(walk_dirs(ds, prefix)[k1] == sub[k]);
        }
    }
}

/// Index completeness, one direction: every entry reachable by recursive
/// descent from `d` appears in the walk of `d` under its full path
/// string.
pub proof fn lemma_walk_complete(
    d: DirModel,
    prefix: Seq<char>,
    segs: Seq<Seq<char>>,
    e: EntryModel,
)
    requires
        tree_contains(d, segs, e),
    ensures
        walk_dir(d, prefix).contains((path_string(prefix, segs), e)),
    decreases segs.len(),
{
    let w = walk_dir(d, prefix);
    assert(w == walk_dirs(d.sub_dirs, prefix) + walk_files(d.files, prefix));
    if segs.len() == 1 {
        if exists|j: int|
            0 <= j < d.files.len() && (#[trigger] d.files[j]).name == segs[0] && e
                == EntryModel::File(d.files[j]) {
            let j = choose|j: int|
                0 <= j < d.files.len() && (#[trigger] d.files[j]).name == segs[0] && e
                    == EntryModel::File(d.files[j]);
            lemma_walk_files_member(d.files, prefix, j);
            let pair = (joined(prefix, d.files[j].name), EntryModel::File(d.files[j]));
            let k = choose|k: int|
                0 <= k < walk_files(d.files, prefix).len() && walk_files(d.files, prefix)[k]
                    == pair;
            assert((walk_dirs(d.sub_dirs, prefix) + walk_files(d.files, prefix))[walk_dirs(
                d.sub_dirs,
                prefix,
            ).len() + k] == pair);
            assert(w.contains(pair));
            assert(segs.drop_first().len() == 0);
            assert(path_string(joined(prefix, segs[0]), segs.drop_first()) == joined(
                prefix,
                segs[0],
            ));
            assert(path_string(prefix, segs) == joined(prefix, segs[0]));
        } else {
            let j = choose|j: int|
                0 <= j < d.sub_dirs.len() && (#[trigger] d.sub_dirs[j]).name == segs[0] && e
                    == EntryModel::Dir(d.sub_dirs[j]);
            lemma_walk_dirs_member(d.sub_dirs, prefix, j);
            let pair = (joined(prefix, d.sub_dirs[j].name), EntryModel::Dir(d.sub_dirs[j]));
            let k = choose|k: int|
                0 <= k < walk_dirs(d.sub_dirs, prefix).len() && walk_dirs(d.sub_dirs, prefix)[k]
                    == pair;
            assert((walk_dirs(d.sub_dirs, prefix) + walk_files(d.files, prefix))[k] == pair);
            assert(w.contains(pair));
            assert(segs.drop_first().len() == 0);
            assert(path_string(joined(prefix, segs[0]), segs.drop_first()) == joined(
                prefix,
                segs[0],
            ));
            assert(path_string(prefix, segs) == joined(prefix, segs[0]));
        }
    } else {
        let j = choose|j: int|
            0 <= j < d.sub_dirs.len() && (#[trigger] d.sub_dirs[j]).name == segs[0]
                && tree_contains(d.sub_dirs[j], segs.drop_first(), e);
        let child_prefix = joined(prefix, d.sub_dirs[j].name);
        lemma_walk_complete(d.sub_dirs[j], child_prefix, segs.drop_first(), e);
        lemma_walk_dirs_member(d.sub_dirs, prefix, j);
        let pair = (path_string(child_prefix, segs.drop_first()), e);
        let k = choose|k: int|
            0 <= k < walk_dir(d.sub_dirs[j], child_prefix).len() && walk_dir(
                d.sub_dirs[j],
                child_prefix,
            )[k] == pair;
        assert(walk_dirs(d.sub_dirs, prefix).contains(pair));
        let k1 = choose|k1: int|
            0 <= k1 < walk_dirs(d.sub_dirs, prefix).len() && walk_dirs(d.sub_dirs, prefix)[k1]
                == pair;
        assert((walk_dirs(d.sub_dirs, prefix) + walk_files(d.files, prefix))[k1] == pair);
        assert(w.contains(pair));
        assert(path_string(prefix, segs) == path_string(child_prefix, segs.drop_first()));
    }
}


// ---------------------------------------------------------------------------
// Index uniqueness: distinct paths for distinct entries.
// ---------------------------------------------------------------------------

/// Full de-duplication through a tree: every name a single segment, and no
/// two children of one directory — file or subdirectory — share a name.
pub open spec fn tree_dedup(d: DirModel) -> bool
    decreases d,
{
    &&& (forall|j: int| 0 <= j < d.files.len() ==> crate::valid_segment((#[trigger] d.files[j]).name))
    &&& (forall|j: int|
        0 <= j < d.sub_dirs.len() ==> crate::valid_segment((#[trigger] d.sub_dirs[j]).name))
    &&& (forall|j1: int, j2: int|
        #![trigger d.files[j1], d.files[j2]]
        0 <= j1 < j2 < d.files.len() ==> d.files[j1].name != d.files[j2].name)
    &&& (forall|j1: int, j2: int|
        #![trigger d.sub_dirs[j1], d.sub_dirs[j2]]
        0 <= j1 < j2 < d.sub_dirs.len() ==> d.sub_dirs[j1].name != d.sub_dirs[j2].name)
    &&& (forall|jf: int, jd: int|
        #![trigger d.files[jf], d.sub_dirs[jd]]
        0 <= jf < d.files.len() && 0 <= jd < d.sub_dirs.len() ==> d.files[jf].name
            != d.sub_dirs[jd].name)
    &&& (forall|j: int| 0 <= j < d.sub_dirs.len() ==> tree_dedup(#[trigger] d.sub_dirs[j]))
}

/// Whether the path `k` begins with the prefix `p`, then `/`, then the
/// whole segment `name`, and then ends or goes on with another `/`.
pub open spec fn key_extends(k: Seq<char>, p: Seq<char>, name: Seq<char>) -> bool {
    &&& k.len() >= p.len() + 1 + name.len()
    &&& (forall|i: int| 0 <= i < p.len() ==> k[i] == p[i])
    &&& k[p.len() as int] == '/'
    &&& (forall|i: int| 0 <= i < name.len() ==> k[p.len() as int + 1 + i] == name[i])
    &&& (k.len() == p.len() + 1 + name.len() || k[p.len() as int + 1 + name.len()] == '/')
}

/// Two single segments that the same path extends the same prefix with
/// are the same segment.
pub proof fn lemma_key_extends_unique(k: Seq<char>, p: Seq<char>, n1: Seq<char>, n2: Seq<char>)
    requires
        key_extends(k, p, n1),
        key_extends(k, p, n2),
        crate::valid_segment(n1),
        crate::valid_segment(n2),
    ensures
        n1 == n2,
{
    if n1.len() < n2.len() {
        assert(k[p.len() as int + 1 + n1.len()] == '/');
        assert(n2[n1.len() as int] == '/');
        assert(n2.contains('/'));
    } else if n2.len() < n1.len() {
        assert(k[p.len() as int + 1 + n2.len()] == '/');
        assert(n1[n2.len() as int] == '/');
        assert(n1.contains('/'));
    } else {
        assert(n1 =~= n2);
    }
}

/// A path that extends a joined prefix also extends the outer prefix with
/// the joined segment.
pub proof fn lemma_key_extends_compose(
    k: Seq<char>,
    p: Seq<char>,
    n0: Seq<char>,
    m: Seq<char>,
)
    requires
        key_extends(k, joined(p, n0), m),
    ensures
        key_extends(k, p, n0),
{
    let p1 = joined(p, n0);
    assert(p1.len() == p.len() + 1 + n0.len());
    assert(forall|i: int| 0 <= i < p.len() ==> p1[i] == p[i]);
    assert(p1[p.len() as int] == '/');
    assert(forall|i: int| 0 <= i < n0.len() ==> p1[p.len() + 1 + i] == n0[i]);
    assert(k[p1.len() as int] == '/');
}

/// The own pair of a child extends the prefix with the child's name and
/// nothing more.
pub proof fn lemma_joined_extends(p: Seq<char>, n: Seq<char>)
    ensures
        key_extends(joined(p, n), p, n),
        joined(p, n).len() == p.len() + 1 + n.len(),
{
}

/// Shape and distinctness of a walk's paths, for a fully de-duplicated
/// tree: every path extends the prefix with the name of one of the
/// directory's children, and no two positions of the walk carry the same
/// path.
pub proof fn lemma_walk_dir_paths(d: DirModel, p: Seq<char>)
    requires
        tree_dedup(d),
    ensures
        forall|k: int|
            0 <= k < walk_dir(d, p).len() ==> exists|n: Seq<char>|
                is_child_name(d, n) && crate::valid_segment(n) && key_extends(
                    #[trigger] walk_dir(d, p)[k].0,
                    p,
                    n,
                ),
        forall|k1: int, k2: int|
            #![trigger walk_dir(d, p)[k1], walk_dir(d, p)[k2]]
            0 <= k1 < k2 < walk_dir(d, p).len() ==> walk_dir(d, p)[k1].0 != walk_dir(d, p)[k2].0,
    decreases d, 1nat,
{
    let w = walk_dir(d, p);
    let wd = walk_dirs(d.sub_dirs, p);
    let wf = walk_files(d.files, p);
    assert(w == wd + wf);
    lemma_walk_dirs_paths(d.sub_dirs, p);
    lemma_walk_files_paths(d.files, p);
    assert forall|k: int| 0 <= k < w.len() implies exists|n: Seq<char>|
        is_child_name(d, n) && crate::valid_segment(n) && key_extends(
            #[trigger] w[k].0,
            p,
            n,
        ) by {
        if k < wd.len() {
            assert(w[k] == wd[k]);
            let j = choose|j: int|
                0 <= j < d.sub_dirs.len() && key_extends(wd[k].0, p, (#[trigger] d.sub_dirs[j]).name);
            assert(is_child_name(d, d.sub_dirs[j].name));
        } else {
            let kk = k - wd.len();
            assert(w[k] == wf[kk]);
            assert(wf[kk].0 == joined(p, d.files[kk].name));
            lemma_joined_extends(p, d.files[kk].name);
            assert(is_child_name(d, d.files[kk].name));
        }
    }
    assert forall|k1: int, k2: int|
        #![trigger w[k1], w[k2]]
        0 <= k1 < k2 < w.len() implies w[k1].0 != w[k2].0 by {
        if k2 < wd.len() {
            assert(w[k1] == wd[k1] && w[k2] == wd[k2]);
        } else if k1 >= wd.len() {
            let i1 = k1 - wd.len();
            let i2 = k2 - wd.len();
            assert(w[k1] == wf[i1] && w[k2] == wf[i2]);
            assert(wf[i1].0 == joined(p, d.files[i1].name));
            assert(wf[i2].0 == joined(p, d.files[i2].name));
            if wf[i1].0 == wf[i2].0 {
                lemma_joined_extends(p, d.files[i1].name);
                lemma_joined_extends(p, d.files[i2].name);
                lemma_key_extends_unique(wf[i1].0, p, d.files[i1].name, d.files[i2].name);
            }
        } else {
            // a subdirectory-branch path against a file path
            assert(w[k1] == wd[k1]);
            let i2 = k2 - wd.len();
            assert(w[k2] == wf[i2]);
            let j = choose|j: int|
                0 <= j < d.sub_dirs.len() && key_extends(wd[k1].0, p, (#[trigger] d.sub_dirs[j]).name);
            assert(wf[i2].0 == joined(p, d.files[i2].name));
            if w[k1].0 == w[k2].0 {
                lemma_joined_extends(p, d.files[i2].name);
                lemma_key_extends_unique(w[k1].0, p, d.sub_dirs[j].name, d.files[i2].name);
            }
        }
    }
}

pub open spec fn is_child_name(d: DirModel, n: Seq<char>) -> bool {
    (exists|j: int| 0 <= j < d.files.len() && (#[trigger] d.files[j]).name == n) || (exists|j: int|
        0 <= j < d.sub_dirs.len() && (#[trigger] d.sub_dirs[j]).name == n)
}

pub proof fn lemma_walk_files_paths(fs: Seq<FileModel>, p: Seq<char>)
    ensures
        walk_files(fs, p).len() == fs.len(),
        forall|k: int|
            0 <= k < fs.len() ==> #[trigger] walk_files(fs, p)[k] == (
                joined(p, fs[k].name),
                EntryModel::File(fs[k]),
            ),
    decreases fs.len(),
{
    if fs.len() > 0 {
        assert(forall|i: int|
            0 <= i < fs.len() - 1 ==> #[trigger] fs.drop_last()[i] == fs[i]);
        lemma_walk_files_paths(fs.drop_last(), p);
    }
}

/// Shape and distinctness of the paths a forest's walk produces, given
/// pairwise distinct, de-duplicated roots.
pub proof fn lemma_walk_dirs_paths(ds: Seq<DirModel>, p: Seq<char>)
    requires
        forall|j: int| 0 <= j < ds.len() ==> tree_dedup(#[trigger] ds[j]),
        forall|j: int| 0 <= j < ds.len() ==> crate::valid_segment((#[trigger] ds[j]).name),
        forall|j1: int, j2: int|
            #![trigger ds[j1], ds[j2]]
            0 <= j1 < j2 < ds.len() ==> ds[j1].name != ds[j2].name,
    ensures
        forall|k: int|
            0 <= k < walk_dirs(ds, p).len() ==> exists|j: int|
                0 <= j < ds.len() && key_extends(
                    (#[trigger] walk_dirs(ds, p)[k]).0,
                    p,
                    ds[j].name,
                ),
        forall|k1: int, k2: int|
            #![trigger walk_dirs(ds, p)[k1], walk_dirs(ds, p)[k2]]
            0 <= k1 < k2 < walk_dirs(ds, p).len() ==> walk_dirs(ds, p)[k1].0 != walk_dirs(
                ds,
                p,
            )[k2].0,
    decreases ds, 0nat,
{
    if ds.len() == 0 {
        return ;
    }
    let w = walk_dirs(ds, p);
    let last = ds.last();
    let li = ds.len() - 1;
    let pre = walk_dirs(ds.drop_last(), p);
    let p1 = joined(p, last.name);
    let own = (p1, EntryModel::Dir(last));
    let sub = walk_dir(last, p1);
    assert(w == pre + seq![own] + sub);
    assert(forall|i: int| 0 <= i < ds.len() - 1 ==> #[trigger] ds.drop_last()[i] == ds[i]);
    lemma_walk_dirs_paths(ds.drop_last(), p);
    lemma_walk_dir_paths(last, p1);
    lemma_joined_extends(p, last.name);
    // shape
    assert forall|k: int| 0 <= k < w.len() implies exists|j: int|
        0 <= j < ds.len() && key_extends((#[trigger] w[k]).0, p, ds[j].name) by {
        if k < pre.len() {
            assert(w[k] == pre[k]);
            let j = choose|j: int|
                0 <= j < ds.drop_last().len() && key_extends(
                    pre[k].0,
                    p,
                    (#[trigger] ds.drop_last()[j]).name,
                );
            assert(key_extends(w[k].0, p, ds[j].name));
        } else if k == pre.len() {
            assert(w[k] == own);
            assert(key_extends(w[k].0, p, ds[li].name));
        } else {
            let kk = k - pre.len() - 1;
            assert(w[k] == sub[kk]);
            let m = choose|m: Seq<char>|
                is_child_name(last, m) && crate::valid_segment(m) && key_extends(
                    sub[kk].0,
                    p1,
                    m,
                );
            lemma_key_extends_compose(w[k].0, p, last.name, m);
            assert(key_extends(w[k].0, p, ds[li].name));
        }
    }
    // distinctness
    assert forall|k1: int, k2: int|
        #![trigger w[k1], w[k2]]
        0 <= k1 < k2 < w.len() implies w[k1].0 != w[k2].0 by {
        if k2 < pre.len() {
            assert(w[k1] == pre[k1] && w[k2] == pre[k2]);
        } else if k1 < pre.len() {
            // an earlier root's path against the last root's block
            assert(w[k1] == pre[k1]);
            let j = choose|j: int|
                0 <= j < ds.drop_last().len() && key_extends(
                    pre[k1].0,
                    p,
                    (#[trigger] ds.drop_last()[j]).name,
                );
            assert(ds[j].name != ds[li].name);
            if k2 == pre.len() {
                if w[k1].0 == w[k2].0 {
                    lemma_key_extends_unique(w[k1].0, p, ds[j].name, ds[li].name);
                }
            } else {
                let kk = k2 - pre.len() - 1;
                assert(w[k2] == sub[kk]);
                let m = choose|m: Seq<char>|
                    is_child_name(last, m) && crate::valid_segment(m) && key_extends(
                        sub[kk].0,
                        p1,
                        m,
                    );
                lemma_key_extends_compose(w[k2].0, p, last.name, m);
                if w[k1].0 == w[k2].0 {
                    lemma_key_extends_unique(w[k1].0, p, ds[j].name, ds[li].name);
                }
            }
        } else if k1 == pre.len() {
            // the last root's own path against its subtree's paths: the
            // subtree paths are strictly longer
            let kk = k2 - pre.len() - 1;
            assert(w[k1] == own);
            assert(w[k2] == sub[kk]);
            let m = choose|m: Seq<char>|
                is_child_name(last, m) && crate::valid_segment(m) && key_extends(
                    sub[kk].0,
                    p1,
                    m,
                );
            assert(sub[kk].0.len() >= p1.len() + 1);
            assert(own.0.len() == p1.len());
        } else {
            let i1 = k1 - pre.len() - 1;
            let i2 = k2 - pre.len() - 1;
            assert(w[k1] == sub[i1] && w[k2] == sub[i2]);
        }
    }
}

/// In an association list with pairwise distinct keys, lookup of a present
/// pair's key returns exactly that pair's entry: the index holds one
/// mapping per path.
pub proof fn lemma_assoc_first(
    m: Seq<(Seq<char>, EntryModel)>,
    p: Seq<char>,
    e: EntryModel,
)
    requires
        forall|k1: int, k2: int|
            #![trigger m[k1], m[k2]]
            0 <= k1 < k2 < m.len() ==> m[k1].0 != m[k2].0,
        exists|k: int| 0 <= k < m.len() && #[trigger] m[k] == (p, e),
    ensures
        crate::path_compress::assoc_lookup(m, p) == Some(e),
    decreases m.len(),
{
    let k = choose|k: int| 0 <= k < m.len() && #[trigger] m[k] == (p, e);
    if m[0].0 == p {
        if k > 0 {
            assert(m[0].0 == m[k].0);
            assert(false);
        }
        assert(m[0] == (p, e));
    } else {
        assert(k > 0);
        let rest = m.drop_first();
        assert(forall|i: int| 0 <= i < rest.len() ==> #[trigger] rest[i] == m[i + 1]);
        assert(rest[k - 1] == (p, e));
        lemma_assoc_first(rest, p, e);
    }
}

/// Index completeness and round trip: in a fully de-duplicated tree,
/// every reachable entry stands in the index under its full path — under
/// exactly one mapping, since the walk's paths are pairwise distinct —
/// and looking that path up returns exactly that entry.
pub proof fn lemma_index_lookup(d: DirModel, segs: Seq<Seq<char>>, e: EntryModel)
    requires
        tree_dedup(d),
        tree_contains(d, segs, e),
    ensures
        crate::path_compress::assoc_lookup(
            walk_dir(d, Seq::empty()),
            path_string(Seq::empty(), segs),
        ) == Some(e),
{
    lemma_walk_complete(d, Seq::empty(), segs, e);
    lemma_walk_dir_paths(d, Seq::empty());
    let w = walk_dir(d, Seq::empty());
    let ps = path_string(Seq::empty(), segs);
    assert(w.contains((ps, e)));
    let k = choose|k: int| 0 <= k < w.len() && w[k] == (ps, e);
    assert(exists|k: int| 0 <= k < w.len() && #[trigger] w[k] == (ps, e));
    lemma_assoc_first(w, ps, e);
}


// ---------------------------------------------------------------------------
// The merge feeds the index: merged trees are de-duplicated.
// ---------------------------------------------------------------------------

/// No file name collides with a subdirectory name among the inputs'
/// children, at any merge level. The merge groups files and directories
/// separately, so this is the one collision it cannot resolve itself.
pub open spec fn no_cross_names(ds: Seq<DirModel>) -> bool
    decreases dirs_node_count(ds),
{
    let cd = crate::combine::concat_sub_dirs(ds);
    let cf = concat_files(ds);
    &&& (forall|i: int, j: int|
        #![trigger cf[i], cd[j]]
        0 <= i < cf.len() && 0 <= j < cd.len() ==> cf[i].name != cd[j].name)
    &&& (forall|j: int|
        0 <= j < cd.len() ==> {
            let grp = crate::combine::dirs_named(cd, (#[trigger] cd[j]).name);
            &&& dirs_node_count(grp) < dirs_node_count(ds)
            &&& no_cross_names(grp)
        })
}

/// A merge of well-formed inputs without cross-kind name collisions is
/// fully de-duplicated, so the index lemmas apply to it.
pub proof fn lemma_combine_dedup(r: DirModel, ds: Seq<DirModel>)
    requires
        is_combine_of(r, ds),
        ds.len() >= 1,
        forall|i: int| 0 <= i < ds.len() ==> dir_model_wf(#[trigger] ds[i]),
        no_cross_names(ds),
    ensures
        tree_dedup(r),
    decreases dirs_node_count(ds),
{
    broadcast use vstd::seq_lib::group_filter_ensures;

    let cd = crate::combine::concat_sub_dirs(ds);
    let cf = concat_files(ds);
    crate::combine::lemma_concat_children_wf(ds);
    assert forall|j: int| 0 <= j < r.files.len() implies crate::valid_segment(
        (#[trigger] r.files[j]).name,
    ) by {
        let n = r.files[j].name;
        let grp = files_named(cf, n);
        assert(grp.len() >= 1 && r.files[j] == combined_file(grp));
        assert(grp[0].name == n);
        lemma_filter_elements(cf, |x: FileModel| x.name == n);
        assert(cf.contains(grp[0]));
        let i = choose|i: int| 0 <= i < cf.len() && cf[i] == grp[0];
        assert(crate::vfs::file_model_wf(cf[i]));
    }
    assert forall|j: int| 0 <= j < r.sub_dirs.len() implies crate::valid_segment(
        (#[trigger] r.sub_dirs[j]).name,
    ) by {
        let n = r.sub_dirs[j].name;
        let grp = crate::combine::dirs_named(cd, n);
        assert(grp.len() >= 1);
        assert(grp[0].name == n);
        lemma_filter_elements(cd, |x: DirModel| x.name == n);
        assert(cd.contains(grp[0]));
        let i = choose|i: int| 0 <= i < cd.len() && cd[i] == grp[0];
        assert(dir_model_wf(cd[i]));
    }
    assert forall|jf: int, jd: int|
        #![trigger r.files[jf], r.sub_dirs[jd]]
        0 <= jf < r.files.len() && 0 <= jd < r.sub_dirs.len() implies r.files[jf].name
        != r.sub_dirs[jd].name by {
        let nf = r.files[jf].name;
        let nd = r.sub_dirs[jd].name;
        let gf = files_named(cf, nf);
        assert(gf.len() >= 1 && gf[0].name == nf);
        lemma_filter_elements(cf, |x: FileModel| x.name == nf);
        assert(cf.contains(gf[0]));
        let i = choose|i: int| 0 <= i < cf.len() && cf[i] == gf[0];
        let gd = crate::combine::dirs_named(cd, nd);
        assert(gd.len() >= 1 && gd[0].name == nd);
        lemma_filter_elements(cd, |x: DirModel| x.name == nd);
        assert(cd.contains(gd[0]));
        let k = choose|k: int| 0 <= k < cd.len() && cd[k] == gd[0];
        assert(cf[i].name != cd[k].name);
    }
    assert forall|j: int| 0 <= j < r.sub_dirs.len() implies tree_dedup(
        #[trigger] r.sub_dirs[j],
    ) by {
        let n = r.sub_dirs[j].name;
        let grp = crate::combine::dirs_named(cd, n);
        assert(grp.len() >= 1 && dirs_node_count(grp) < dirs_node_count(ds) && is_combine_of(
            r.sub_dirs[j],
            grp,
        ));
        assert(grp[0].name == n);
        lemma_filter_elements(cd, |x: DirModel| x.name == n);
        assert(cd.contains(grp[0]));
        let i = choose|i: int| 0 <= i < cd.len() && cd[i] == grp[0];
        assert(cd[i].name == n);
        assert(no_cross_names(crate::combine::dirs_named(cd, cd[i].name)));
        assert(crate::combine::dirs_named(cd, cd[i].name) == grp);
        assert forall|t: int| 0 <= t < grp.len() implies dir_model_wf(#[trigger] grp[t]) by {
            assert(cd.contains(grp[t]));
            let w = choose|w: int| 0 <= w < cd.len() && cd[w] == grp[t];
        }
        lemma_combine_dedup(r.sub_dirs[j], grp);
    }
}

} // verus!
