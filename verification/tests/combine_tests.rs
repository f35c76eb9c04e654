use unidrive::combine::{combine_vfs_dirs, combine_vfs_files, separate_by_name};
use unidrive::vfs::{CombinableVfsDir, CombinableVfsFile, VfsBasicMeta};

fn file(name: &str, size: u64, lm: i64, links: Vec<&str>) -> CombinableVfsFile {
    CombinableVfsFile::new(
        links.into_iter().map(|l| l.to_string()).collect(),
        name.to_string(),
        size,
        lm,
    )
}

fn dir(name: &str, sub_dirs: Vec<CombinableVfsDir>, files: Vec<CombinableVfsFile>, lm: i64) -> CombinableVfsDir {
    CombinableVfsDir::new(name.to_string(), sub_dirs, files, lm)
}

#[test]
fn combine_files_unions_links_and_takes_latest_stamp() {
    let a = file("report.pdf", 100, 10, vec!["https://a/report"]);
    let b = file("report.pdf", 100, 25, vec!["https://b/report"]);
    let m = combine_vfs_files(vec![a, b]);
    assert_eq!(m.name, "report.pdf");
    assert_eq!(m.size, 100);
    assert_eq!(m.last_modified, 25);
    assert_eq!(m.links, vec!["https://a/report".to_string(), "https://b/report".to_string()]);
}

#[test]
fn combine_files_takes_first_as_representative() {
    let a = file("report.pdf", 100, 10, vec!["https://a/report"]);
    let b = file("report.pdf", 999, 5, vec!["https://b/report"]);
    let m = combine_vfs_files(vec![a, b]);
    assert_eq!(m.size, 100);
    assert_eq!(m.last_modified, 10);
}

// Two providers each report a root holding /docs/report.pdf with different
// sizes: the merge holds one entry with both candidate locations, and its
// size is one input's size, never their sum.
#[test]
fn merge_same_file_from_two_providers() {
    let docs_a = dir("docs", vec![], vec![file("report.pdf", 100, 10, vec!["https://a/report"])], 0);
    let docs_b = dir("docs", vec![], vec![file("report.pdf", 120, 20, vec!["https://b/report"])], 0);
    let root_a = dir("", vec![docs_a], vec![], 0);
    let root_b = dir("", vec![docs_b], vec![], 0);
    let merged = combine_vfs_dirs(vec![root_a, root_b]);
    assert_eq!(merged.sub_dirs.len(), 1);
    let docs = &merged.sub_dirs[0];
    assert_eq!(docs.name, "docs");
    assert_eq!(docs.files.len(), 1);
    let report = &docs.files[0];
    assert_eq!(report.name, "report.pdf");
    assert_eq!(report.links.len(), 2);
    assert!(report.links.contains(&"https://a/report".to_string()));
    assert!(report.links.contains(&"https://b/report".to_string()));
    assert!(report.size == 100 || report.size == 120);
    assert_ne!(report.size, 220);
    assert_eq!(report.last_modified, 20);
    // the directory's size is recomputed from the merged child
    assert_eq!(docs.size, report.size);
    assert_eq!(merged.size, docs.size);
}

#[test]
fn merge_order_gives_same_paths_and_candidates() {
    let a = dir(
        "",
        vec![dir("docs", vec![], vec![file("x", 1, 1, vec!["https://a/x"])], 0)],
        vec![file("top", 5, 3, vec!["https://a/top"])],
        0,
    );
    let b = dir(
        "",
        vec![dir("docs", vec![], vec![file("x", 1, 2, vec!["https://b/x"])], 0)],
        vec![file("other", 7, 4, vec!["https://b/other"])],
        0,
    );
    let ab = combine_vfs_dirs(vec![a.clone(), b.clone()]);
    let ba = combine_vfs_dirs(vec![b, a]);

    let mut names_ab: Vec<String> = ab.files.iter().map(|f| f.name.clone()).collect();
    let mut names_ba: Vec<String> = ba.files.iter().map(|f| f.name.clone()).collect();
    names_ab.sort();
    names_ba.sort();
    assert_eq!(names_ab, names_ba);

    let x_ab = &ab.sub_dirs[0].files[0];
    let x_ba = &ba.sub_dirs[0].files[0];
    let mut links_ab = x_ab.links.clone();
    let mut links_ba = x_ba.links.clone();
    links_ab.sort();
    links_ba.sort();
    assert_eq!(links_ab, links_ba);
    assert_eq!(x_ab.last_modified, x_ba.last_modified);
}

#[test]
fn directory_size_is_sum_of_children_at_every_depth() {
    let inner = dir("inner", vec![], vec![file("a", 3, 1, vec!["u"]), file("b", 4, 2, vec!["v"])], 0);
    assert_eq!(inner.size, 7);
    let outer = dir("outer", vec![inner], vec![file("c", 5, 3, vec!["w"])], 0);
    assert_eq!(outer.size, 12);
    let root = dir("", vec![outer], vec![], 0);
    assert_eq!(root.size, 12);
}

#[test]
fn directory_stamp_is_max_of_descendants() {
    let inner = dir("inner", vec![], vec![file("a", 3, 40, vec!["u"])], 0);
    assert_eq!(inner.last_modified, 40);
    let outer = dir("outer", vec![inner], vec![file("c", 5, 9, vec!["w"])], 0);
    assert_eq!(outer.last_modified, 40);
}

#[test]
fn empty_directory_keeps_given_stamp() {
    let d = dir("empty", vec![], vec![], 123);
    assert_eq!(d.last_modified, 123);
    assert_eq!(d.size, 0);
}

#[test]
fn separate_by_name_groups_and_keeps_order() {
    let flat = vec![
        file("a", 1, 1, vec!["u1"]),
        file("b", 2, 2, vec!["u2"]),
        file("a", 3, 3, vec!["u3"]),
    ];
    let groups = separate_by_name(flat);
    assert_eq!(groups.len(), 2);
    assert_eq!(groups[0].0, "a");
    assert_eq!(groups[0].1.len(), 2);
    assert_eq!(groups[0].1[0].size(), 1);
    assert_eq!(groups[0].1[1].size(), 3);
    assert_eq!(groups[1].0, "b");
    assert_eq!(groups[1].1.len(), 1);
}

#[test]
fn possible_on_download_lists_all_candidates() {
    let f = file("x", 1, 1, vec!["u1", "u2"]);
    assert_eq!(f.possible_on_download(), vec!["u1".to_string(), "u2".to_string()]);
}

#[test]
fn link_at_picks_by_index() {
    let f = file("x", 1, 1, vec!["u1", "u2"]);
    assert_eq!(f.link_at(0), "u1");
    assert_eq!(f.link_at(1), "u2");
}

// With a single input the grouping and merge logic still runs, but no
// de-duplication happens.
#[test]
fn combine_of_one_directory_keeps_contents() {
    let root = dir(
        "",
        vec![dir("docs", vec![], vec![file("x", 1, 1, vec!["u"])], 0)],
        vec![file("top", 5, 3, vec!["v"])],
        0,
    );
    let merged = combine_vfs_dirs(vec![root]);
    assert_eq!(merged.name, "");
    assert_eq!(merged.sub_dirs.len(), 1);
    assert_eq!(merged.sub_dirs[0].name, "docs");
    assert_eq!(merged.files.len(), 1);
    assert_eq!(merged.files[0].name, "top");
    assert_eq!(merged.files[0].links, vec!["v".to_string()]);
    assert_eq!(merged.size, 6);
}

// Byte counts stop at the largest representable value instead of wrapping.
#[test]
fn directory_size_saturates_at_the_largest_count() {
    let a = file("a", u64::MAX, 1, vec!["u"]);
    let b = file("b", 5, 2, vec!["v"]);
    let d = dir("big", vec![], vec![a, b], 0);
    assert_eq!(d.size, u64::MAX);
}

#[test]
fn combine_files_of_single_file_is_identity() {
    let a = file("report.pdf", 100, 10, vec!["https://a/report"]);
    let m = combine_vfs_files(vec![a]);
    assert_eq!(m.name, "report.pdf");
    assert_eq!(m.size, 100);
    assert_eq!(m.last_modified, 10);
    assert_eq!(m.links, vec!["https://a/report".to_string()]);
}
