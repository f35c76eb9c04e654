use unidrive::drive_wheel::Snapshot;
use unidrive::path_compress::{IndexedVfs, TryPathResult};
use unidrive::request_handler::{get_download_link, DownloadOutcome};
use unidrive::vfs::{CombinableVfsDir, CombinableVfsFile, VfsBasicMeta, VfsDir, VfsEntry, VfsFile};

fn file(name: &str, size: u64, lm: i64, links: Vec<&str>) -> CombinableVfsFile {
    CombinableVfsFile::new(
        links.into_iter().map(|l| l.to_string()).collect(),
        name.to_string(),
        size,
        lm,
    )
}

fn dir(name: &str, sub_dirs: Vec<CombinableVfsDir>, files: Vec<CombinableVfsFile>) -> CombinableVfsDir {
    CombinableVfsDir::new(name.to_string(), sub_dirs, files, 0)
}

fn sample_root() -> CombinableVfsDir {
    let docs = dir("docs", vec![], vec![file("report.pdf", 100, 10, vec!["https://a/report"])]);
    dir("", vec![docs], vec![file("readme.txt", 5, 1, vec!["https://a/readme"])])
}

#[test]
fn try_path_finds_file_by_full_path() {
    let index = IndexedVfs::new(sample_root());
    match index.try_path("/docs/report.pdf") {
        TryPathResult::File(f) => {
            assert_eq!(f.name, "report.pdf");
            assert_eq!(f.size, 100);
        }
        _ => panic!("expected a file"),
    }
}

#[test]
fn try_path_finds_directory() {
    let index = IndexedVfs::new(sample_root());
    match index.try_path("/docs") {
        TryPathResult::Dir(d) => {
            assert_eq!(d.name, "docs");
            assert_eq!(d.files.len(), 1);
        }
        _ => panic!("expected a directory"),
    }
}

#[test]
fn try_path_finds_top_level_file() {
    let index = IndexedVfs::new(sample_root());
    assert!(matches!(index.try_path("/readme.txt"), TryPathResult::File(_)));
}

#[test]
fn try_path_absent_path_is_not_found() {
    let index = IndexedVfs::new(sample_root());
    assert!(matches!(index.try_path("/docs/missing.pdf"), TryPathResult::NotFound));
    assert!(matches!(index.try_path(""), TryPathResult::NotFound));
    assert!(matches!(index.try_path("docs"), TryPathResult::NotFound));
}

#[test]
fn download_needs_captcha() {
    let snapshot = Snapshot::build(vec![sample_root()]);
    let r = get_download_link(&snapshot, "/docs/report.pdf", false);
    assert!(matches!(r, DownloadOutcome::Unauthorized));
}

#[test]
fn download_of_missing_path_is_not_found() {
    let snapshot = Snapshot::build(vec![sample_root()]);
    let r = get_download_link(&snapshot, "/nope", true);
    assert!(matches!(r, DownloadOutcome::NotFound));
}

// Asking to download a directory is rejected, and the rejection is
// distinct from the path being absent.
#[test]
fn download_of_directory_is_not_a_file() {
    let snapshot = Snapshot::build(vec![sample_root()]);
    let r = get_download_link(&snapshot, "/docs", true);
    assert!(matches!(r, DownloadOutcome::NotAFile));
}

#[test]
fn download_redirects_to_a_candidate() {
    let a = dir("", vec![], vec![file("x", 1, 1, vec!["https://a/x", "https://b/x"])]);
    let b = dir("", vec![], vec![file("x", 1, 2, vec!["https://c/x"])]);
    let snapshot = Snapshot::build(vec![a, b]);
    for _ in 0..20 {
        match get_download_link(&snapshot, "/x", true) {
            DownloadOutcome::Redirect(url) => {
                assert!(
                    url == "https://a/x" || url == "https://b/x" || url == "https://c/x",
                    "unexpected location {url}"
                );
            }
            _ => panic!("expected a redirect"),
        }
    }
}

#[test]
fn on_download_picks_one_of_the_candidates() {
    let f = file("x", 1, 1, vec!["u1", "u2", "u3"]);
    for _ in 0..20 {
        let picked = f.on_download();
        assert!(picked == "u1" || picked == "u2" || picked == "u3");
    }
}

#[test]
fn list_returns_directories_then_files() {
    let root = sample_root();
    let entries = root.list();
    assert_eq!(entries.len(), 2);
    assert!(matches!(entries[0], VfsEntry::Dir(_)));
    assert!(matches!(entries[1], VfsEntry::File(_)));
    assert_eq!(entries[0].name(), "docs");
    assert_eq!(entries[1].name(), "readme.txt");
    assert_eq!(entries[1].size(), 5);
    assert_eq!(entries[1].last_modified(), 1);
}
