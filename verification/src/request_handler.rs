use vstd::prelude::*;

use crate::drive_wheel::Snapshot;
use crate::path_compress::{assoc_lookup, TryPathResult};
use crate::vfs::EntryModel;

verus! {

/// The captcha token a download request carries.
pub struct CaptchaQuery {
    pub token: String,
}

/// What a download request resolves to. "Not found" and "not a file" are
/// ordinary outcomes, never failures; internal fetch errors are never
/// surfaced here, only reflected as paths missing from the served tree.
pub enum DownloadOutcome {
    /// The captcha verdict was negative.
    Unauthorized,
    /// No entry is served under the requested path.
    NotFound,
    /// The path names a directory, which cannot be downloaded; distinct
    /// from the path being absent.
    NotAFile,
    /// The file's download resolves to this location.
    Redirect(String),
}

/// Decides a download request against the snapshot the reader holds: the
/// captcha verdict gates everything; then the path must name a file, whose
/// download resolves to one of its candidate locations, chosen at random.
/// A file without any location is served as absent.
pub fn get_download_link(snapshot: &Snapshot, path: &str, captcha_passed: bool) -> (r:
    DownloadOutcome)
    ensures
        !captcha_passed ==> r is Unauthorized,
        captcha_passed && assoc_lookup(snapshot.index.spec_map(), path@) is None ==> r
            is NotFound,
        forall|d: crate::vfs::DirModel|
            captcha_passed && assoc_lookup(snapshot.index.spec_map(), path@) == Some(
                EntryModel::Dir(d),
            ) ==> r is NotAFile,
        forall|f: crate::vfs::FileModel|
            captcha_passed && assoc_lookup(snapshot.index.spec_map(), path@) == Some(
                EntryModel::File(f),
            ) && f.links.len() >= 1 ==> (r matches DownloadOutcome::Redirect(url)
                && f.links.contains(url@)),
        forall|f: crate::vfs::FileModel|
            captcha_passed && assoc_lookup(snapshot.index.spec_map(), path@) == Some(
                EntryModel::File(f),
            ) && f.links.len() == 0 ==> r is NotFound,
{
    if !captcha_passed {
        return DownloadOutcome::Unauthorized;
    }
    match snapshot.index.try_path(path) {
        TryPathResult::NotFound => DownloadOutcome::NotFound,
        TryPathResult::Dir(d) => {
            proof {
                assert(assoc_lookup(snapshot.index.spec_map(), path@) == Some(
                    EntryModel::Dir(d@),
                ));
            }
            DownloadOutcome::NotAFile
        },
        TryPathResult::File(file) => {
            proof {
                assert(assoc_lookup(snapshot.index.spec_map(), path@) == Some(
                    EntryModel::File(file@),
                ));
            }
            if file.links.len() == 0 {
                DownloadOutcome::NotFound
            } else {
                let url = crate::vfs::VfsFile::on_download(&file);
                DownloadOutcome::Redirect(url)
            }
        },
    }
}

} // verus!
