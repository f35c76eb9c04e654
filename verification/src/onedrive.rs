use vstd::prelude::*;
use vstd::string::StringExecFns;

use crate::valid_segment;
use crate::vfs::{
    dir_model_wf, dir_sizes_total, dirs_latest, file_sizes_total, files_latest, sat_add_u64,
    spec_max_i64, CombinableVfsDir, CombinableVfsFile, DirModel, FileModel,
};

verus! {

// ---------------------------------------------------------------------------
// Raw listing records and their classification.
// ---------------------------------------------------------------------------

/// One record of a provider's child-listing response, already decoded from
/// its wire format into plain values.
pub struct ResponseItem {
    pub id: String,
    pub name: String,
    pub size: i64,
    pub file_download_url: Option<String>,
    pub file: Option<String>,
    pub folder: Option<String>,
    pub last_modified_date_time: String,
}

/// A file as the provider reports it.
pub struct OneDriveFile {
    pub id: String,
    pub name: String,
    pub size: i64,
    pub last_modified: i64,
    pub download_url: String,
}

/// A folder as the provider reports it, with the children found so far.
pub struct OneDriveFolder {
    pub id: String,
    pub name: String,
    pub size: i64,
    pub last_modified: i64,
    pub children: Vec<OneDriveItem>,
}

/// A classified listing record.
pub enum OneDriveItem {
    File(OneDriveFile),
    Folder(OneDriveFolder),
    Unknown,
}

/// The number of seconds since the epoch an RFC 3339 stamp denotes, or
/// nothing when the text is not a valid stamp. The result depends on the
/// text alone.
pub uninterp spec fn rfc3339_secs(s: Seq<char>) -> Option<i64>;

/// Relies on chrono: DateTime::parse_from_rfc3339 accepts or rejects the
/// text on its content alone, and DateTime::timestamp turns the accepted
/// stamp into seconds since the epoch.
#[verifier::external_body]
fn parse_rfc3339_secs(s: &str) -> (r: Option<i64>)
    ensures
        r == rfc3339_secs(s@),
{
    match chrono::DateTime::parse_from_rfc3339(s) {
        Ok(t) => Some(t.timestamp()),
        Err(_) => None,
    }
}

/// A provider byte count as an unsigned size: negative counts are treated
/// as zero.
pub open spec fn clamp_size(s: i64) -> u64 {
    if s >= 0 {
        s as u64
    } else {
        0
    }
}

/// A record classifies as a file when it has a file discriminator, no
/// folder discriminator, a download location, and a readable stamp.
pub open spec fn classifies_as_file(it: ResponseItem) -> bool {
    &&& it.file is Some
    &&& it.folder is None
    &&& it.file_download_url is Some
    &&& rfc3339_secs(it.last_modified_date_time@) is Some
}

/// A record classifies as a folder when it has a folder discriminator, no
/// file discriminator, no download location, and a readable stamp.
pub open spec fn classifies_as_folder(it: ResponseItem) -> bool {
    &&& it.file is None
    &&& it.folder is Some
    &&& it.file_download_url is None
    &&& rfc3339_secs(it.last_modified_date_time@) is Some
}

/// The file a file-classified record denotes.
pub open spec fn resp_file_model(it: ResponseItem) -> FileModel
    recommends
        classifies_as_file(it),
{
    FileModel {
        name: it.name@,
        size: clamp_size(it.size),
        last_modified: rfc3339_secs(it.last_modified_date_time@)->0,
        links: seq![it.file_download_url->0@],
    }
}

/// Whether a freshly classified folder matches its listing record: same
/// identity and metadata, no children yet.
pub open spec fn folder_matches_resp(fo: OneDriveFolder, it: ResponseItem) -> bool {
    &&& fo.id@ == it.id@
    &&& fo.name@ == it.name@
    &&& fo.size == it.size
    &&& fo.last_modified == rfc3339_secs(it.last_modified_date_time@)->0
    &&& fo.children@.len() == 0
}

impl ResponseItem {
    /// Classifies one listing record: a well-formed file, a well-formed
    /// folder, or `Unknown` for any other combination, which the caller
    /// counts as a branch error and drops.
    pub fn into_item(self) -> (r: OneDriveItem)
        ensures
            classifies_as_file(self) ==> (r matches OneDriveItem::File(f) && od_file_model(f)
                == resp_file_model(self) && f.id@ == self.id@),
            classifies_as_folder(self) ==> (r matches OneDriveItem::Folder(fo)
                && folder_matches_resp(fo, self)),
            !classifies_as_file(self) && !classifies_as_folder(self) ==> r is Unknown,
    {
        let stamp = parse_rfc3339_secs(self.last_modified_date_time.as_str());
        match (self.file, self.folder, self.file_download_url, stamp) {
            (Some(_), None, Some(url), Some(ts)) => OneDriveItem::File(
                OneDriveFile {
                    id: self.id,
                    name: self.name,
                    size: self.size,
                    last_modified: ts,
                    download_url: url,
                },
            ),
            (None, Some(_), None, Some(ts)) => OneDriveItem::Folder(
                OneDriveFolder {
                    id: self.id,
                    name: self.name,
                    size: self.size,
                    last_modified: ts,
                    children: Vec::new(),
                },
            ),
            _ => OneDriveItem::Unknown,
        }
    }
}

// ---------------------------------------------------------------------------
// Models of classified trees.
// ---------------------------------------------------------------------------

pub open spec fn od_file_model(f: OneDriveFile) -> FileModel {
    FileModel {
        name: f.name@,
        size: clamp_size(f.size),
        last_modified: f.last_modified,
        links: seq![f.download_url@],
    }
}

pub open spec fn od_files_of(fs: Seq<OneDriveFile>) -> Seq<FileModel> {
    fs.map_values(|f: OneDriveFile| od_file_model(f))
}

/// The virtual directory a classified folder converts to: the files and
/// folders among its children, in order, with the size recomputed as the
/// children's sum and the stamp recomputed as the children's maximum (the
/// folder's own stamp when it has no children).
pub open spec fn od_folder_model(f: OneDriveFolder) -> DirModel
    decreases f, 1nat,
{
    let sub = od_folders_models(f.children@);
    let fl = od_files_models(f.children@);
    DirModel {
        name: f.name@,
        sub_dirs: sub,
        files: fl,
        size: sat_add_u64(dir_sizes_total(sub), file_sizes_total(fl)),
        last_modified: if sub.len() + fl.len() == 0 {
            f.last_modified
        } else {
            spec_max_i64(dirs_latest(sub), files_latest(fl))
        },
    }
}

pub open spec fn od_folders_models(items: Seq<OneDriveItem>) -> Seq<DirModel>
    decreases items, 0nat,
{
    if items.len() == 0 {
        Seq::empty()
    } else {
        let pre = od_folders_models(items.drop_last());
        match items.last() {
            OneDriveItem::Folder(fo) => pre.push(od_folder_model(fo)),
            _ => pre,
        }
    }
}

pub open spec fn od_files_models(items: Seq<OneDriveItem>) -> Seq<FileModel>
    decreases items.len(),
{
    if items.len() == 0 {
        Seq::empty()
    } else {
        let pre = od_files_models(items.drop_last());
        match items.last() {
            OneDriveItem::File(f) => pre.push(od_file_model(f)),
            _ => pre,
        }
    }
}

/// Name validity through a classified tree: every folder and file name is
/// a single path segment.
pub open spec fn od_folder_names_wf(f: OneDriveFolder) -> bool
    decreases f, 1nat,
{
    valid_segment(f.name@) && od_items_names_wf(f.children@)
}

pub open spec fn od_items_names_wf(items: Seq<OneDriveItem>) -> bool
    decreases items, 0nat,
{
    if items.len() == 0 {
        true
    } else {
        od_items_names_wf(items.drop_last()) && match items.last() {
            OneDriveItem::File(f) => valid_segment(f.name@),
            OneDriveItem::Folder(fo) => od_folder_names_wf(fo),
            OneDriveItem::Unknown => true,
        }
    }
}

/// Number of classified nodes in a folder's subtree, counting the folder.
pub open spec fn od_folder_count(f: OneDriveFolder) -> nat
    decreases f, 1nat,
{
    1 + od_items_count(f.children@)
}

pub open spec fn od_items_count(items: Seq<OneDriveItem>) -> nat
    decreases items, 0nat,
{
    if items.len() == 0 {
        0
    } else {
        od_items_count(items.drop_last()) + match items.last() {
            OneDriveItem::Folder(fo) => od_folder_count(fo),
            _ => 1,
        }
    }
}

/// A folder among the items counts no more than the whole item list.
pub proof fn lemma_od_items_count_member(items: Seq<OneDriveItem>, k: int)
    requires
        0 <= k < items.len(),
    ensures
        match items[k] {
            OneDriveItem::Folder(fo) => od_folder_count(fo) <= od_items_count(items),
            _ => true,
        },
    decreases items.len(),
{
    if k == items.len() - 1 {
        assert(items.last() == items[k]);
    } else {
        assert(forall|i: int|
            0 <= i < items.len() - 1 ==> #[trigger] items.drop_last()[i] == items[i]);
        lemma_od_items_count_member(items.drop_last(), k);
    }
}

// ---------------------------------------------------------------------------
// Conversion to the combinable virtual filesystem.
// ---------------------------------------------------------------------------

impl OneDriveFile {
    /// One provider file becomes a virtual file with a single download
    /// location.
    pub fn to_combinable(self) -> (r: CombinableVfsFile)
        ensures
            r@ == od_file_model(self),
    {
        let sz: u64 = if self.size >= 0 {
            self.size as u64
        } else {
            0
        };
        let mut links: Vec<String> = Vec::new();
        links.push(self.download_url);
        let r = CombinableVfsFile::new(links, self.name, sz, self.last_modified);
        proof {
            assert(r@.links =~= od_file_model(self).links);
            assert(r@ =~~= od_file_model(self));
        }
        r
    }
}

impl OneDriveFolder {
    /// A classified folder becomes a virtual directory: files and
    /// subfolders among the children convert in order, unclassifiable
    /// children contribute nothing, and size and stamp are recomputed.
    #[verifier::loop_isolation(false)]
    pub fn to_combinable(self) -> (r: CombinableVfsDir)
        ensures
            r@ == od_folder_model(self),
            od_folder_names_wf(self) ==> dir_model_wf(r@),
        decreases od_folder_count(self),
    {
        let ghost s0 = self;
        let OneDriveFolder { id: _, name, size: _, last_modified, children } = self;
        let ghost children0 = children@;
        let mut dirs: Vec<CombinableVfsDir> = Vec::new();
        let mut files: Vec<CombinableVfsFile> = Vec::new();
        let mut rest = children;
        let ghost mut k: int = 0;
        while rest.len() > 0
            invariant
                0 <= k <= children0.len(),
                rest@ == children0.skip(k),
                children0 == s0.children@,
                crate::vfs::dir_models(dirs@) == od_folders_models(children0.take(k)),
                crate::vfs::file_models(files@) == od_files_models(children0.take(k)),
                od_items_names_wf(children0) ==> (forall|j: int|
                    0 <= j < dirs@.len() ==> dir_model_wf(#[trigger] dirs@[j]@)),
                od_items_names_wf(children0) ==> (forall|j: int|
                    0 <= j < files@.len() ==> crate::vfs::file_model_wf(#[trigger] files@[j]@)),
            decreases rest@.len(),
        {
            let it = rest.remove(0);
            proof {
                assert(children0.skip(k)[0] == children0[k]);
                assert(it == children0[k]);
                assert(children0.take(k + 1).drop_last() =~= children0.take(k));
                assert(children0.take(k + 1).last() == children0[k]);
                if od_items_names_wf(children0) {
                    lemma_od_items_names_wf_prefix(children0, k + 1);
                }
            }
            match it {
                OneDriveItem::File(f) => {
                    let ghost fg = f;
                    let cf = f.to_combinable();
                    files.push(cf);
                    proof {
                        assert(crate::vfs::file_models(files@) =~= od_files_models(
                            children0.take(k + 1),
                        ));
                        if od_items_names_wf(children0) {
                            assert(valid_segment(fg.name@));
                        }
                    }
                },
                OneDriveItem::Folder(fo) => {
                    let ghost fog = fo;
                    proof {
                        assert(s0.children@[k] == OneDriveItem::Folder(fog));
                        lemma_od_items_count_member(s0.children@, k);
                        assert(od_folder_count(fog) < od_folder_count(s0));
                    }
                    let cd = fo.to_combinable();
                    let ghost dirs_before = dirs@;
                    dirs.push(cd);
                    proof {
                        crate::vfs::lemma_dir_models_index(dirs@);
                        assert(crate::vfs::dir_models(dirs@) =~= crate::vfs::dir_models(
                            dirs_before,
                        ).push(od_folder_model(fog))) by {
                            assert(dirs@ =~= dirs_before.push(dirs@[dirs@.len() - 1]));
                            crate::vfs::lemma_dir_models_index(dirs_before);
                            assert forall|j: int|
                                0 <= j < dirs@.len() implies crate::vfs::dir_models(dirs@)[j]
                                == crate::vfs::dir_models(dirs_before).push(
                                od_folder_model(fog),
                            )[j] by {
                                if j < dirs@.len() - 1 {
                                    assert(dirs@[j] == dirs_before[j]);
                                }
                            }
                        }
                        assert(crate::vfs::dir_models(dirs@) =~= od_folders_models(
                            children0.take(k + 1),
                        ));
                    }
                },
                OneDriveItem::Unknown => {
                    proof {
                        assert(od_folders_models(children0.take(k + 1)) == od_folders_models(
                            children0.take(k),
                        ));
                        assert(od_files_models(children0.take(k + 1)) == od_files_models(
                            children0.take(k),
                        ));
                    }
                },
            }
            proof {
                k = k + 1;
                assert(rest@ =~= children0.skip(k));
            }
        }
        proof {
            assert(children0.take(children0.len() as int) =~= children0);
        }
        let r = CombinableVfsDir::new(name, dirs, files, last_modified);
        proof {
            assert(r@ =~~= od_folder_model(s0));
            if od_folder_names_wf(s0) {
                assert(dir_model_wf(r@));
            }
        }
        r
    }
}

/// A prefix of a name-valid child list is name-valid, and its last element
/// is name-valid on its own.
pub proof fn lemma_od_items_names_wf_prefix(items: Seq<OneDriveItem>, n: int)
    requires
        od_items_names_wf(items),
        0 < n <= items.len(),
    ensures
        od_items_names_wf(items.take(n)),
        match items[n - 1] {
            OneDriveItem::File(f) => valid_segment(f.name@),
            OneDriveItem::Folder(fo) => od_folder_names_wf(fo),
            OneDriveItem::Unknown => true,
        },
    decreases items.len(),
{
    if n == items.len() {
        assert(items.take(n) =~= items);
        assert(items.last() == items[n - 1]);
    } else {
        assert(items.drop_last().len() == items.len() - 1);
        assert(forall|i: int|
            0 <= i < items.len() - 1 ==> #[trigger] items.drop_last()[i] == items[i]);
        lemma_od_items_names_wf_prefix(items.drop_last(), n);
        assert(items.drop_last().take(n) =~= items.take(n));
    }
}


// ---------------------------------------------------------------------------
// The tree builder's synchronous steps.
//
// Fetching a child listing is the caller's side: the caller hands the
// decoded records in, recurses concurrently over the folders this step
// reports, and hands the built subtrees back for assembly.
// ---------------------------------------------------------------------------

/// The files the records of a listing classify to, in order.
pub open spec fn classified_files(items: Seq<ResponseItem>) -> Seq<FileModel>
    decreases items.len(),
{
    if items.len() == 0 {
        Seq::empty()
    } else {
        let pre = classified_files(items.drop_last());
        if classifies_as_file(items.last()) {
            pre.push(resp_file_model(items.last()))
        } else {
            pre
        }
    }
}

/// The records of a listing that classify as folders, in order.
pub open spec fn classified_folders(items: Seq<ResponseItem>) -> Seq<ResponseItem> {
    items.filter(|it: ResponseItem| classifies_as_folder(it))
}

/// How many records of a listing classify as neither file nor folder.
pub open spec fn unknown_count(items: Seq<ResponseItem>) -> int
    decreases items.len(),
{
    if items.len() == 0 {
        0
    } else {
        unknown_count(items.drop_last()) + if !classifies_as_file(items.last())
            && !classifies_as_folder(items.last()) {
            1int
        } else {
            0int
        }
    }
}

/// Splits a listing into its files and its folders; records that classify
/// as neither are dropped and counted, never fatal.
#[verifier::loop_isolation(false)]
pub fn partition_response(items: Vec<ResponseItem>) -> (r: (
    Vec<OneDriveFile>,
    Vec<OneDriveFolder>,
    u64,
))
    ensures
        od_files_of(r.0@) == classified_files(items@),
        r.1@.len() == classified_folders(items@).len(),
        forall|j: int|
            0 <= j < r.1@.len() ==> folder_matches_resp(
                #[trigger] r.1@[j],
                classified_folders(items@)[j],
            ),
        r.2 == unknown_count(items@),
{
    let ghost items0 = items@;
    let mut files: Vec<OneDriveFile> = Vec::new();
    let mut folders: Vec<OneDriveFolder> = Vec::new();
    let mut errors: u64 = 0;
    let mut rest = items;
    let total_len = rest.len();
    let ghost mut done: Seq<ResponseItem> = Seq::empty();
    proof {
        assert(od_files_of(files@) =~= classified_files(done));
        assert(items0.len() == total_len);
    }
    while rest.len() > 0
        invariant
            items0.len() <= usize::MAX,
            done + rest@ == items0,
            od_files_of(files@) == classified_files(done),
            folders@.len() == classified_folders(done).len(),
            forall|j: int|
                0 <= j < folders@.len() ==> folder_matches_resp(
                    #[trigger] folders@[j],
                    classified_folders(done)[j],
                ),
            errors == unknown_count(done),
            errors <= done.len(),
        decreases rest@.len(),
    {
        let it = rest.remove(0);
        let ghost itg = it;
        proof {
            assert(done.push(itg).drop_last() =~= done);
            assert(done.push(itg).last() == itg);
            crate::combine::lemma_filter_push(
                done,
                itg,
                |t: ResponseItem| classifies_as_folder(t),
            );
            assert(done.len() < items0.len());
        }
        let od = it.into_item();
        match od {
            OneDriveItem::File(f) => {
                files.push(f);
                proof {
                    assert(classifies_as_file(itg));
                    assert(od_files_of(files@) =~= classified_files(done.push(itg)));
                }
            },
            OneDriveItem::Folder(fo) => {
                folders.push(fo);
                proof {
                    assert(classifies_as_folder(itg));
                    assert(classified_folders(done.push(itg)) == classified_folders(done).push(
                        itg,
                    ));
                }
            },
            OneDriveItem::Unknown => {
                errors = errors + 1;
                proof {
                    assert(!classifies_as_file(itg) && !classifies_as_folder(itg));
                }
            },
        }
        proof {
            done = done.push(itg);
            assert(done + rest@ =~= items0);
        }
    }
    proof {
        assert(done =~= items0);
    }
    (files, folders, errors)
}

/// The subtrees of a joined recursive fan-out, in order.
pub open spec fn built_items(s: Seq<(OneDriveItem, u64)>) -> Seq<OneDriveItem> {
    s.map_values(|p: (OneDriveItem, u64)| p.0)
}

/// The error counts of a joined fan-out, summed (saturating).
pub open spec fn counts_sum(s: Seq<(OneDriveItem, u64)>) -> u64
    decreases s.len(),
{
    if s.len() == 0 {
        0u64
    } else {
        sat_add_u64(counts_sum(s.drop_last()), s.last().1)
    }
}

/// Assembles one folder of the tree from its own listing's files, the
/// subtrees built for its subfolders, and the error counts: the branch's
/// count is its own classification errors plus all children's counts.
#[verifier::loop_isolation(false)]
pub fn assemble_folder(
    dir_id: String,
    name: String,
    size: i64,
    last_modified: i64,
    files: Vec<OneDriveFile>,
    built: Vec<(OneDriveItem, u64)>,
    own_errors: u64,
) -> (r: (OneDriveItem, u64))
    ensures
        r.0 matches OneDriveItem::Folder(fo) && fo.id@ == dir_id@ && fo.name@ == name@ && fo.size
            == size && fo.last_modified == last_modified && od_files_models(fo.children@)
            == od_files_of(files@) + od_files_models(built_items(built@)) && od_folders_models(
            fo.children@,
        ) == od_folders_models(built_items(built@)),
        r.1 == sat_add_u64(own_errors, counts_sum(built@)),
{
    let ghost files0 = files@;
    let ghost built0 = built@;
    let mut children: Vec<OneDriveItem> = Vec::new();
    let mut errors = own_errors;
    let mut rest = files;
    let ghost mut k: int = 0;
    while rest.len() > 0
        invariant
            0 <= k <= files0.len(),
            rest@ == files0.skip(k),
            od_files_models(children@) == od_files_of(files0.take(k)),
            od_folders_models(children@) == Seq::<DirModel>::empty(),
            errors == own_errors,
        decreases rest@.len(),
    {
        let f = rest.remove(0);
        let ghost fg = f;
        proof {
            assert(files0.skip(k)[0] == files0[k]);
            assert(files0.take(k + 1).drop_last() =~= files0.take(k));
            assert(files0.take(k + 1).last() == files0[k]);
        }
        let ghost children_before = children@;
        children.push(OneDriveItem::File(f));
        proof {
            assert(children@.drop_last() =~= children_before);
            assert(children@.last() == OneDriveItem::File(fg));
            assert(od_files_models(children@) =~= od_files_of(files0.take(k + 1)));
            k = k + 1;
            assert(rest@ =~= files0.skip(k));
        }
    }
    proof {
        assert(files0.take(files0.len() as int) =~= files0);
        assert(built_items(built0.take(0)) =~= Seq::<OneDriveItem>::empty());
    }
    let mut brest = built;
    let ghost mut j: int = 0;
    while brest.len() > 0
        invariant
            0 <= j <= built0.len(),
            brest@ == built0.skip(j),
            od_files_models(children@) == od_files_of(files0) + od_files_models(
                built_items(built0.take(j)),
            ),
            od_folders_models(children@) == od_folders_models(built_items(built0.take(j))),
            errors == sat_add_u64(own_errors, counts_sum(built0.take(j))),
        decreases brest@.len(),
    {
        let pair = brest.remove(0);
        let (item, cnt) = pair;
        let ghost itemg = item;
        proof {
            assert(built0.skip(j)[0] == built0[j]);
            assert(built0.take(j + 1).drop_last() =~= built0.take(j));
            assert(built0.take(j + 1).last() == built0[j]);
            assert(built_items(built0.take(j + 1)) =~= built_items(built0.take(j)).push(
                built0[j].0,
            ));
            assert(built_items(built0.take(j)).push(built0[j].0).drop_last() =~= built_items(
                built0.take(j),
            ));
            assert(itemg == built0[j].0);
            assert(cnt == built0[j].1);
        }
        let ghost children_before = children@;
        children.push(item);
        errors = errors.saturating_add(cnt);
        proof {
            assert(children@.drop_last() =~= children_before);
            assert(children@.last() == itemg);
            assert(od_files_models(children@) =~= od_files_of(files0) + od_files_models(
                built_items(built0.take(j + 1)),
            ));
            assert(od_folders_models(children@) =~= od_folders_models(
                built_items(built0.take(j + 1)),
            ));
            j = j + 1;
            assert(brest@ =~= built0.skip(j));
        }
    }
    proof {
        assert(built0.take(built0.len() as int) =~= built0);
    }
    let fo = OneDriveFolder { id: dir_id, name, size, last_modified, children };
    (OneDriveItem::Folder(fo), errors)
}

/// The provider's child-listing endpoint for one folder of one drive.
pub fn request_list_url(dir_id: &str, drive_id: &str) -> (r: String)
    ensures
        r@ == "https://graph.microsoft.com/v1.0/drives/"@ + drive_id@ + "/items/"@ + dir_id@
            + "/children"@,
{
    let mut r = String::from_str("https://graph.microsoft.com/v1.0/drives/");
    r.append(drive_id);
    r.append("/items/");
    r.append(dir_id);
    r.append("/children");
    r
}

/// Carries the credentials the recursive listing walk needs.
pub struct OneDriveTreeBuilder {
    pub token: String,
    pub drive_id: String,
}

impl OneDriveTreeBuilder {
    pub fn new(token: String, drive_id: String) -> (r: Self)
        ensures
            r.token@ == token@,
            r.drive_id@ == drive_id@,
    {
        OneDriveTreeBuilder { token, drive_id }
    }
}

/// One fully fetched OneDrive account: its root folder tree.
pub struct OneDriveDriver {
    pub root: OneDriveFolder,
}

impl OneDriveDriver {
    /// The fetched tree as a combinable virtual directory.
    pub fn into_combinable(self) -> (r: CombinableVfsDir)
        ensures
            r@ == od_folder_model(self.root),
            od_folder_names_wf(self.root) ==> dir_model_wf(r@),
    {
        self.root.to_combinable()
    }
}

} // verus!
