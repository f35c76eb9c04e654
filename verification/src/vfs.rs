use vstd::prelude::*;

use crate::valid_segment;

verus! {

// ---------------------------------------------------------------------------
// Mathematical models of the virtual filesystem.
//
// Every executable tree type below has a view in this model space, and all
// contracts in the crate are stated over these models.
// ---------------------------------------------------------------------------

/// Model of a file: a name segment, a byte count, a modification stamp in
/// seconds, and the candidate download locations gathered from the providers.
#[verifier::ext_equal]
pub struct FileModel {
    pub name: Seq<char>,
    pub size: u64,
    pub last_modified: i64,
    pub links: Seq<Seq<char>>,
}

/// Model of a directory: a name segment, the child directories and files,
/// and the derived byte count and modification stamp.
#[verifier::ext_equal]
pub struct DirModel {
    pub name: Seq<char>,
    pub sub_dirs: Seq<DirModel>,
    pub files: Seq<FileModel>,
    pub size: u64,
    pub last_modified: i64,
}

/// Model of a directory entry.
#[verifier::ext_equal]
pub enum EntryModel {
    File(FileModel),
    Dir(DirModel),
}

// ---------------------------------------------------------------------------
// Executable tree types.
// ---------------------------------------------------------------------------

/// A file of the combined virtual filesystem. Merging identical files found
/// in several providers unions their download locations into `links`.
pub struct CombinableVfsFile {
    pub links: Vec<String>,
    pub name: String,
    pub size: u64,
    pub last_modified: i64,
}

/// A directory of the combined virtual filesystem.
pub struct CombinableVfsDir {
    pub name: String,
    pub sub_dirs: Vec<CombinableVfsDir>,
    pub files: Vec<CombinableVfsFile>,
    pub size: u64,
    pub last_modified: i64,
}

/// A directory entry: either a file or a subdirectory.
pub enum VfsEntry {
    File(CombinableVfsFile),
    Dir(CombinableVfsDir),
}

pub open spec fn string_models(s: Seq<String>) -> Seq<Seq<char>> {
    s.map_values(|x: String| x@)
}

pub open spec fn file_model(f: CombinableVfsFile) -> FileModel {
    FileModel {
        name: f.name@,
        size: f.size,
        last_modified: f.last_modified,
        links: string_models(f.links@),
    }
}

pub open spec fn file_models(s: Seq<CombinableVfsFile>) -> Seq<FileModel> {
    s.map_values(|f: CombinableVfsFile| file_model(f))
}

pub open spec fn dir_model(d: CombinableVfsDir) -> DirModel
    decreases d, 1nat,
{
    DirModel {
        name: d.name@,
        sub_dirs: dir_models(d.sub_dirs@),
        files: file_models(d.files@),
        size: d.size,
        last_modified: d.last_modified,
    }
}

pub open spec fn dir_models(s: Seq<CombinableVfsDir>) -> Seq<DirModel>
    decreases s, 0nat,
{
    if s.len() == 0 {
        Seq::empty()
    } else {
        dir_models(s.drop_last()).push(dir_model(s.last()))
    }
}

pub proof fn lemma_dir_models_index(s: Seq<CombinableVfsDir>)
    ensures
        dir_models(s).len() == s.len(),
        forall|i: int| 0 <= i < s.len() ==> dir_models(s)[i] == dir_model(#[trigger] s[i]),
    decreases s.len(),
{
    if s.len() > 0 {
        lemma_dir_models_index(s.drop_last());
        assert forall|i: int| 0 <= i < s.len() implies dir_models(s)[i] == dir_model(
            #[trigger] s[i],
        ) by {
            if i < s.len() - 1 {
                assert(dir_models(s)[i] == dir_models(s.drop_last())[i]);
                assert(s.drop_last()[i] == s[i]);
            } else {
                assert(s.last() == s[i]);
            }
        }
    }
}

pub open spec fn entry_model(e: VfsEntry) -> EntryModel {
    match e {
        VfsEntry::File(f) => EntryModel::File(file_model(f)),
        VfsEntry::Dir(d) => EntryModel::Dir(dir_model(d)),
    }
}

pub open spec fn entry_models(s: Seq<VfsEntry>) -> Seq<EntryModel> {
    s.map_values(|e: VfsEntry| entry_model(e))
}

impl View for CombinableVfsFile {
    type V = FileModel;

    open spec fn view(&self) -> FileModel {
        file_model(*self)
    }
}

impl View for CombinableVfsDir {
    type V = DirModel;

    open spec fn view(&self) -> DirModel {
        dir_model(*self)
    }
}

impl View for VfsEntry {
    type V = EntryModel;

    open spec fn view(&self) -> EntryModel {
        entry_model(*self)
    }
}

// ---------------------------------------------------------------------------
// Derived sizes and modification stamps.
// ---------------------------------------------------------------------------

/// `u64` addition that stops at the largest representable byte count.
pub open spec fn sat_add_u64(a: u64, b: u64) -> u64 {
    if a + b > u64::MAX {
        u64::MAX
    } else {
        (a + b) as u64
    }
}

pub open spec fn spec_max_i64(a: i64, b: i64) -> i64 {
    if a >= b {
        a
    } else {
        b
    }
}

pub open spec fn file_sizes_total(fs: Seq<FileModel>) -> u64
    decreases fs.len(),
{
    if fs.len() == 0 {
        0u64
    } else {
        sat_add_u64(file_sizes_total(fs.drop_last()), fs.last().size)
    }
}

pub open spec fn dir_sizes_total(ds: Seq<DirModel>) -> u64
    decreases ds.len(),
{
    if ds.len() == 0 {
        0u64
    } else {
        sat_add_u64(dir_sizes_total(ds.drop_last()), ds.last().size)
    }
}

pub open spec fn files_latest(fs: Seq<FileModel>) -> i64
    decreases fs.len(),
{
    if fs.len() == 0 {
        i64::MIN
    } else {
        spec_max_i64(files_latest(fs.drop_last()), fs.last().last_modified)
    }
}

pub open spec fn dirs_latest(ds: Seq<DirModel>) -> i64
    decreases ds.len(),
{
    if ds.len() == 0 {
        i64::MIN
    } else {
        spec_max_i64(dirs_latest(ds.drop_last()), ds.last().last_modified)
    }
}

/// The byte count a directory must carry: the saturating sum of its
/// children's sizes.
pub open spec fn dir_children_total(d: DirModel) -> u64 {
    sat_add_u64(dir_sizes_total(d.sub_dirs), file_sizes_total(d.files))
}

/// The stamp a directory with children must carry: the maximum of its
/// children's stamps.
pub open spec fn dir_children_latest(d: DirModel) -> i64 {
    spec_max_i64(dirs_latest(d.sub_dirs), files_latest(d.files))
}

// ---------------------------------------------------------------------------
// Well-formedness.
// ---------------------------------------------------------------------------

pub open spec fn file_model_wf(f: FileModel) -> bool {
    &&& valid_segment(f.name)
    &&& f.links.len() >= 1
}

/// A directory is well formed when its name is a single segment, its size is
/// the (saturating) sum of its children's sizes, its stamp is the maximum of
/// its children's stamps whenever it has children, and the children are well
/// formed in turn.
pub open spec fn dir_model_wf(d: DirModel) -> bool
    decreases d,
{
    &&& valid_segment(d.name)
    &&& d.size == dir_children_total(d)
    &&& (d.sub_dirs.len() + d.files.len() > 0 ==> d.last_modified == dir_children_latest(d))
    &&& (forall|i: int| 0 <= i < d.sub_dirs.len() ==> dir_model_wf(#[trigger] d.sub_dirs[i]))
    &&& (forall|i: int| 0 <= i < d.files.len() ==> file_model_wf(#[trigger] d.files[i]))
}

pub open spec fn entry_model_wf(e: EntryModel) -> bool {
    match e {
        EntryModel::File(f) => file_model_wf(f),
        EntryModel::Dir(d) => dir_model_wf(d),
    }
}

// ---------------------------------------------------------------------------
// Shared metadata access.
// ---------------------------------------------------------------------------

/// Metadata shared by files and directories.
pub trait VfsBasicMeta: Sized {
    spec fn spec_name(&self) -> Seq<char>;

    spec fn spec_size(&self) -> u64;

    spec fn spec_last_modified(&self) -> i64;

    fn name(&self) -> (r: &String)
        ensures
            r@ == self.spec_name(),
    ;

    fn size(&self) -> (r: u64)
        ensures
            r == self.spec_size(),
    ;

    fn last_modified(&self) -> (r: i64)
        ensures
            r == self.spec_last_modified(),
    ;
}

/// A file that can resolve one concrete download location.
pub trait VfsFile: VfsBasicMeta {
    /// Whether a download location can be resolved at all.
    spec fn downloadable(&self) -> bool;

    /// Whether `link` is one of the locations this file may resolve to.
    spec fn is_candidate(&self, link: Seq<char>) -> bool;

    fn on_download(&self) -> (r: String)
        requires
            self.downloadable(),
        ensures
            self.is_candidate(r@),
    ;
}

/// A directory that can list its entries.
pub trait VfsDir: VfsBasicMeta {
    spec fn spec_list(&self) -> Seq<EntryModel>;

    fn list(&self) -> (r: Vec<VfsEntry>)
        ensures
            entry_models(r@) == self.spec_list(),
    ;
}

impl VfsBasicMeta for CombinableVfsFile {
    open spec fn spec_name(&self) -> Seq<char> {
        self@.name
    }

    open spec fn spec_size(&self) -> u64 {
        self@.size
    }

    open spec fn spec_last_modified(&self) -> i64 {
        self@.last_modified
    }

    fn name(&self) -> (r: &String) {
        &self.name
    }

    fn size(&self) -> (r: u64) {
        self.size
    }

    fn last_modified(&self) -> (r: i64) {
        self.last_modified
    }
}

impl VfsBasicMeta for CombinableVfsDir {
    open spec fn spec_name(&self) -> Seq<char> {
        self@.name
    }

    open spec fn spec_size(&self) -> u64 {
        self@.size
    }

    open spec fn spec_last_modified(&self) -> i64 {
        self@.last_modified
    }

    fn name(&self) -> (r: &String) {
        &self.name
    }

    fn size(&self) -> (r: u64) {
        self.size
    }

    fn last_modified(&self) -> (r: i64) {
        self.last_modified
    }
}

impl VfsBasicMeta for VfsEntry {
    open spec fn spec_name(&self) -> Seq<char> {
        match *self {
            VfsEntry::File(f) => f@.name,
            VfsEntry::Dir(d) => d@.name,
        }
    }

    open spec fn spec_size(&self) -> u64 {
        match *self {
            VfsEntry::File(f) => f@.size,
            VfsEntry::Dir(d) => d@.size,
        }
    }

    open spec fn spec_last_modified(&self) -> i64 {
        match *self {
            VfsEntry::File(f) => f@.last_modified,
            VfsEntry::Dir(d) => d@.last_modified,
        }
    }

    fn name(&self) -> (r: &String) {
        match self {
            VfsEntry::File(f) => &f.name,
            VfsEntry::Dir(d) => &d.name,
        }
    }

    fn size(&self) -> (r: u64) {
        match self {
            VfsEntry::File(f) => f.size,
            VfsEntry::Dir(d) => d.size,
        }
    }

    fn last_modified(&self) -> (r: i64) {
        match self {
            VfsEntry::File(f) => f.last_modified,
            VfsEntry::Dir(d) => d.last_modified,
        }
    }
}

// ---------------------------------------------------------------------------
// Construction.
// ---------------------------------------------------------------------------

/// Relies on rand::random_range: a uniform sample from `0..n` lies in that
/// range; the call panics when the range is empty, so `n` must be positive.
#[verifier::external_body]
fn random_index(n: usize) -> (r: usize)
    requires
        n >= 1,
    ensures
        r < n,
{
    rand::random_range(0..n)
}

impl CombinableVfsFile {
    pub fn new(links: Vec<String>, name: String, size: u64, last_modified: i64) -> (r: Self)
        ensures
            r@.name == name@,
            r@.size == size,
            r@.last_modified == last_modified,
            r@.links == string_models(links@),
    {
        CombinableVfsFile { links, name, size, last_modified }
    }

    /// All candidate download locations of this file.
    pub fn possible_on_download(&self) -> (r: Vec<String>)
        ensures
            string_models(r@) == self@.links,
    {
        let r = self.links.clone();
        proof {
            assert(string_models(r@) =~= self@.links);
        }
        r
    }

    /// The location at a caller-chosen position, for callers that bring
    /// their own selection policy.
    pub fn link_at(&self, index: usize) -> (r: String)
        requires
            index < self@.links.len(),
        ensures
            r@ == self@.links[index as int],
    {
        self.links[index].clone()
    }
}

impl VfsFile for CombinableVfsFile {
    open spec fn downloadable(&self) -> bool {
        self@.links.len() >= 1
    }

    open spec fn is_candidate(&self, link: Seq<char>) -> bool {
        self@.links.contains(link)
    }

    /// Resolves a download by picking one candidate location uniformly at
    /// random; repeated calls may return different locations.
    fn on_download(&self) -> (r: String) {
        let i = random_index(self.links.len());
        let r = self.links[i].clone();
        proof {
            assert(self@.links[i as int] == r@);
        }
        r
    }
}

impl CombinableVfsDir {
    /// Assembles a directory from its children. The size and the stamp are
    /// computed from the children, never taken from the caller; the stamp
    /// falls back to `last_modified` only when there are no children.
    pub fn new(
        name: String,
        sub_dirs: Vec<CombinableVfsDir>,
        files: Vec<CombinableVfsFile>,
        last_modified: i64,
    ) -> (r: CombinableVfsDir)
        ensures
            r@.name == name@,
            r@.sub_dirs == dir_models(sub_dirs@),
            r@.files == file_models(files@),
            r@.size == dir_children_total(r@),
            r@.sub_dirs.len() + r@.files.len() > 0 ==> r@.last_modified == dir_children_latest(
                r@,
            ),
            r@.sub_dirs.len() + r@.files.len() == 0 ==> r@.last_modified == last_modified,
            (valid_segment(name@) && (forall|i: int|
                0 <= i < sub_dirs@.len() ==> dir_model_wf(#[trigger] sub_dirs@[i]@)) && (
            forall|i: int|
                0 <= i < files@.len() ==> file_model_wf(#[trigger] files@[i]@))) ==> dir_model_wf(
                r@,
            ),
    {
        let mut total: u64 = 0;
        let mut latest: i64 = i64::MIN;
        let mut i: usize = 0;
        while i < sub_dirs.len()
            invariant
                0 <= i <= sub_dirs@.len(),
                total == dir_sizes_total(dir_models(sub_dirs@.take(i as int))),
                latest == dirs_latest(dir_models(sub_dirs@.take(i as int))),
            decreases sub_dirs@.len() - i,
        {
            proof {
                assert(sub_dirs@.take(i + 1).drop_last() =~= sub_dirs@.take(i as int));
                assert(sub_dirs@.take(i + 1).last() == sub_dirs@[i as int]);
                assert(dir_models(sub_dirs@.take(i + 1)) == dir_models(
                    sub_dirs@.take(i as int),
                ).push(dir_model(sub_dirs@[i as int])));
                assert(dir_models(sub_dirs@.take(i + 1)).drop_last() =~= dir_models(
                    sub_dirs@.take(i as int),
                ));
                assert(dir_models(sub_dirs@.take(i + 1)).last() == dir_model(
                    sub_dirs@[i as int],
                ));
            }
            total = total.saturating_add(sub_dirs[i].size);
            let lm = sub_dirs[i].last_modified;
            if lm > latest {
                latest = lm;
            }
            i += 1;
        }
        proof {
            assert(sub_dirs@.take(sub_dirs@.len() as int) =~= sub_dirs@);
        }
        let mut j: usize = 0;
        while j < files.len()
            invariant
                0 <= j <= files@.len(),
                total == sat_add_u64(
                    dir_sizes_total(dir_models(sub_dirs@)),
                    file_sizes_total(file_models(files@.take(j as int))),
                ),
                latest == spec_max_i64(
                    dirs_latest(dir_models(sub_dirs@)),
                    files_latest(file_models(files@.take(j as int))),
                ),
            decreases files@.len() - j,
        {
            proof {
                assert(file_models(files@.take(j + 1)).drop_last() =~= file_models(
                    files@.take(j as int),
                ));
                assert(file_models(files@.take(j + 1)).last() == files@[j as int]@);
            }
            total = total.saturating_add(files[j].size);
            let lm = files[j].last_modified;
            if lm > latest {
                latest = lm;
            }
            j += 1;
        }
        proof {
            assert(file_models(files@.take(files@.len() as int)) =~= file_models(files@));
        }
        let stamp: i64 = if sub_dirs.len() == 0 && files.len() == 0 {
            last_modified
        } else {
            latest
        };
        let r = CombinableVfsDir { name, sub_dirs, files, size: total, last_modified: stamp };
        proof {
            lemma_dir_models_index(r.sub_dirs@);
            if valid_segment(r.name@) && (forall|i: int|
                0 <= i < r.sub_dirs@.len() ==> dir_model_wf(#[trigger] r.sub_dirs@[i]@)) && (
            forall|i: int| 0 <= i < r.files@.len() ==> file_model_wf(#[trigger] r.files@[i]@)) {
                assert forall|i: int| 0 <= i < r@.sub_dirs.len() implies dir_model_wf(
                    #[trigger] r@.sub_dirs[i],
                ) by {
                    assert(r@.sub_dirs[i] == r.sub_dirs@[i]@);
                }
                assert forall|i: int| 0 <= i < r@.files.len() implies file_model_wf(
                    #[trigger] r@.files[i],
                ) by {
                    assert(r@.files[i] == r.files@[i]@);
                }
                assert(dir_model_wf(r@));
            }
        }
        r
    }

    /// Hands back the parts a directory was assembled from.
    pub fn destruct(self) -> (r: (Vec<CombinableVfsDir>, Vec<CombinableVfsFile>, u64, String))
        ensures
            dir_models(r.0@) == self@.sub_dirs,
            file_models(r.1@) == self@.files,
            r.2 == self@.size,
            r.3@ == self@.name,
    {
        let CombinableVfsDir { name, sub_dirs, files, size, last_modified: _ } = self;
        (sub_dirs, files, size, name)
    }
}

impl VfsDir for CombinableVfsDir {
    open spec fn spec_list(&self) -> Seq<EntryModel> {
        self@.sub_dirs.map_values(|d: DirModel| EntryModel::Dir(d)) + self@.files.map_values(
            |f: FileModel| EntryModel::File(f),
        )
    }

    /// Lists the subdirectories, then the files.
    fn list(&self) -> (r: Vec<VfsEntry>) {
        let mut r: Vec<VfsEntry> = Vec::new();
        let mut i: usize = 0;
        while i < self.sub_dirs.len()
            invariant
                0 <= i <= self.sub_dirs@.len(),
                r@.len() == i,
                forall|k: int|
                    0 <= k < i ==> entry_models(r@)[k] == EntryModel::Dir(
                        #[trigger] self.sub_dirs@[k]@,
                    ),
            decreases self.sub_dirs@.len() - i,
        {
            let d = self.sub_dirs[i].clone();
            r.push(VfsEntry::Dir(d));
            i += 1;
        }
        let mut j: usize = 0;
        while j < self.files.len()
            invariant
                0 <= j <= self.files@.len(),
                r@.len() == self.sub_dirs@.len() + j,
                forall|k: int|
                    0 <= k < self.sub_dirs@.len() ==> entry_models(r@)[k] == EntryModel::Dir(
                        #[trigger] self.sub_dirs@[k]@,
                    ),
                forall|k: int|
                    0 <= k < j ==> entry_models(r@)[self.sub_dirs@.len() + k] == EntryModel::File(
                        #[trigger] self.files@[k]@,
                    ),
            decreases self.files@.len() - j,
        {
            let f = self.files[j].clone();
            r.push(VfsEntry::File(f));
            j += 1;
        }
        proof {
            lemma_dir_models_index(self.sub_dirs@);
            let target = self.spec_list();
            assert forall|k: int| 0 <= k < target.len() implies entry_models(r@)[k] == target[k] by {
                if k < self.sub_dirs@.len() {
                    assert(entry_models(r@)[k] == EntryModel::Dir(self.sub_dirs@[k]@));
                    assert(target[k] == EntryModel::Dir(self@.sub_dirs[k]));
                    assert(self@.sub_dirs[k] == self.sub_dirs@[k]@);
                } else {
                    let kk = k - self.sub_dirs@.len();
                    assert(entry_models(r@)[k] == EntryModel::File(self.files@[kk]@));
                    assert(target[k] == EntryModel::File(self@.files[kk]));
                    assert(self@.files[kk] == self.files@[kk]@);
                }
            }
            assert(entry_models(r@) =~= target);
        }
        r
    }
}

// ---------------------------------------------------------------------------
// Cloning, preserving the model.
// ---------------------------------------------------------------------------

impl Clone for CombinableVfsFile {
    fn clone(&self) -> (r: Self)
        ensures
            r@ == self@,
    {
        let r = CombinableVfsFile {
            links: self.links.clone(),
            name: self.name.clone(),
            size: self.size,
            last_modified: self.last_modified,
        };
        proof {
            assert(r@.links =~= self@.links);
            assert(r@ =~~= self@);
        }
        r
    }
}

impl Clone for CombinableVfsDir {
    fn clone(&self) -> (r: Self)
        ensures
            r@ == self@,
        decreases *self,
    {
        let mut sub_dirs: Vec<CombinableVfsDir> = Vec::new();
        let mut i: usize = 0;
        while i < self.sub_dirs.len()
            invariant
                0 <= i <= self.sub_dirs@.len(),
                sub_dirs@.len() == i,
                forall|k: int| 0 <= k < i ==> (#[trigger] sub_dirs@[k])@ == self.sub_dirs@[k]@,
            decreases self.sub_dirs@.len() - i,
        {
            proof {
                assert(decreases_to!(*self => self.sub_dirs@[i as int]));
            }
            let d = self.sub_dirs[i].clone();
            sub_dirs.push(d);
            i += 1;
        }
        let mut files: Vec<CombinableVfsFile> = Vec::new();
        let mut j: usize = 0;
        while j < self.files.len()
            invariant
                0 <= j <= self.files@.len(),
                files@.len() == j,
                forall|k: int| 0 <= k < j ==> (#[trigger] files@[k])@ == self.files@[k]@,
            decreases self.files@.len() - j,
        {
            let f = self.files[j].clone();
            files.push(f);
            j += 1;
        }
        let r = CombinableVfsDir {
            name: self.name.clone(),
            sub_dirs,
            files,
            size: self.size,
            last_modified: self.last_modified,
        };
        proof {
            lemma_dir_models_index(r.sub_dirs@);
            lemma_dir_models_index(self.sub_dirs@);
            assert forall|k: int| 0 <= k < self.sub_dirs@.len() implies dir_models(r.sub_dirs@)[k]
                == dir_models(self.sub_dirs@)[k] by {
                assert(r.sub_dirs@[k]@ == self.sub_dirs@[k]@);
            }
            assert(dir_models(r.sub_dirs@) =~= dir_models(self.sub_dirs@));
            assert(file_models(r.files@) =~= file_models(self.files@));
            assert(r@ =~~= self@);
        }
        r
    }
}

impl Clone for VfsEntry {
    fn clone(&self) -> (r: Self)
        ensures
            r@ == self@,
    {
        match self {
            VfsEntry::File(f) => VfsEntry::File(f.clone()),
            VfsEntry::Dir(d) => VfsEntry::Dir(d.clone()),
        }
    }
}

} // verus!
