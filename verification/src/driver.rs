use vstd::prelude::*;

use crate::config_loader::OnedriveConfig;
use crate::onedrive::{
    od_file_model, od_folder_model, od_folder_names_wf, OneDriveDriver, OneDriveFile,
    OneDriveFolder,
};
use crate::vfs::{dir_model_wf, CombinableVfsDir, CombinableVfsFile, DirModel, FileModel};

verus! {

/// A cloud storage account that can stand as one root of the combined
/// virtual filesystem. Credential exchange and fetching are asynchronous
/// and happen outside the library; a fetched driver converts to a tree.
pub trait CloudDriver<Config>: Sized {
    /// The tree this driver converts to.
    spec fn spec_tree(&self) -> DirModel;

    /// When the conversion is guaranteed to yield a well-formed tree.
    spec fn tree_wf(&self) -> bool;

    fn into_combinable(self) -> (r: CombinableVfsDir)
        ensures
            r@ == self.spec_tree(),
            self.tree_wf() ==> dir_model_wf(r@),
    ;
}

impl CloudDriver<OnedriveConfig> for OneDriveDriver {
    open spec fn spec_tree(&self) -> DirModel {
        od_folder_model(self.root)
    }

    open spec fn tree_wf(&self) -> bool {
        od_folder_names_wf(self.root)
    }

    fn into_combinable(self) -> (r: CombinableVfsDir) {
        self.root.to_combinable()
    }
}

/// A provider file that can join the combined filesystem.
pub trait CloudDriverFile: Sized {
    spec fn spec_file(&self) -> FileModel;

    fn into_combinable(self) -> (r: CombinableVfsFile)
        ensures
            r@ == self.spec_file(),
    ;
}

impl CloudDriverFile for OneDriveFile {
    open spec fn spec_file(&self) -> FileModel {
        od_file_model(*self)
    }

    fn into_combinable(self) -> (r: CombinableVfsFile) {
        self.to_combinable()
    }
}

/// A provider folder that can join the combined filesystem.
pub trait CloudDriverDir: Sized {
    spec fn spec_dir(&self) -> DirModel;

    fn into_combinable(self) -> (r: CombinableVfsDir)
        ensures
            r@ == self.spec_dir(),
    ;
}

impl CloudDriverDir for OneDriveFolder {
    open spec fn spec_dir(&self) -> DirModel {
        od_folder_model(*self)
    }

    fn into_combinable(self) -> (r: CombinableVfsDir) {
        self.to_combinable()
    }
}

} // verus!
