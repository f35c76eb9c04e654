use unidrive::onedrive::{
    assemble_folder, partition_response, request_list_url, OneDriveFile, OneDriveFolder,
    OneDriveItem, ResponseItem,
};
use unidrive::path_compress::{IndexedVfs, TryPathResult};

fn resp(name: &str, file: bool, folder: bool, url: Option<&str>) -> ResponseItem {
    ResponseItem {
        id: format!("id-{name}"),
        name: name.to_string(),
        size: 10,
        file_download_url: url.map(|u| u.to_string()),
        file: if file { Some("file".to_string()) } else { None },
        folder: if folder { Some("folder".to_string()) } else { None },
        last_modified_date_time: "2020-01-01T00:00:00Z".to_string(),
    }
}

#[test]
fn partition_splits_files_folders_and_counts_unknowns() {
    let items = vec![
        resp("a.txt", true, false, Some("https://dl/a")),
        resp("sub", false, true, None),
        resp("weird", false, false, None),
        resp("b.txt", true, false, Some("https://dl/b")),
    ];
    let (files, folders, errors) = partition_response(items);
    assert_eq!(files.len(), 2);
    assert_eq!(files[0].name, "a.txt");
    assert_eq!(files[1].name, "b.txt");
    assert_eq!(folders.len(), 1);
    assert_eq!(folders[0].name, "sub");
    assert_eq!(folders[0].children.len(), 0);
    assert_eq!(errors, 1);
}

#[test]
fn assemble_sums_error_counts() {
    let (files, folders, own_errors) = partition_response(vec![
        resp("a.txt", true, false, Some("https://dl/a")),
        resp("bad", true, false, None),
    ]);
    assert_eq!(folders.len(), 0);
    let (item, count) = assemble_folder(
        "root-id".to_string(),
        "root".to_string(),
        0,
        0,
        files,
        vec![(OneDriveItem::Unknown, 3)],
        own_errors,
    );
    assert_eq!(count, 4);
    match item {
        OneDriveItem::Folder(fo) => {
            assert_eq!(fo.name, "root");
            assert_eq!(fo.children.len(), 2);
        }
        _ => panic!("expected a folder"),
    }
}

// One branch's listing fails while its sibling succeeds: the built tree
// still holds the sibling's full contents, the failed branch is absent,
// and the reported error count is at least one.
#[test]
fn failed_branch_degrades_without_losing_siblings() {
    // the provider reports two subfolders under the root
    let (files, folders, root_errors) = partition_response(vec![
        resp("good", false, true, None),
        resp("broken", false, true, None),
    ]);
    assert_eq!(files.len(), 0);
    assert_eq!(folders.len(), 2);
    assert_eq!(root_errors, 0);

    // the listing of "good" succeeds ...
    let (good_files, good_folders, good_errors) = partition_response(vec![resp(
        "y.txt",
        true,
        false,
        Some("https://dl/y"),
    )]);
    assert_eq!(good_folders.len(), 0);
    let good_meta = &folders[0];
    let (good_item, good_count) = assemble_folder(
        good_meta.id.clone(),
        good_meta.name.clone(),
        good_meta.size,
        good_meta.last_modified,
        good_files,
        vec![],
        good_errors,
    );
    assert_eq!(good_count, 0);

    // ... while the listing of "broken" fails: that branch degrades to an
    // unclassifiable placeholder and one error, as the fetch loop does on
    // a transport failure.
    let broken_result = (OneDriveItem::Unknown, 1);

    let (root, errors) = assemble_folder(
        "root-id".to_string(),
        "root".to_string(),
        0,
        0,
        vec![],
        vec![(good_item, good_count), broken_result],
        root_errors,
    );
    assert!(errors >= 1);
    assert_eq!(errors, 1);

    let root_folder = match root {
        OneDriveItem::Folder(fo) => fo,
        _ => panic!("expected a folder"),
    };
    let tree = root_folder.to_combinable();
    assert_eq!(tree.sub_dirs.len(), 1);
    assert_eq!(tree.sub_dirs[0].name, "good");

    let index = IndexedVfs::new(tree);
    assert!(matches!(index.try_path("/good/y.txt"), TryPathResult::File(_)));
    assert!(matches!(index.try_path("/broken"), TryPathResult::NotFound));
}

#[test]
fn to_combinable_recomputes_sizes_and_stamps() {
    let folder = OneDriveFolder {
        id: "f1".to_string(),
        name: "docs".to_string(),
        size: 12345,  // the provider's own folder size is not trusted
        last_modified: 7,
        children: vec![
            OneDriveItem::File(OneDriveFile {
                id: "a".to_string(),
                name: "a.txt".to_string(),
                size: 30,
                last_modified: 15,
                download_url: "https://dl/a".to_string(),
            }),
            OneDriveItem::Unknown,
            OneDriveItem::File(OneDriveFile {
                id: "b".to_string(),
                name: "b.txt".to_string(),
                size: 12,
                last_modified: 9,
                download_url: "https://dl/b".to_string(),
            }),
        ],
    };
    let d = folder.to_combinable();
    assert_eq!(d.name, "docs");
    assert_eq!(d.size, 42);
    assert_eq!(d.last_modified, 15);
    assert_eq!(d.files.len(), 2);
    assert_eq!(d.sub_dirs.len(), 0);
}

#[test]
fn negative_reported_size_counts_as_zero() {
    let f = OneDriveFile {
        id: "a".to_string(),
        name: "a.txt".to_string(),
        size: -5,
        last_modified: 1,
        download_url: "https://dl/a".to_string(),
    };
    let cf = f.to_combinable();
    assert_eq!(cf.size, 0);
}

#[test]
fn request_list_url_names_drive_and_folder() {
    let url = request_list_url("folder-7", "drive-3");
    assert_eq!(
        url,
        "https://graph.microsoft.com/v1.0/drives/drive-3/items/folder-7/children"
    );
}

#[test]
fn tree_builder_keeps_credentials() {
    let b = unidrive::onedrive::OneDriveTreeBuilder::new("tok".to_string(), "drv".to_string());
    assert_eq!(b.token, "tok");
    assert_eq!(b.drive_id, "drv");
}
