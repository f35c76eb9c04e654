use unidrive::onedrive::{OneDriveItem, ResponseItem};

fn item(
    file: Option<&str>,
    folder: Option<&str>,
    url: Option<&str>,
    stamp: &str,
) -> ResponseItem {
    ResponseItem {
        id: "id1".to_string(),
        name: "report.pdf".to_string(),
        size: 1024,
        file_download_url: url.map(|u| u.to_string()),
        file: file.map(|f| f.to_string()),
        folder: folder.map(|f| f.to_string()),
        last_modified_date_time: stamp.to_string(),
    }
}

#[test]
fn classifies_file_with_url() {
    let it = item(Some("file"), None, Some("https://dl.example/a"), "2020-01-01T00:00:00Z");
    match it.into_item() {
        OneDriveItem::File(f) => {
            assert_eq!(f.name, "report.pdf");
            assert_eq!(f.size, 1024);
            assert_eq!(f.download_url, "https://dl.example/a");
            assert_eq!(f.last_modified, 1577836800);
            assert_eq!(f.id, "id1");
        }
        _ => panic!("expected a file"),
    }
}

#[test]
fn classifies_folder_without_url() {
    let it = item(None, Some("folder"), None, "2021-06-01T12:30:00Z");
    match it.into_item() {
        OneDriveItem::Folder(fo) => {
            assert_eq!(fo.name, "report.pdf");
            assert_eq!(fo.size, 1024);
            assert_eq!(fo.children.len(), 0);
            assert_eq!(fo.last_modified, 1622550600);
        }
        _ => panic!("expected a folder"),
    }
}

#[test]
fn file_without_url_is_unknown() {
    let it = item(Some("file"), None, None, "2020-01-01T00:00:00Z");
    assert!(matches!(it.into_item(), OneDriveItem::Unknown));
}

#[test]
fn folder_with_url_is_unknown() {
    let it = item(None, Some("folder"), Some("https://dl.example/a"), "2020-01-01T00:00:00Z");
    assert!(matches!(it.into_item(), OneDriveItem::Unknown));
}

#[test]
fn both_discriminators_is_unknown() {
    let it = item(
        Some("file"),
        Some("folder"),
        Some("https://dl.example/a"),
        "2020-01-01T00:00:00Z",
    );
    assert!(matches!(it.into_item(), OneDriveItem::Unknown));
}

#[test]
fn neither_discriminator_is_unknown() {
    let it = item(None, None, None, "2020-01-01T00:00:00Z");
    assert!(matches!(it.into_item(), OneDriveItem::Unknown));
}

#[test]
fn unreadable_stamp_is_unknown() {
    let it = item(Some("file"), None, Some("https://dl.example/a"), "not a stamp");
    assert!(matches!(it.into_item(), OneDriveItem::Unknown));
}

#[test]
fn offset_stamp_converts_to_utc_seconds() {
    let it = item(Some("file"), None, Some("https://dl.example/a"), "2020-01-01T02:00:00+02:00");
    match it.into_item() {
        OneDriveItem::File(f) => assert_eq!(f.last_modified, 1577836800),
        _ => panic!("expected a file"),
    }
}
