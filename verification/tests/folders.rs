use property_photos::paths::PathStyle;
use property_photos::folders::{
    construct_property_path_from_parts, folder_path_to_native, get_base_path_for_status,
    get_property_base_path, get_relative_folder_path, join_path, PropertyStatus, StatusFolders,
    StatusPathError,
};

fn folders() -> StatusFolders {
    StatusFolders {
        new_folder_path: "/photos/FOTOGRAFIES - NEW".to_string(),
        done_folder_path: "/photos/FOTOGRAFIES - DONE".to_string(),
        not_found_folder_path: String::new(),
        archive_folder_path: "/photos/ARCHIVE/".to_string(),
    }
}

#[test]
fn status_names_round_trip() {
    for s in [PropertyStatus::New, PropertyStatus::Done, PropertyStatus::NotFound, PropertyStatus::Archive] {
        assert_eq!(PropertyStatus::parse(s.as_str()), Some(s));
    }
    assert_eq!(PropertyStatus::NotFound.as_str(), "NOT_FOUND");
    assert_eq!(PropertyStatus::parse("done"), None);
}

#[test]
fn base_path_for_each_status() {
    let f = folders();
    assert_eq!(get_base_path_for_status(&f, "NEW").unwrap(), "/photos/FOTOGRAFIES - NEW");
    match get_base_path_for_status(&f, "NOT_FOUND") {
        Err(e @ StatusPathError::NotConfigured(_)) => {
            assert_eq!(e.message(), "Folder path for status 'NOT_FOUND' is not configured")
        }
        other => panic!("unexpected {:?}", other),
    }
    match get_base_path_for_status(&f, "SOLD") {
        Err(e @ StatusPathError::InvalidStatus(_)) => assert_eq!(e.message(), "Invalid status: SOLD"),
        other => panic!("unexpected {:?}", other),
    }
}

#[test]
fn join_path_behaves_like_pathbuf_join() {
    assert_eq!(join_path(PathStyle::Unix, "/a", "b"), "/a/b");
    assert_eq!(join_path(PathStyle::Unix, "/a/", "b"), "/a/b");
    assert_eq!(join_path(PathStyle::Unix, "", "b"), "b");
    assert_eq!(join_path(PathStyle::Unix, "/a", "/etc"), "/etc");
}

#[test]
fn relative_and_native_folder_paths() {
    assert_eq!(get_relative_folder_path("Athens", "Villa A"), "Athens/Villa A");
    assert_eq!(folder_path_to_native(PathStyle::Unix, "Athens/Villa A"), "Athens/Villa A");
    assert_eq!(folder_path_to_native(PathStyle::Unix, "Athens//Villa A/"), "Athens/Villa A/");
}

#[test]
fn full_property_paths() {
    let f = folders();
    assert_eq!(
        get_property_base_path(PathStyle::Unix, &f, "Athens/Villa A", "DONE").unwrap(),
        "/photos/FOTOGRAFIES - DONE/Athens/Villa A"
    );
    assert_eq!(
        construct_property_path_from_parts(PathStyle::Unix, &f, "ARCHIVE", "Rome", "Villa B").unwrap(),
        "/photos/ARCHIVE/Rome/Villa B"
    );
    assert!(get_property_base_path(PathStyle::Unix, &f, "Athens/Villa A", "NOT_FOUND").is_err());
}

#[test]
fn windows_join_follows_pathbuf_rules() {
    let w = PathStyle::Windows;
    assert_eq!(join_path(w, r"C:\photos", "Athens"), r"C:\photos\Athens");
    assert_eq!(join_path(w, r"C:\photos\", "Athens"), r"C:\photos\Athens");
    assert_eq!(join_path(w, "C:/photos/", "Athens"), "C:/photos/Athens");
    assert_eq!(join_path(w, "C:", "Athens"), "C:Athens");
    assert_eq!(join_path(w, r"C:\photos", r"\x"), r"C:\x");
    assert_eq!(join_path(w, r"\\srv\share\photos", r"\x"), r"\\srv\share\x");
    assert_eq!(join_path(w, r"\\srv", r"\x"), r"\\srv\x");
    assert_eq!(join_path(w, r"\\.\COM1\a", r"\x"), r"\\.\COM1\x");
    assert_eq!(join_path(w, r"photos\a", r"\x"), r"\x");
    assert_eq!(join_path(w, r"C:\photos", "D:y"), "D:y");
    assert_eq!(join_path(w, r"C:\photos", r"\\srv\s"), r"\\srv\s");
    assert_eq!(join_path(w, r"C:\photos", ""), r"C:\photos\");
}

#[test]
fn unix_join_keeps_backslashes_as_text() {
    let u = PathStyle::Unix;
    assert_eq!(join_path(u, "/photos", r"\x"), r"/photos/\x");
    assert_eq!(join_path(u, "/photos", "/x"), "/x");
    assert_eq!(join_path(u, "/photos", "D:y"), "/photos/D:y");
}

#[test]
fn windows_stored_paths_use_backslashes() {
    let w = PathStyle::Windows;
    assert_eq!(folder_path_to_native(w, "Athens/Villa A (45)"), r"Athens\Villa A (45)");
    assert_eq!(folder_path_to_native(w, "Athens//Villa"), r"Athens\Villa");
    assert_eq!(folder_path_to_native(PathStyle::Unix, "Athens/Villa"), "Athens/Villa");
}
