use property_photos::paths::PathStyle;
use property_photos::folders::StatusFolders;
use property_photos::sets::{plan_complete_set, plan_set_moves, require_sets_folder, zip_entry_name, Property};

fn prop(name: &str, city: &str, code: Option<&str>) -> Property {
    Property {
        id: Some(1),
        name: name.to_string(),
        city: city.to_string(),
        status: "DONE".to_string(),
        folder_path: format!("{}/{}", city, name),
        notes: None,
        code: code.map(|c| c.to_string()),
        created_at: 0,
        updated_at: 0,
    }
}

fn folders(done: &str) -> StatusFolders {
    StatusFolders {
        new_folder_path: "/p/NEW".to_string(),
        done_folder_path: done.to_string(),
        not_found_folder_path: "/p/NOT".to_string(),
        archive_folder_path: "/p/ARCHIVE".to_string(),
    }
}

#[test]
fn sets_folder_is_required() {
    assert!(require_sets_folder("/sets").is_ok());
    assert_eq!(
        require_sets_folder("").unwrap_err(),
        "Sets folder path is not configured. Please configure it in Settings."
    );
}

#[test]
fn complete_set_partitions_by_code() {
    let done = vec![
        prop("Villa A", "Athens", Some("45164")),
        prop("Villa B", "Athens", Some("")),
        prop("Villa C", "Rome", None),
        prop("Villa D", "Rome", Some("7")),
    ];
    let plan = plan_complete_set(PathStyle::Unix, "/sets", &done, "2024-05-01 10-20-30", &folders("/p/DONE")).unwrap();
    assert_eq!(plan.set_name, "Done - 2024-05-01 10-20-30");
    assert_eq!(plan.zip_path, "/sets/Done - 2024-05-01 10-20-30.zip");
    assert_eq!(plan.done_base, "/p/DONE");
    assert_eq!(plan.with_code, vec![0, 3]);
    assert_eq!(plan.without_code, vec![1, 2]);
    assert_eq!(plan.zip_folders.len(), 2);
    assert_eq!(plan.zip_folders[1].city_entry, "Rome/");
    assert_eq!(plan.zip_folders[1].property_path, "/p/DONE/Rome/Villa D");
}

#[test]
fn complete_set_errors() {
    let none_coded = vec![prop("Villa C", "Rome", None)];
    assert_eq!(
        plan_complete_set(PathStyle::Unix, "/sets", &none_coded, "t", &folders("/p/DONE")).unwrap_err(),
        "No DONE properties with codes found to create a set."
    );
    let coded = vec![prop("Villa A", "Athens", Some("1"))];
    assert_eq!(
        plan_complete_set(PathStyle::Unix, "/sets", &coded, "t", &folders("")).unwrap_err(),
        "Folder path for status 'DONE' is not configured"
    );
}

#[test]
fn set_moves_skip_same_paths() {
    let fps = vec!["Athens/Villa A".to_string(), "Rome/Villa D".to_string()];
    let moves = plan_set_moves(PathStyle::Unix, "/p/DONE", "/p/ARCHIVE", &fps);
    assert_eq!(moves.len(), 2);
    assert_eq!(moves[0].from, "/p/DONE/Athens/Villa A");
    assert_eq!(moves[0].to, "/p/ARCHIVE/Athens/Villa A");
    assert!(plan_set_moves(PathStyle::Unix, "/p/DONE", "/p/DONE/", &fps).is_empty());
}

#[test]
fn zip_entry_names() {
    assert_eq!(zip_entry_name("Athens\\Villa A", true), Some("Athens/Villa A/".to_string()));
    assert_eq!(zip_entry_name("", true), None);
    assert_eq!(zip_entry_name("Athens/Villa A/01.jpg", false), Some("Athens/Villa A/01.jpg".to_string()));
}
