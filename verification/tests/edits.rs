use property_photos::paths::PathStyle;
use property_photos::edits::{
    find_actual_folder_location, normalize_code, plan_code_change, plan_property_update,
    plan_status_move, property_folder_structure, relocation_steps, setup_folder_plan,
    status_base_path, status_folder_candidates, validate_property_fields, validate_status,
    FolderAction, Relocation,
};
use property_photos::folders::{PropertyStatus, StatusFolders};

fn folders() -> StatusFolders {
    StatusFolders {
        new_folder_path: "/p/NEW".to_string(),
        done_folder_path: "/p/DONE".to_string(),
        not_found_folder_path: String::new(),
        archive_folder_path: "/p/ARCHIVE".to_string(),
    }
}

#[test]
fn status_names_are_checked() {
    assert_eq!(validate_status("DONE"), Ok(PropertyStatus::Done));
    assert_eq!(validate_status("SOLD"), Err("Invalid status: SOLD".to_string()));
}

#[test]
fn candidates_and_actual_location() {
    let f = folders();
    let c = status_folder_candidates(PathStyle::Unix, &f, "Athens/Villa A");
    assert_eq!(
        c,
        vec![
            Some("/p/NEW/Athens/Villa A".to_string()),
            Some("/p/DONE/Athens/Villa A".to_string()),
            None,
            Some("/p/ARCHIVE/Athens/Villa A".to_string()),
        ]
    );
    assert_eq!(
        find_actual_folder_location(PathStyle::Unix, &f, "Athens/Villa A", &[false, true, true, true]),
        Some(("/p/DONE/Athens/Villa A".to_string(), "DONE".to_string()))
    );
    // A status without a folder is skipped even when flagged present.
    assert_eq!(find_actual_folder_location(PathStyle::Unix, &f, "Athens/Villa A", &[false, false, true, false]), None);
}

#[test]
fn status_move_plans() {
    let f = folders();
    // Same status: nothing moves.
    assert!(plan_status_move(PathStyle::Unix, &f, "NEW", PropertyStatus::New, "Athens/Villa A", true, None).unwrap().is_none());
    // Folder where expected: moved to the new status folder.
    let m = plan_status_move(PathStyle::Unix, &f, "NEW", PropertyStatus::Done, "Athens/Villa A", true, None).unwrap().unwrap();
    assert_eq!(m.from, "/p/NEW/Athens/Villa A");
    assert_eq!(m.to, "/p/DONE/Athens/Villa A");
    // Not where expected: taken from where it was found.
    let m = plan_status_move(PathStyle::Unix, 
        &f,
        "NEW",
        PropertyStatus::Done,
        "Athens/Villa A",
        false,
        Some("/p/ARCHIVE/Athens/Villa A".to_string()),
    )
    .unwrap()
    .unwrap();
    assert_eq!(m.from, "/p/ARCHIVE/Athens/Villa A");
    // Already at the target.
    assert!(plan_status_move(PathStyle::Unix, &f, "NEW", PropertyStatus::Done, "Athens/Villa A", false, Some("/p/DONE/Athens/Villa A/".to_string()))
        .unwrap()
        .is_none());
    // Nowhere: nothing moves.
    assert!(plan_status_move(PathStyle::Unix, &f, "NEW", PropertyStatus::Done, "Athens/Villa A", false, None).unwrap().is_none());
    // Target status not configured.
    assert_eq!(
        plan_status_move(PathStyle::Unix, &f, "NEW", PropertyStatus::NotFound, "Athens/Villa A", true, None).unwrap_err(),
        "Failed to get property path: Folder path for status 'NOT_FOUND' is not configured"
    );
}

#[test]
fn codes_are_trimmed_and_required() {
    assert_eq!(normalize_code("  45164 \n"), Ok("45164".to_string()));
    assert_eq!(normalize_code("\u{3000}7\u{a0}"), Ok("7".to_string()));
    assert_eq!(normalize_code(" \t "), Err("Code cannot be empty".to_string()));
}

#[test]
fn code_change_renames_folder() {
    let f = folders();
    let c = plan_code_change(PathStyle::Unix, &f, "Villa A", "Athens", "DONE", "Athens/Villa A", "204905/44538").unwrap();
    assert_eq!(c.new_folder_path, "Athens/Villa A (204905-44538)");
    assert_eq!(c.old_absolute_path, "/p/DONE/Athens/Villa A");
    assert_eq!(c.new_absolute_path, "/p/DONE/Athens/Villa A (204905-44538)");
    assert!(c.rename);
    let same = plan_code_change(PathStyle::Unix, &f, "Villa A", "Athens", "DONE", "Athens/Villa A (7)", "7").unwrap();
    assert!(!same.rename);
    assert_eq!(
        plan_code_change(PathStyle::Unix, &f, "Villa A", "Athens", "NOT_FOUND", "Athens/Villa A", "7").unwrap_err(),
        "Folder path for status 'NOT_FOUND' is not configured"
    );
}

#[test]
fn property_fields_are_validated() {
    assert_eq!(validate_property_fields(" Villa ", " Rome "), Ok(("Villa".to_string(), "Rome".to_string())));
    assert_eq!(validate_property_fields("  ", ""), Err("Property name cannot be empty".to_string()));
    assert_eq!(validate_property_fields("Villa", " "), Err("City cannot be empty".to_string()));
}

#[test]
fn property_update_plans() {
    let f = folders();
    let u = plan_property_update(PathStyle::Unix, &f, "Villa B", "Rome", "Villa A", "Athens", "NEW", "Athens/Villa A (7)", Some("7")).unwrap();
    assert_eq!(u.new_folder_path, "Rome/Villa B (7)");
    let r = u.relocation.unwrap();
    assert_eq!(r.from, "/p/NEW/Athens/Villa A (7)");
    assert_eq!(r.to, "/p/NEW/Rome/Villa B (7)");
    assert!(r.differs);
    assert_eq!(r.city_folder.as_deref(), Some("/p/NEW/Rome"));
    let unchanged = plan_property_update(PathStyle::Unix, &f, "Villa A", "Athens", "Villa A", "Athens", "NEW", "Athens/Villa A", None).unwrap();
    assert!(unchanged.relocation.is_none());
    assert_eq!(unchanged.new_folder_path, "Athens/Villa A");
}

#[test]
fn relocation_steps_by_what_exists() {
    let l = Relocation {
        from: "/p/A/x".to_string(),
        to: "/p/B/x".to_string(),
        differs: true,
        city_folder: Some("/p/B".to_string()),
    };
    assert!(relocation_steps(&l, false, true).unwrap().is_empty());
    assert_eq!(relocation_steps(&l, true, true).unwrap_err(), "Cannot move/rename: folder '/p/B/x' already exists");
    let steps = relocation_steps(&l, true, false).unwrap();
    assert_eq!(steps.len(), 2);
    assert!(matches!(&steps[0], FolderAction::EnsureFolder(p) if p == "/p/B"));
    assert!(matches!(&steps[1], FolderAction::Rename { from, to } if from == "/p/A/x" && to == "/p/B/x"));
}

#[test]
fn folder_structures() {
    assert_eq!(
        property_folder_structure(PathStyle::Unix, "/p/NEW/Athens/Villa A"),
        vec![
            "/p/NEW/Athens/Villa A",
            "/p/NEW/Athens/Villa A/INTERNET",
            "/p/NEW/Athens/Villa A/WATERMARK",
            "/p/NEW/Athens/Villa A/INTERNET/AGGELIA",
            "/p/NEW/Athens/Villa A/WATERMARK/AGGELIA",
        ]
    );
    let s = setup_folder_plan(PathStyle::Unix, "/root");
    assert_eq!(s.len(), 12);
    assert_eq!(s[0], "/root/FOTOGRAFIES - DONE");
    assert_eq!(s[1], "/root/FOTOGRAFIES - NEW");
    assert_eq!(s[2], "/root/FOTOGRAFIES - DONE/TEST/EXAMPLE-1");
    assert_eq!(s[11], "/root/FOTOGRAFIES - NEW/TEST/EXAMPLE-1/WATERMARK/AGGELIA");
    assert_eq!(status_base_path(&folders(), "ARCHIVE"), Ok("/p/ARCHIVE".to_string()));
}
