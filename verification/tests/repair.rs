use property_photos::paths::PathStyle;
use property_photos::folders::{PropertyStatus, StatusFolders};
use property_photos::repair::{
    decide_repair, not_found_message, record_repair, split_city_folder, RepairDecision, RepairResult,
    StatusProbe,
};

fn probe(configured: bool, exact: bool, entries: Option<&[&str]>) -> StatusProbe {
    StatusProbe {
        configured,
        exact_exists: exact,
        city_entries: entries.map(|e| e.iter().map(|s| s.to_string()).collect()),
    }
}

fn none4() -> Vec<StatusProbe> {
    (0..4).map(|_| probe(true, false, Some(&[]))).collect()
}

#[test]
fn splits_only_two_part_paths() {
    assert_eq!(split_city_folder("Athens/Villa A"), Some(("Athens".to_string(), "Villa A".to_string())));
    assert_eq!(split_city_folder("Athens"), None);
    assert_eq!(split_city_folder("a/b/c"), None);
    assert_eq!(split_city_folder("/b"), Some((String::new(), "b".to_string())));
}

#[test]
fn invalid_folder_path_format() {
    assert!(matches!(decide_repair("Athens/x/y", "NEW", &none4()), RepairDecision::InvalidFormat));
}

#[test]
fn folder_where_the_database_says() {
    let mut p = none4();
    p[1] = probe(true, true, Some(&[]));
    assert!(matches!(decide_repair("Athens/Villa A", "DONE", &p), RepairDecision::Unchanged));
}

#[test]
fn folder_moved_to_another_status() {
    let mut p = none4();
    p[3] = probe(true, true, Some(&[]));
    match decide_repair("Athens/Villa A", "NEW", &p) {
        RepairDecision::Update { status, new_folder_path, renamed_to } => {
            assert_eq!(status, PropertyStatus::Archive);
            assert_eq!(new_folder_path, "Athens/Villa A");
            assert_eq!(renamed_to, None);
        }
        other => panic!("unexpected {:?}", other),
    }
}

#[test]
fn folder_found_with_code_suffix() {
    let mut p = none4();
    p[0] = probe(false, true, Some(&["Villa A (9)"]));
    p[2] = probe(true, false, Some(&["Other", "Villa A (45164)"]));
    match decide_repair("Athens/Villa A", "NOT_FOUND", &p) {
        RepairDecision::Update { status, new_folder_path, renamed_to } => {
            assert_eq!(status, PropertyStatus::NotFound);
            assert_eq!(new_folder_path, "Athens/Villa A (45164)");
            assert_eq!(renamed_to.as_deref(), Some("Villa A (45164)"));
        }
        other => panic!("unexpected {:?}", other),
    }
}

#[test]
fn folder_nowhere() {
    let mut p = none4();
    p[0] = probe(true, false, None);
    assert!(matches!(decide_repair("Athens/Villa A", "NEW", &p), RepairDecision::NotFound));
}

fn folders() -> StatusFolders {
    StatusFolders {
        new_folder_path: "/p/NEW".to_string(),
        done_folder_path: String::new(),
        not_found_folder_path: "/p/NF".to_string(),
        archive_folder_path: "/p/AR".to_string(),
    }
}

#[test]
fn not_found_lists_the_places_looked_at() {
    assert_eq!(
        not_found_message(PathStyle::Unix, "Villa A", "Athens/Villa A", &folders()),
        "Property 'Villa A' folder not found. DB folder_path='Athens/Villa A'. Checked: [NEW: /p/NEW/Athens/Villa A, NOT_FOUND: /p/NF/Athens/Villa A, ARCHIVE: /p/AR/Athens/Villa A]"
    );
}

#[test]
fn repair_totals() {
    let mut r = RepairResult { properties_checked: 0, properties_fixed: 0, errors: Vec::new() };
    let f = folders();
    record_repair(PathStyle::Unix, &mut r, &RepairDecision::Unchanged, "A", "x/A", &f, None);
    record_repair(PathStyle::Unix, &mut r, &RepairDecision::InvalidFormat, "B", "B", &f, None);
    let renamed = RepairDecision::Update {
        status: PropertyStatus::New,
        new_folder_path: "Athens/C (5)".to_string(),
        renamed_to: Some("C (5)".to_string()),
    };
    record_repair(PathStyle::Unix, &mut r, &renamed, "C", "Athens/C", &f, None);
    let moved = RepairDecision::Update { status: PropertyStatus::New, new_folder_path: "Athens/D".to_string(), renamed_to: None };
    record_repair(PathStyle::Unix, &mut r, &moved, "D", "Athens/D", &f, Some("locked".to_string()));
    assert_eq!(r.properties_checked, 4);
    assert_eq!(r.properties_fixed, 1);
    assert_eq!(
        r.errors,
        vec![
            "Property has invalid folder_path format".to_string(),
            "Fixed 'C': folder_path updated from 'Athens/C' to 'Athens/C (5)'".to_string(),
            "Failed to update status for 'D': locked".to_string(),
        ]
    );
}

#[test]
fn a_repair_settles() {
    // First run: found by name in NOT_FOUND as "Villa A (45164)".
    let mut p = none4();
    p[2] = probe(true, false, Some(&["Other", "Villa A (45164)"]));
    let first = decide_repair("Athens/Villa A", "NEW", &p);
    let (status, path) = match first {
        RepairDecision::Update { status, new_folder_path, .. } => (status, new_folder_path),
        other => panic!("unexpected {:?}", other),
    };
    // Second run on the same disk, from what was stored.
    let mut after = none4();
    after[2] = probe(true, true, Some(&["Other", "Villa A (45164)"]));
    assert!(matches!(decide_repair(&path, status.as_str(), &after), RepairDecision::Unchanged));
}
