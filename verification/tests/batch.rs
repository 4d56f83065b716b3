use property_photos::batch::{batch_outcome, temp_rename_name};

#[test]
fn temporary_names_are_numbered() {
    assert_eq!(temp_rename_name(0), "temp_rename_0.tmp");
    assert_eq!(temp_rename_name(12), "temp_rename_12.tmp");
    assert_ne!(temp_rename_name(1), temp_rename_name(10));
}

#[test]
fn outcome_without_errors() {
    let r = batch_outcome("copied", "Copied", " to INTERNET folder", 4, &[], false);
    assert!(r.success);
    assert!(r.error.is_none());
    assert_eq!(r.message.as_deref(), Some("Successfully copied 4 images to INTERNET folder"));
}

#[test]
fn outcome_with_errors() {
    let errs = vec!["File not found: a.jpg".to_string(), "File not found: b.jpg".to_string()];
    let r = batch_outcome("renamed", "Renamed", "", 1, &errs, true);
    assert!(r.success);
    assert_eq!(
        r.error.as_deref(),
        Some("Renamed 1 images but encountered errors: File not found: a.jpg, File not found: b.jpg")
    );
    let strict = batch_outcome("deleted", "Deleted", " from INTERNET folder", 1, &errs, false);
    assert!(!strict.success);
    let none = batch_outcome("copied", "Copied", "", 0, &errs, true);
    assert!(!none.success);
}
