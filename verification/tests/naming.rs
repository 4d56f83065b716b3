use property_photos::naming::{
    find_folder_by_prefix, folder_matches, last_path_segment, parse_folder_name,
    property_folder_name,
};

fn names(v: &[&str]) -> Vec<String> {
    v.iter().map(|s| s.to_string()).collect()
}

#[test]
fn folder_name_carries_the_code() {
    assert_eq!(property_folder_name("Villa Alpha", "45164"), "Villa Alpha (45164)");
    assert_eq!(property_folder_name("Villa Alpha", "204905/44538"), "Villa Alpha (204905-44538)");
}

#[test]
fn parses_code_from_folder_name() {
    assert_eq!(parse_folder_name("Villa Alpha (45164)"), ("Villa Alpha".to_string(), Some("45164".to_string())));
    assert_eq!(parse_folder_name("Villa Alpha"), ("Villa Alpha".to_string(), None));
    // A suffix that is not code-like stays part of the name.
    assert_eq!(parse_folder_name("Villa (two floors)"), ("Villa (two floors)".to_string(), None));
    assert_eq!(parse_folder_name("Villa ()"), ("Villa ()".to_string(), None));
    assert_eq!(parse_folder_name("Villa (123456789012345678901)"), ("Villa (123456789012345678901)".to_string(), None));
    // The last " (" counts.
    assert_eq!(parse_folder_name("A (b) (77)"), ("A (b)".to_string(), Some("77".to_string())));
}

#[test]
fn round_trip_of_name_and_code() {
    let f = property_folder_name("Villa Alpha", "45164");
    assert_eq!(parse_folder_name(&f), ("Villa Alpha".to_string(), Some("45164".to_string())));
}

#[test]
fn matching_folders() {
    assert!(folder_matches("Villa A", "Villa A"));
    assert!(folder_matches("Villa A (123)", "Villa A"));
    assert!(!folder_matches("Villa AB", "Villa A"));
    assert!(!folder_matches("Villa", "Villa A"));
}

#[test]
fn first_matching_folder_is_found() {
    let e = names(&["Other", "Villa A (9)", "Villa A"]);
    assert_eq!(find_folder_by_prefix(&e, "Villa A"), Some("Villa A (9)".to_string()));
    assert_eq!(find_folder_by_prefix(&e, "Villa B"), None);
}

#[test]
fn last_segment_of_folder_path() {
    assert_eq!(last_path_segment("Athens/Villa A (5)"), "Villa A (5)");
    assert_eq!(last_path_segment("Villa"), "Villa");
    assert_eq!(last_path_segment("Athens/"), "");
}
