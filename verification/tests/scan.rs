use property_photos::scan::{add_scan_totals, classify_scanned_folders, ScanResult, ScannedFolder};

fn folder(city: &str, name: &str) -> ScannedFolder {
    ScannedFolder { city: city.to_string(), folder_name: name.to_string() }
}

#[test]
fn scan_parses_code_from_folder_name() {
    let r = classify_scanned_folders(&[folder("CityA", "Villa Alpha (45164)")], &[], "DONE");
    assert_eq!(r.found, 1);
    assert_eq!(r.existing, 0);
    assert_eq!(r.new_properties.len(), 1);
    let p = &r.new_properties[0];
    assert_eq!(p.name, "Villa Alpha");
    assert_eq!(p.code.as_deref(), Some("45164"));
    assert_eq!(p.folder_path, "CityA/Villa Alpha (45164)");
    assert_eq!(p.city, "CityA");
    assert_eq!(p.status, "DONE");
}

#[test]
fn tracked_folders_are_not_imported_again() {
    let folders = vec![folder("CityA", "PropertyX"), folder("CityA", "PropertyY")];
    let r = classify_scanned_folders(&folders, &["CityA/PropertyX".to_string()], "NEW");
    assert_eq!(r.found, 2);
    assert_eq!(r.existing, 1);
    assert_eq!(r.new_properties.len(), 1);
    assert_eq!(r.new_properties[0].folder_path, "CityA/PropertyY");
    // A second scan once everything is stored imports nothing.
    let stored = vec!["CityA/PropertyX".to_string(), "CityA/PropertyY".to_string()];
    let again = classify_scanned_folders(&folders, &stored, "NEW");
    assert_eq!(again.new_properties.len(), 0);
    assert_eq!(again.existing, 2);
}

#[test]
fn scan_totals_add_up() {
    let mut total = ScanResult { found_properties: 1, new_properties: 1, existing_properties: 0, errors: vec!["a".into()] };
    add_scan_totals(
        &mut total,
        ScanResult { found_properties: 3, new_properties: 1, existing_properties: 2, errors: vec!["b".into()] },
    );
    assert_eq!(total.found_properties, 4);
    assert_eq!(total.new_properties, 2);
    assert_eq!(total.existing_properties, 2);
    assert_eq!(total.errors, vec!["a".to_string(), "b".to_string()]);
}

#[test]
fn scan_finds_new_properties() {
    let folders = vec![folder("CityA", "PropertyX"), folder("CityA", "PropertyY")];
    let r = classify_scanned_folders(&folders, &[], "NEW");
    assert_eq!(r.found, 2);
    assert_eq!(r.new_properties.len(), 2);
    assert_eq!(r.existing, 0);
    let paths: Vec<&str> = r.new_properties.iter().map(|p| p.folder_path.as_str()).collect();
    assert!(paths.contains(&"CityA/PropertyX"));
    assert!(paths.contains(&"CityA/PropertyY"));
}

#[test]
fn scan_skips_existing_properties() {
    let folders = vec![folder("CityA", "PropertyX"), folder("CityA", "PropertyY")];
    let r = classify_scanned_folders(&folders, &["CityA/PropertyX".to_string()], "NEW");
    assert_eq!(r.found, 2);
    assert_eq!(r.new_properties.len(), 1);
    assert_eq!(r.existing, 1);
}

#[test]
fn scan_empty_folder() {
    let r = classify_scanned_folders(&[], &[], "NEW");
    assert_eq!(r.found, 0);
    assert_eq!(r.new_properties.len(), 0);
}

#[test]
fn scan_multiple_cities() {
    let folders = vec![folder("Athens", "Villa A"), folder("Rome", "Villa B"), folder("Rome", "Villa C")];
    let r = classify_scanned_folders(&folders, &[], "NEW");
    assert_eq!(r.found, 3);
    assert_eq!(r.new_properties.len(), 3);
    assert_eq!(r.new_properties.iter().filter(|p| p.city == "Rome").count(), 2);
}
