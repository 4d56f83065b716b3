use property_photos::paths::{
    safe_join, safe_join_all, safe_join_all_in, safe_join_in, target_path_style, PathError, PathStyle,
};
use std::path::PathBuf;

fn root() -> PathBuf {
    if target_path_style() == PathStyle::Windows {
        PathBuf::from(r"C:\photos")
    } else {
        PathBuf::from("/photos")
    }
}

fn join(r: &PathBuf, s: &str) -> Result<PathBuf, PathError> {
    safe_join(r.to_str().unwrap(), s).map(PathBuf::from)
}

#[test]
fn joins_normal_segments() {
    let r = root();
    let p = join(&r, "Athens").unwrap();
    assert_eq!(p, r.join("Athens"));
}

#[test]
fn joins_multi_segment_relative_path() {
    let r = root();
    let p = join(&r, "Athens/PropertyOne").unwrap();
    assert_eq!(p, r.join("Athens").join("PropertyOne"));
}

#[test]
fn rejects_parent_dir() {
    let r = root();
    assert!(join(&r, "..").is_err());
    assert!(join(&r, "Athens/../..").is_err());
    assert!(join(&r, "../escape").is_err());
}

#[test]
fn rejects_absolute_unix_path() {
    let r = root();
    assert!(join(&r, "/etc/passwd").is_err());
}

#[test]
fn rejects_windows_drive_prefix() {
    let r = r"C:\photos";
    assert!(safe_join_in(PathStyle::Windows, r, r"D:\Windows").is_err());
    assert!(safe_join_in(PathStyle::Windows, r, r"C:\Windows\System32").is_err());
}

#[test]
fn skips_cur_dir() {
    let r = root();
    let p = join(&r, "./Athens").unwrap();
    assert_eq!(p, r.join("Athens"));
}

#[test]
fn safe_join_all_chains_segments() {
    let r = root();
    let p = safe_join_all(r.to_str().unwrap(), &["Athens", "PropertyOne", "INTERNET"]).unwrap();
    assert_eq!(PathBuf::from(p), r.join("Athens").join("PropertyOne").join("INTERNET"));
}

#[test]
fn safe_join_all_rejects_any_bad_segment() {
    let r = root();
    assert!(safe_join_all(r.to_str().unwrap(), &["Athens", "..", "INTERNET"]).is_err());
}

#[test]
fn rejects_traversal_via_embedded_parent() {
    let r = root();
    // Even if hidden mid-path, ParentDir is rejected.
    assert!(join(&r, "Athens/../../etc").is_err());
}

#[test]
fn error_carries_whole_untrusted_path() {
    match safe_join_in(PathStyle::Unix, "/photos", "Athens/../x") {
        Err(PathError::UnsafeSegment(p)) => assert_eq!(p, "Athens/../x"),
        Ok(_) => panic!("expected an error"),
    }
    let e = safe_join_in(PathStyle::Unix, "/photos", "/etc").unwrap_err();
    assert_eq!(e.message(), "unsafe path segment: \"/etc\"");
}

#[test]
fn skips_empty_and_dot_segments_exactly() {
    assert_eq!(safe_join_in(PathStyle::Unix, "/photos", "a//b/./c/").unwrap(), "/photos/a/b/c");
    assert_eq!(safe_join_in(PathStyle::Unix, "/photos/", "a").unwrap(), "/photos/a");
    assert_eq!(safe_join_in(PathStyle::Unix, "", "a/b").unwrap(), "a/b");
    assert_eq!(safe_join_in(PathStyle::Unix, "/photos", "").unwrap(), "/photos");
    assert_eq!(safe_join_in(PathStyle::Unix, "/photos", "...").unwrap(), "/photos/...");
    assert_eq!(safe_join_in(PathStyle::Unix, "/photos", "a..b").unwrap(), "/photos/a..b");
}

#[test]
fn join_of_a_slash_b_equals_chained_join() {
    let whole = safe_join_in(PathStyle::Unix, "/photos", "Athens/Villa").unwrap();
    let first = safe_join_in(PathStyle::Unix, "/photos", "Athens").unwrap();
    let chained = safe_join_in(PathStyle::Unix, &first, "Villa").unwrap();
    assert_eq!(whole, chained);
}

#[test]
fn joined_path_stays_under_root() {
    let p = safe_join_in(PathStyle::Unix, "/photos", "x/./y").unwrap();
    assert!(p.starts_with("/photos"));
    assert!(!p["/photos".len()..].split('/').any(|s| s == ".."));
}

#[test]
fn safe_join_all_reports_first_failing_segment() {
    match safe_join_all_in(PathStyle::Unix, "/r", &["a", "../b", "/c"]) {
        Err(PathError::UnsafeSegment(p)) => assert_eq!(p, "../b"),
        Ok(_) => panic!("expected an error"),
    }
    assert_eq!(safe_join_all_in(PathStyle::Unix, "/r", &[]).unwrap(), "/r");
}

#[test]
fn windows_separators_and_prefixes_are_refused() {
    let w = PathStyle::Windows;
    assert!(safe_join_in(w, r"C:\photos", r"..\etc").is_err());
    assert!(safe_join_in(w, r"C:\photos", r"Athens\..\..").is_err());
    assert!(safe_join_in(w, r"C:\photos", r"\Windows").is_err());
    assert!(safe_join_in(w, r"C:\photos", r"\\server\share").is_err());
    assert!(safe_join_in(w, r"C:\photos", "/etc").is_err());
    assert!(safe_join_in(w, r"C:\photos", "c:rel").is_err());
    match safe_join_in(w, r"C:\photos", r"a\..\b") {
        Err(PathError::UnsafeSegment(p)) => assert_eq!(p, r"a\..\b"),
        Ok(_) => panic!("expected an error"),
    }
}

#[test]
fn unix_takes_backslashes_and_colons_as_plain_characters() {
    let u = PathStyle::Unix;
    assert_eq!(safe_join_in(u, "/photos", r"..\etc").unwrap(), r"/photos/..\etc");
    assert_eq!(safe_join_in(u, "/photos", r"D:\Windows").unwrap(), r"/photos/D:\Windows");
}

#[test]
fn windows_join_pushes_with_backslashes() {
    let w = PathStyle::Windows;
    assert_eq!(safe_join_in(w, r"C:\photos", "Athens/PropertyOne").unwrap(), r"C:\photos\Athens\PropertyOne");
    assert_eq!(safe_join_in(w, r"C:\photos\", r"a\.\b\").unwrap(), r"C:\photos\a\b");
    assert_eq!(safe_join_in(w, "C:", "a").unwrap(), "C:a");
    assert_eq!(safe_join_in(w, "C:/photos", "a").unwrap(), r"C:/photos\a");
    assert_eq!(
        safe_join_all_in(w, r"C:\photos", &["Athens", "PropertyOne", "INTERNET"]).unwrap(),
        r"C:\photos\Athens\PropertyOne\INTERNET"
    );
    assert!(safe_join_all_in(w, r"C:\photos", &["Athens", r"x\..", "INTERNET"]).is_err());
}

#[test]
fn windows_refuses_a_later_drive_segment() {
    let w = PathStyle::Windows;
    assert!(safe_join_in(w, r"C:\photos", r"a\D:x").is_err());
    assert!(safe_join_in(w, r"C:\photos", "a/c:").is_err());
    assert!(safe_join_all_in(w, r"C:\photos", &["Athens", "D:"]).is_err());
    // A colon that does not follow a lone leading letter is an ordinary character.
    assert_eq!(safe_join_in(w, r"C:\photos", r"a\ab:x").unwrap(), r"C:\photos\a\ab:x");
    // Under Unix conventions `D:x` is an ordinary name.
    assert_eq!(safe_join_in(PathStyle::Unix, "/photos", "a/D:x").unwrap(), "/photos/a/D:x");
}

#[test]
fn platform_join_follows_the_platform() {
    let style = target_path_style();
    assert_eq!(safe_join("/photos", "a/b").unwrap(), safe_join_in(style, "/photos", "a/b").unwrap());
    assert_eq!(safe_join("/photos", r"..\x").is_err(), safe_join_in(style, "/photos", r"..\x").is_err());
}
