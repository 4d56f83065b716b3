use property_photos::components::{components, paths_equal, split_on_slash};

#[test]
fn components_follow_path_rules() {
    for s in ["/a//b/", "./a/./b", "a/b/.", "", "/", ".", "..", "../a", "a/../b", ".a/b", "//x"] {
        let expected: Vec<String> = std::path::Path::new(s)
            .components()
            .map(|c| c.as_os_str().to_str().unwrap().to_string())
            .collect();
        assert_eq!(components(s), expected, "{:?}", s);
    }
}

#[test]
fn equality_is_component_wise() {
    let pairs = [
        ("a//b", "a/b"),
        ("a/b/", "a/b"),
        ("./a", "a"),
        ("/a", "a"),
        ("a/./b", "a/b"),
        ("a/b", "a/c"),
    ];
    for (x, y) in pairs {
        assert_eq!(
            paths_equal(x, y),
            std::path::Path::new(x) == std::path::Path::new(y),
            "{:?} {:?}",
            x,
            y
        );
    }
    assert!(paths_equal("a//b", "a/b"));
    assert!(!paths_equal("./a", "a"));
}

#[test]
fn split_keeps_empty_parts() {
    assert_eq!(split_on_slash("a//b/"), vec!["a", "", "b", ""]);
    assert_eq!(split_on_slash(""), vec![""]);
}
