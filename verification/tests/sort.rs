use property_photos::sort::{names_le, sort_names, stable_order_by_keys};

fn v(x: &[&str]) -> Vec<String> {
    x.iter().map(|s| s.to_string()).collect()
}

#[test]
fn sorts_like_vec_sort() {
    let names = v(&["b.jpg", "A.jpg", "a.jpg", "10.jpg", "2.jpg", "é.jpg"]);
    let mut expected = names.clone();
    expected.sort();
    assert_eq!(sort_names(&names), expected);
}

#[test]
fn compares_lexicographically() {
    assert!(names_le("a", "b"));
    assert!(names_le("a", "ab"));
    assert!(!names_le("ab", "a"));
    assert!(names_le("", ""));
}

#[test]
fn stable_order_keeps_equal_keys_in_place() {
    let keys = v(&["b", "a", "b", "a"]);
    assert_eq!(stable_order_by_keys(&keys), vec![1, 3, 0, 2]);
}
