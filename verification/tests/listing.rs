use property_photos::listing::{sorted_image_names, thumbnail_listing};

fn v(x: &[&str]) -> Vec<String> {
    x.iter().map(|s| s.to_string()).collect()
}

#[test]
fn image_listing_is_filtered_and_sorted() {
    assert_eq!(sorted_image_names(&v(&["b.jpg", "x.txt", "a.HEIC", "c.webp"])), v(&["a.HEIC", "b.jpg", "c.webp"]));
}

#[test]
fn thumbnail_listing_uses_jpg_names() {
    assert_eq!(thumbnail_listing(&v(&["b.png", "a.heic", "readme.md"])), v(&["a.jpg", "b.jpg"]));
}
