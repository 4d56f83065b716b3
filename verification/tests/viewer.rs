use property_photos::paths::PathStyle;
use property_photos::viewer::image_open_order;

fn v(x: &[&str]) -> Vec<String> {
    x.iter().map(|s| s.to_string()).collect()
}

#[test]
fn selected_image_comes_first() {
    let names = v(&["c.jpg", "a.jpg", "notes.txt", "b.PNG"]);
    assert_eq!(
        image_open_order(PathStyle::Unix, "/p", &names, "c.jpg").unwrap(),
        v(&["/p/c.jpg", "/p/a.jpg", "/p/b.PNG"])
    );
}

#[test]
fn unknown_selection_keeps_name_order() {
    let names = v(&["c.jpg", "a.jpg"]);
    assert_eq!(image_open_order(PathStyle::Unix, "/p", &names, "zzz.jpg").unwrap(), v(&["/p/a.jpg", "/p/c.jpg"]));
}

#[test]
fn folder_without_images() {
    assert_eq!(image_open_order(PathStyle::Unix, "/p", &v(&["a.txt"]), "a.txt").unwrap_err(), "No images found in folder");
}
