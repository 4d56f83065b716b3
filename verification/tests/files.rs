use property_photos::paths::PathStyle;
use property_photos::files::{
    cache_safe_folder_name, file_extension, file_stem, gallery_thumbnail_dir, get_image_format,
    is_aggelia_image_name, is_jpeg_name, is_original_image_name, is_thumbnail_source_name,
    list_thumbnail_dir, thumbnail_file_name, ImageFormatKind,
};

#[test]
fn extension_and_stem_follow_path_rules() {
    assert_eq!(file_extension("a.b.png"), Some("png".to_string()));
    assert_eq!(file_stem("a.b.png"), "a.b");
    assert_eq!(file_extension(".hidden"), None);
    assert_eq!(file_stem(".hidden"), ".hidden");
    assert_eq!(file_extension("noext"), None);
    assert_eq!(file_extension("trailing."), Some(String::new()));
    for n in ["a.b.png", ".hidden", "noext", "trailing.", "x.JPG", "..", ".a.b"] {
        let p = std::path::Path::new(n);
        assert_eq!(
            file_extension(n),
            p.extension().map(|e| e.to_str().unwrap().to_string()),
            "{}",
            n
        );
        if let Some(stem) = p.file_stem() {
            assert_eq!(file_stem(n), stem.to_str().unwrap(), "{}", n);
        }
    }
}

#[test]
fn image_filters_ignore_case() {
    assert!(is_original_image_name("IMG_1.JPG"));
    assert!(is_original_image_name("x.heic"));
    assert!(!is_original_image_name("x.webp"));
    assert!(is_thumbnail_source_name("x.WebP"));
    assert!(!is_thumbnail_source_name("notes.txt"));
    assert!(is_aggelia_image_name("01.webp"));
    assert!(!is_aggelia_image_name("01.heic"));
    assert!(is_jpeg_name("a.JPEG"));
    assert!(!is_jpeg_name("a.png"));
}

#[test]
fn image_format_by_extension() {
    assert_eq!(get_image_format("A.PNG"), Ok(ImageFormatKind::Png));
    assert_eq!(get_image_format("a.jpeg"), Ok(ImageFormatKind::Jpeg));
    assert_eq!(get_image_format("noext"), Err("Could not determine file extension".to_string()));
}

#[test]
fn thumbnail_and_cache_names() {
    assert_eq!(thumbnail_file_name("IMG_1.heic"), "IMG_1.jpg");
    assert_eq!(cache_safe_folder_name("Athens/Villa\\A"), "Athens_Villa_A");
    assert_eq!(list_thumbnail_dir(PathStyle::Unix, "/data", "Athens/Villa A"), "/data/thumbnails/Athens_Villa A");
    assert_eq!(
        gallery_thumbnail_dir(PathStyle::Unix, "/data", 400, "Athens/Villa A", ""),
        "/data/thumbnails/gallery_400/Athens_Villa A/root"
    );
    assert_eq!(
        gallery_thumbnail_dir(PathStyle::Unix, "/data", 1200, "Athens/Villa A", "INTERNET/AGGELIA"),
        "/data/thumbnails/gallery_1200/Athens_Villa A/INTERNET_AGGELIA"
    );
}
