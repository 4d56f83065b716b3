use property_photos::paths::PathStyle;
use property_photos::thumbnails::{filter_thumbnail_sources, plan_thumbnail_batch, ThumbnailBatchRequest};

fn v(x: &[&str]) -> Vec<String> {
    x.iter().map(|s| s.to_string()).collect()
}

#[test]
fn batch_plan_takes_first_images_by_stem() {
    let req = ThumbnailBatchRequest { folder_path: "Athens/Villa A".into(), status: "NEW".into(), limit: Some(2) };
    let names = v(&["c.jpg", "notes.txt", "a.PNG", "b.heic"]);
    let plan = plan_thumbnail_batch(PathStyle::Unix, "/data", &req, &names);
    assert_eq!(plan.folder_path, "Athens/Villa A");
    assert_eq!(plan.total_count, 3);
    assert_eq!(plan.jobs.len(), 2);
    assert_eq!(plan.jobs[0].source_name, "a.PNG");
    assert_eq!(plan.jobs[0].thumbnail_path, "/data/thumbnails/Athens_Villa A/a.jpg");
    assert_eq!(plan.jobs[1].source_name, "b.heic");
}

#[test]
fn default_limit_is_six() {
    let req = ThumbnailBatchRequest { folder_path: "x".into(), status: "NEW".into(), limit: None };
    let names: Vec<String> = (0..9).map(|i| format!("{}.jpg", i)).collect();
    assert_eq!(plan_thumbnail_batch(PathStyle::Unix, "/d", &req, &names).jobs.len(), 6);
    assert_eq!(filter_thumbnail_sources(&v(&["a.txt", "b.gif"])), v(&["b.gif"]));
}
