use property_photos::paths::PathStyle;
use property_photos::gallery::{gallery_jobs, gallery_thumbnail_path, needs_regeneration, work_chunks};

#[test]
fn regeneration_rules() {
    assert!(needs_regeneration(false, Some(1), Some(2)));
    assert!(needs_regeneration(true, Some(3), Some(2)));
    assert!(!needs_regeneration(true, Some(2), Some(2)));
    assert!(!needs_regeneration(true, Some(1), Some(2)));
    assert!(needs_regeneration(true, None, Some(2)));
    assert!(needs_regeneration(true, Some(1), None));
}

#[test]
fn jobs_for_image_files_only() {
    let names: Vec<String> = ["b.PNG", "notes.txt", "a.heic"].iter().map(|s| s.to_string()).collect();
    let jobs = gallery_jobs(PathStyle::Unix, "/p/Villa/INTERNET", "/t/gallery_400/x/INTERNET", &names);
    assert_eq!(jobs.len(), 2);
    assert_eq!(jobs[0].source_path, "/p/Villa/INTERNET/b.PNG");
    assert_eq!(jobs[0].thumbnail_path, "/t/gallery_400/x/INTERNET/b.jpg");
    assert_eq!(jobs[1].thumbnail_path, "/t/gallery_400/x/INTERNET/a.jpg");
    assert_eq!(gallery_thumbnail_path(PathStyle::Unix, "/t", "x.y.webp"), "/t/x.y.jpg");
}

#[test]
fn chunks_cover_all_jobs_once() {
    assert_eq!(work_chunks(10, 8), vec![(0, 2), (2, 4), (4, 6), (6, 8), (8, 10)]);
    assert_eq!(work_chunks(3, 8), vec![(0, 1), (1, 2), (2, 3)]);
    assert_eq!(work_chunks(17, 8), vec![(0, 3), (3, 6), (6, 9), (9, 12), (12, 15), (15, 17)]);
    for count in 1..60usize {
        let c = work_chunks(count, 8);
        assert_eq!(c[0].0, 0);
        assert_eq!(c[c.len() - 1].1, count);
        assert!(c.len() <= 8);
        for w in c.windows(2) {
            assert_eq!(w[0].1, w[1].0);
        }
    }
}
