use property_photos::aggelia::{aggelia_crop, fill_outcome, max_image_number, plan_aggelia_fill, AggeliaFill};

fn v(x: &[&str]) -> Vec<String> {
    x.iter().map(|s| s.to_string()).collect()
}

#[test]
fn fill_continues_numbering_and_cycles_sources() {
    let names = v(&["02.JPG", "01.png", "notes"]);
    match plan_aggelia_fill(&names) {
        AggeliaFill::Copies(c) => {
            assert_eq!(c.len(), 22);
            assert_eq!(c[0].source, "01.png");
            assert_eq!(c[0].new_name, "03.png");
            assert_eq!(c[1].source, "02.JPG");
            assert_eq!(c[1].new_name, "04.jpg");
            assert_eq!(c[2].source, "notes");
            assert_eq!(c[2].new_name, "05.jpg");
            assert_eq!(c[21].source, "01.png");
            assert_eq!(c[21].new_name, "24.png");
        }
        other => panic!("unexpected {:?}", other),
    }
}

#[test]
fn fill_edge_cases() {
    assert!(matches!(plan_aggelia_fill(&[]), AggeliaFill::NoImages));
    let full: Vec<String> = (1..=25).map(|i| format!("{:02}.jpg", i)).collect();
    assert!(matches!(plan_aggelia_fill(&full), AggeliaFill::AlreadyFull(25)));
    assert_eq!(max_image_number(&v(&["7.jpg", "x12.jpg", "10.b.jpg"])), 10);
}

#[test]
fn fill_outcome_messages() {
    let ok = fill_outcome(3, &[]);
    assert!(ok.success);
    assert_eq!(ok.message.as_deref(), Some("Added 3 images to reach 25"));
    let bad = fill_outcome(0, &v(&["x", "y"]));
    assert!(!bad.success);
    assert_eq!(bad.error.as_deref(), Some("Added 0 images with some errors: x, y"));
}

#[test]
fn crop_takes_at_least_one_pixel_per_edge() {
    let b = aggelia_crop(1000, 800, 10, 8).unwrap();
    assert_eq!((b.x, b.y, b.width, b.height), (10, 8, 980, 784));
    let small = aggelia_crop(50, 40, 0, 0).unwrap();
    assert_eq!((small.x, small.y, small.width, small.height), (1, 1, 48, 38));
    assert_eq!(aggelia_crop(11, 100, 0, 1).unwrap_err(), "Image too small to crop");
}

#[test]
fn numbering_may_reach_the_top_of_u32() {
    // One image numbered u32::MAX - 24: the 24 copies end exactly at u32::MAX.
    let names = vec![format!("{}.jpg", u32::MAX - 24)];
    match plan_aggelia_fill(&names) {
        AggeliaFill::Copies(copies) => {
            assert_eq!(copies.len(), 24);
            assert_eq!(copies[23].new_name, format!("{}.jpg", u32::MAX));
        }
        _ => panic!("expected copies"),
    }
}
