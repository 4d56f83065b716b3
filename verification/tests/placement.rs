use property_photos::placement::{parse_anchor, tile_positions, watermark_position, Anchor};

#[test]
fn anchors_by_name() {
    assert_eq!(parse_anchor("top-left"), Anchor::TopLeft);
    assert_eq!(parse_anchor("bottom-center"), Anchor::BottomCenter);
    assert_eq!(parse_anchor("center"), Anchor::Center);
    assert_eq!(parse_anchor("somewhere"), Anchor::Center);
}

#[test]
fn single_watermark_positions() {
    // 1000 x 500 image, 200 x 100 mark
    assert_eq!(watermark_position(Anchor::TopLeft, 1000, 500, 200, 100, 0, 0), (0, 0));
    assert_eq!(watermark_position(Anchor::Center, 1000, 500, 200, 100, 0, 0), (400, 200));
    assert_eq!(watermark_position(Anchor::BottomRight, 1000, 500, 200, 100, 0, 0), (800, 400));
    assert_eq!(watermark_position(Anchor::TopCenter, 1001, 500, 200, 100, 0, 0), (400, 0));
    // Offsets move the mark but keep it inside the image.
    assert_eq!(watermark_position(Anchor::Center, 1000, 500, 200, 100, 30, -20), (430, 180));
    assert_eq!(watermark_position(Anchor::BottomRight, 1000, 500, 200, 100, 50, 50), (800, 400));
    assert_eq!(watermark_position(Anchor::TopLeft, 1000, 500, 200, 100, -5, -5), (0, 0));
}

#[test]
fn watermark_tiles_cover_the_image() {
    let (cols, rows) = tile_positions(1000, 500, 300, 200, -20, 10);
    assert_eq!(cols, vec![0, 320, 640, 960]);
    assert_eq!(rows, vec![0, 210, 420]);
    let (cols, rows) = tile_positions(0, 0, 10, 10, 0, 0);
    assert!(cols.is_empty() && rows.is_empty());
}
