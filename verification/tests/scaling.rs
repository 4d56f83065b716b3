use property_photos::scaling::{background_workers, jpeg_scale_denominator, scale_dimension, scaled_size};

#[test]
fn picks_the_smallest_scale_that_keeps_the_size() {
    // 6000 x 4000 shown at 1500: 1/4 gives 1500.
    assert_eq!(jpeg_scale_denominator(6000, 4000, 1500), 4);
    // 6000 at 700: 1/8 gives 750.
    assert_eq!(jpeg_scale_denominator(6000, 4000, 700), 8);
    // Small enough already.
    assert_eq!(jpeg_scale_denominator(800, 600, 800), 1);
    // 1/2 gives 999 < 1000: no scaling.
    assert_eq!(jpeg_scale_denominator(1998, 10, 1000), 1);
    assert_eq!(scaled_size(6000, 4001, 8), (750, 501));
    assert_eq!(scale_dimension(7, 2), 4);
}

#[test]
fn background_worker_count() {
    assert_eq!(background_workers(16), 8);
    assert_eq!(background_workers(3), 2);
    assert_eq!(background_workers(0), 2);
}
