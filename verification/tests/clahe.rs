use property_photos::clahe::{
    cdf_min, clahe_tile_size, clip_histogram, cumulative_histogram, region_histogram, tile_bounds,
};

#[test]
fn tiles_cover_the_image() {
    assert_eq!(clahe_tile_size(100, 64), (13, 8));
    assert_eq!(tile_bounds(0, 0, 13, 8, 100, 64), (0, 0, 13, 8));
    assert_eq!(tile_bounds(7, 7, 13, 8, 100, 64), (91, 56, 100, 64));
    // Past the edge a tile is empty.
    assert_eq!(clahe_tile_size(3, 3), (1, 1));
    assert_eq!(tile_bounds(5, 0, 1, 1, 3, 3), (5, 0, 3, 1));
}

#[test]
fn histogram_of_a_region() {
    // 4 x 3 image
    let px: Vec<u8> = vec![
        0, 1, 1, 9,
        5, 1, 2, 9,
        7, 7, 7, 7,
    ];
    let (h, n) = region_histogram(&px, 4, 1, 3, 0, 2);
    assert_eq!(n, 4);
    assert_eq!(h.len(), 256);
    assert_eq!(h[1], 3);
    assert_eq!(h[2], 1);
    assert_eq!(h.iter().map(|&x| x as u64).sum::<u64>(), 4);
    let (empty, m) = region_histogram(&px, 4, 2, 2, 0, 3);
    assert_eq!(m, 0);
    assert!(empty.iter().all(|&x| x == 0));
}

#[test]
fn clipping_spreads_the_excess() {
    let mut h = vec![0u32; 256];
    h[10] = 600;
    h[20] = 100;
    clip_histogram(&mut h, 50);
    // cut = 550 + 50 = 600, spread 600 / 256 = 2 to every level
    assert_eq!(h[10], 52);
    assert_eq!(h[20], 52);
    assert_eq!(h[0], 2);
    // total 700 becomes 700 - 600 % 256 = 612
    assert_eq!(h.iter().map(|&x| x as u64).sum::<u64>(), 612);
}

#[test]
fn cumulative_and_minimum() {
    let mut h = vec![0u32; 256];
    h[3] = 2;
    h[5] = 4;
    let c = cumulative_histogram(&h);
    assert_eq!(c[2], 0);
    assert_eq!(c[3], 2);
    assert_eq!(c[4], 2);
    assert_eq!(c[255], 6);
    assert_eq!(cdf_min(&c), 2);
    assert_eq!(cdf_min(&vec![0u32; 256]), 0);
}
