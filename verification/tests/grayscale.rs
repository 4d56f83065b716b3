use property_photos::grayscale::{downsample_gray, pack_grayscale, unpack_grayscale};

#[test]
fn packs_four_pixels_per_word_low_byte_first() {
    let packed = pack_grayscale(&[1, 2, 3, 4, 5]);
    assert_eq!(packed, vec![0x0403_0201, 0x0000_0005]);
    assert_eq!(pack_grayscale(&[]), Vec::<u32>::new());
}

#[test]
fn unpack_after_pack_gives_pixels_back() {
    let pixels: Vec<u8> = (0..=250u8).step_by(7).collect();
    let packed = pack_grayscale(&pixels);
    let width = pixels.len() as u32;
    assert_eq!(unpack_grayscale(&packed, width, 1), pixels);
}

#[test]
fn unpack_pads_missing_words_with_zero() {
    assert_eq!(unpack_grayscale(&[0x0302_0100], 3, 2), vec![0, 1, 2, 3, 0, 0]);
}

#[test]
fn downsample_averages_two_by_two_blocks() {
    // 5 x 3 image: the last column and row are dropped
    let px: Vec<u8> = vec![
        10, 20, 30, 41, 99,
        30, 41, 50, 60, 99,
        99, 99, 99, 99, 99,
    ];
    assert_eq!(downsample_gray(&px, 5, 3), vec![25, 45]);
    assert_eq!(downsample_gray(&[], 0, 0), Vec::<u8>::new());
    assert_eq!(downsample_gray(&[255, 255, 255, 254], 2, 2), vec![254]);
}
