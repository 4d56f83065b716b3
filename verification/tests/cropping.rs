use property_photos::cropping::{crop_to_content, CropRect};

/// A `w` x `h` RGBA image, opaque white inside `x0..x1`, `y0..y1`, transparent elsewhere.
fn image(w: usize, h: usize, x0: usize, x1: usize, y0: usize, y1: usize) -> Vec<u8> {
    let mut px = vec![0u8; 4 * w * h];
    for y in y0..y1 {
        for x in x0..x1 {
            let i = 4 * (y * w + x);
            px[i..i + 4].copy_from_slice(&[255, 255, 255, 255]);
        }
    }
    px
}

#[test]
fn crops_to_the_content_with_a_margin() {
    let px = image(20, 20, 5, 15, 5, 15);
    assert_eq!(crop_to_content(&px, 20, 20, 16, 16), Some(CropRect { x: 3, y: 3, width: 14, height: 14 }));
}

#[test]
fn keeps_the_image_when_too_much_would_go() {
    let px = image(20, 20, 5, 15, 5, 15);
    assert_eq!(crop_to_content(&px, 20, 20, 20, 20), None);
}

#[test]
fn keeps_the_image_without_content() {
    assert_eq!(crop_to_content(&image(8, 8, 0, 0, 0, 0), 8, 8, 8, 8), None);
    // A single column of content is no box.
    assert_eq!(crop_to_content(&image(8, 8, 3, 4, 0, 8), 8, 8, 8, 8), None);
    // Dark or translucent pixels are not content.
    let mut px = image(8, 8, 0, 0, 0, 0);
    for k in 0..64 {
        px[4 * k..4 * k + 4].copy_from_slice(&[5, 5, 5, 255]);
    }
    assert_eq!(crop_to_content(&px, 8, 8, 8, 8), None);
}

#[test]
fn margin_stays_inside_the_image() {
    let px = image(10, 10, 1, 9, 1, 9);
    assert_eq!(crop_to_content(&px, 10, 10, 10, 10), Some(CropRect { x: 0, y: 0, width: 10, height: 10 }));
}
