use property_photos::encoding::image_bytes_as_base64;

#[test]
fn base64_of_empty_input_is_empty() {
    assert_eq!(image_bytes_as_base64(&[]), "");
}

#[test]
fn base64_pads_short_groups() {
    assert_eq!(image_bytes_as_base64(b"a"), "YQ==");
    assert_eq!(image_bytes_as_base64(b"ab"), "YWI=");
    assert_eq!(image_bytes_as_base64(b"abc"), "YWJj");
}

#[test]
fn base64_uses_standard_alphabet() {
    assert_eq!(image_bytes_as_base64(b"hello world~"), "aGVsbG8gd29ybGR+");
    assert_eq!(image_bytes_as_base64(&[0xff, 0xff, 0xff]), "////");
    assert_eq!(image_bytes_as_base64(&[0xff, 0xd8, 0xff, 0xe0]), "/9j/4A==");
}

#[test]
fn base64_length_is_four_per_started_triple() {
    for n in 0..20usize {
        let bytes = vec![7u8; n];
        assert_eq!(image_bytes_as_base64(&bytes).len(), 4 * ((n + 2) / 3));
    }
}
