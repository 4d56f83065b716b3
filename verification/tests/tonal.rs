use property_photos::tonal::luminance_stats;

fn sorted_at(v: &[u8], k: usize) -> u8 {
    let mut s = v.to_vec();
    s.sort_unstable();
    s[k]
}

#[test]
fn percentiles_match_sorting() {
    let lums: Vec<u8> = (0..257u32).map(|i| ((i * 37) % 251) as u8).collect();
    let st = luminance_stats(&lums).unwrap();
    let len = lums.len();
    assert_eq!(st.count, len);
    assert_eq!(st.p5, sorted_at(&lums, len * 5 / 100));
    assert_eq!(st.p95, sorted_at(&lums, (len * 95 / 100).min(len - 1)));
    assert_eq!(st.sum, lums.iter().map(|&v| v as u64).sum::<u64>());
}

#[test]
fn small_and_empty_inputs() {
    assert!(luminance_stats(&[]).is_none());
    let st = luminance_stats(&[200]).unwrap();
    assert_eq!((st.p5, st.p95, st.sum, st.count), (200, 200, 200, 1));
    let st = luminance_stats(&[9, 1, 5]).unwrap();
    assert_eq!((st.p5, st.p95), (1, 9));
}
