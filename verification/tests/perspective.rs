use property_photos::perspective::{
    accept_corrections_summary, circular_bin_distance, group_nearby_peaks, join_strings,
    PerspectiveCommandResult,
};

#[test]
fn test_circular_bin_distance() {
    assert_eq!(circular_bin_distance(10, 20, 3600), 10);
    assert_eq!(circular_bin_distance(3590, 10, 3600), 20);
    assert_eq!(circular_bin_distance(0, 3599, 3600), 1);
}

#[test]
fn circular_distance_is_symmetric_and_at_most_half() {
    assert_eq!(circular_bin_distance(20, 10, 3600), 10);
    assert_eq!(circular_bin_distance(0, 1800, 3600), 1800);
    assert_eq!(circular_bin_distance(5, 5, 3600), 0);
}

#[test]
fn join_strings_puts_separator_between() {
    let parts = vec!["a".to_string(), "b".to_string(), "c".to_string()];
    assert_eq!(join_strings(&parts, "; "), "a; b; c");
    assert_eq!(join_strings(&[], "; "), "");
    assert_eq!(join_strings(&["x".to_string()], "; "), "x");
}

#[test]
fn accept_summary_without_errors() {
    let r = accept_corrections_summary(3, &vec![]);
    assert!(r.success);
    assert!(r.error.is_none());
    assert_eq!(r.message.unwrap(), "Successfully applied 3 corrections");
}

#[test]
fn accept_summary_with_errors() {
    let errs = vec!["Temp file not found: a".to_string(), "Failed to save b: x".to_string()];
    let r = accept_corrections_summary(1, &errs);
    assert!(r.success);
    assert_eq!(r.error.unwrap(), "Temp file not found: a; Failed to save b: x");
    assert_eq!(r.message.unwrap(), "Applied 1 corrections with 2 errors");
    let r = accept_corrections_summary(0, &errs);
    assert!(!r.success);
}

#[test]
fn command_result_constructors() {
    let s = PerspectiveCommandResult::success("done");
    assert!(s.success && s.error.is_none());
    assert_eq!(s.message.unwrap(), "done");
    let e = PerspectiveCommandResult::error("bad");
    assert!(!e.success && e.message.is_none());
    assert_eq!(e.error.unwrap(), "bad");
}

#[test]
fn nearby_peaks_are_grouped_round_the_circle() {
    // bins of raw peaks in order; radius 20 of 3600 bins
    let bins = vec![5, 18, 40, 900, 3590, 919];
    let groups = group_nearby_peaks(&bins, 3600, 20);
    assert_eq!(groups, vec![vec![0, 1, 4], vec![2], vec![3, 5]]);
}

#[test]
fn a_taken_peak_starts_no_group() {
    // 1 is close to 0 and to 2, but 2 is not close to 0: 2 starts its own group.
    let bins = vec![0, 15, 30];
    assert_eq!(group_nearby_peaks(&bins, 3600, 20), vec![vec![0, 1], vec![2]]);
    assert!(group_nearby_peaks(&[], 3600, 20).is_empty());
}
