use property_photos::opencv::{is_opencv_world_dll, opencv_status, setup_outcome};
use property_photos::opencv_stubs::{check_opencv_status, run_opencv_setup, was_opencv_setup_skipped};

#[test]
fn recognises_the_opencv_dll() {
    assert!(is_opencv_world_dll("opencv_world4100.dll"));
    assert!(is_opencv_world_dll("OpenCV_World490.DLL"));
    assert!(!is_opencv_world_dll("opencv_core.dll"));
    assert!(!is_opencv_world_dll("opencv_world4100.lib"));
}

#[test]
fn status_messages() {
    let s = opencv_status(Some("C:/opencv/opencv_world4100.dll".into()), false);
    assert!(s.installed);
    assert_eq!(s.message, "OpenCV is installed and ready");
    let s = opencv_status(None, true);
    assert!(!s.installed);
    assert_eq!(s.message, "OpenCV DLLs not found. Setup required.");
    let s = opencv_status(None, false);
    assert_eq!(s.message, "OpenCV and LLVM not found. Full setup required.");
}

#[test]
fn setup_outcomes() {
    assert_eq!(setup_outcome(false, false).unwrap_err(), "Setup was cancelled or failed. Please try again.");
    let ok = setup_outcome(true, true).unwrap();
    assert!(ok.complete && ok.error.is_none());
    assert_eq!(ok.message, "Setup complete! OpenCV is ready.");
    let partial = setup_outcome(true, false).unwrap();
    assert_eq!(
        partial.error.as_deref(),
        Some("OpenCV DLLs not found after setup. You may need to restart your computer.")
    );
}

#[test]
fn stubs_without_opencv() {
    let s = check_opencv_status();
    assert!(!s.available);
    assert_eq!(s.error.as_deref(), Some("OpenCV feature not compiled. Rebuild with --features opencv"));
    assert!(run_opencv_setup().is_err());
    assert!(was_opencv_setup_skipped());
}
