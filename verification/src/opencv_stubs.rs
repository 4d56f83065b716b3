//! What the OpenCV commands answer in a build without the OpenCV feature.

use vstd::prelude::*;

verus! {

/// OpenCV status as reported without the OpenCV feature.
#[derive(Debug)]
pub struct OpenCVStatus {
    pub available: bool,
    pub version: Option<String>,
    pub error: Option<String>,
}

/// The message of every OpenCV command in such a build.
pub open spec fn not_compiled_message() -> Seq<char> {
    "OpenCV feature not compiled. Rebuild with --features opencv"@
}

/// OpenCV is never available in such a build.
pub fn check_opencv_status() -> (r: OpenCVStatus)
    ensures
        !r.available,
        r.version is None,
        r.error matches Some(e) && e@ == not_compiled_message(),
{
    OpenCVStatus {
        available: false,
        version: None,
        error: Some(String::from_str("OpenCV feature not compiled. Rebuild with --features opencv")),
    }
}

/// Setup always fails in such a build.
pub fn run_opencv_setup() -> (r: Result<bool, String>)
    ensures
        r matches Err(e) && e@ == not_compiled_message(),
{
    Err(String::from_str("OpenCV feature not compiled. Rebuild with --features opencv"))
}

/// In such a build setup counts as skipped.
pub fn was_opencv_setup_skipped() -> (r: bool)
    ensures
        r,
{
    true
}

} // verus!
