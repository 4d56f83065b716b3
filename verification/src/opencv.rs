//! OpenCV availability for the perspective correction feature: recognising
//! the OpenCV DLL, and what the status and setup commands report.

use vstd::prelude::*;
use crate::text::{ends_with, lowercase_of, starts_with, to_lowercase};

verus! {

/// Status of the OpenCV installation.
#[derive(Debug)]
pub struct OpenCVStatus {
    pub installed: bool,
    pub dll_path: Option<String>,
    pub message: String,
}

/// Setup progress update.
#[derive(Debug)]
pub struct SetupProgress {
    pub step: u32,
    pub total_steps: u32,
    pub message: String,
    pub complete: bool,
    pub error: Option<String>,
}

/// Whether a file name, lower-cased, starts with `opencv_world` and ends
/// with `.dll`.
pub open spec fn is_opencv_dll_name(name: Seq<char>) -> bool {
    let l = lowercase_of(name);
    &&& "opencv_world"@.len() <= l.len()
    &&& l.take("opencv_world"@.len() as int) == "opencv_world"@
    &&& ".dll"@.len() <= l.len()
    &&& l.skip(l.len() - ".dll"@.len()) == ".dll"@
}

/// Whether a directory entry is the OpenCV world DLL.
pub fn is_opencv_world_dll(name: &str) -> (b: bool)
    ensures
        b == is_opencv_dll_name(name@),
{
    let l = to_lowercase(name);
    starts_with(l.as_str(), "opencv_world") && ends_with(l.as_str(), ".dll")
}

/// The status reported after searching for the DLL: installed when it was
/// found (with its path), otherwise not installed, with a message that
/// depends on whether LLVM/Clang is present.
pub fn opencv_status(found_dll: Option<String>, llvm_installed: bool) -> (r: OpenCVStatus)
    ensures
        match found_dll {
            Some(p) => r.installed && r.dll_path == Some(p) && r.message@
                == "OpenCV is installed and ready"@,
            None => !r.installed && r.dll_path is None && r.message@ == (if llvm_installed {
                "OpenCV DLLs not found. Setup required."@
            } else {
                "OpenCV and LLVM not found. Full setup required."@
            }),
        },
{
    match found_dll {
        Some(p) => OpenCVStatus {
            installed: true,
            dll_path: Some(p),
            message: String::from_str("OpenCV is installed and ready"),
        },
        None => OpenCVStatus {
            installed: false,
            dll_path: None,
            message: if llvm_installed {
                String::from_str("OpenCV DLLs not found. Setup required.")
            } else {
                String::from_str("OpenCV and LLVM not found. Full setup required.")
            },
        },
    }
}

/// What the setup command reports once the setup script has run: an error
/// when it failed or was cancelled; otherwise the final step, complete, with
/// an error note when OpenCV is still not found.
pub fn setup_outcome(script_succeeded: bool, installed_after: bool) -> (r: Result<
    SetupProgress,
    String,
>)
    ensures
        !script_succeeded ==> (r matches Err(m) && m@
            == "Setup was cancelled or failed. Please try again."@),
        script_succeeded ==> (r matches Ok(p) && p.step == 5 && p.total_steps == 5 && p.complete
            && (installed_after ==> p.message@ == "Setup complete! OpenCV is ready."@
            && p.error is None) && (!installed_after ==> (p.message@
            == "Setup completed but verification failed. Please restart the app."@ && (p.error matches Some(
            e,
        ) && e@ == "OpenCV DLLs not found after setup. You may need to restart your computer."@)))),
{
    if !script_succeeded {
        return Err(String::from_str("Setup was cancelled or failed. Please try again."));
    }
    if installed_after {
        Ok(
            SetupProgress {
                step: 5,
                total_steps: 5,
                message: String::from_str("Setup complete! OpenCV is ready."),
                complete: true,
                error: None,
            },
        )
    } else {
        Ok(
            SetupProgress {
                step: 5,
                total_steps: 5,
                message: String::from_str(
                    "Setup completed but verification failed. Please restart the app.",
                ),
                complete: true,
                error: Some(
                    String::from_str(
                        "OpenCV DLLs not found after setup. You may need to restart your computer.",
                    ),
                ),
            },
        )
    }
}

} // verus!
