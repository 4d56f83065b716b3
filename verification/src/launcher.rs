//! Opening images in an editor or the system viewer: which image, and the
//! command line that opens it on each platform.

use vstd::prelude::*;
use crate::paths::PathStyle;
use crate::folders::{join_path, path_join};

verus! {

/// The platform the application runs on.
#[derive(Clone, Copy, Debug, PartialEq, Eq, Structural)]
pub enum Platform {
    Windows,
    MacOs,
    Other,
}

/// A program to start and its arguments.
#[derive(Debug)]
pub struct Launch {
    pub program: String,
    pub args: Vec<String>,
}

/// The views of a list of texts.
pub open spec fn arg_texts(v: Seq<String>) -> Seq<Seq<char>> {
    v.map_values(|s: String| s@)
}

/// How `path` is opened with the system's default program: `cmd /C start
/// "" {path}` on Windows, `open {path}` on macOS, `xdg-open {path}`
/// elsewhere.
pub open spec fn default_open_spec(platform: Platform, path: Seq<char>) -> (Seq<char>, Seq<Seq<char>>) {
    match platform {
        Platform::Windows => ("cmd"@, seq!["/C"@, "start"@, ""@, path]),
        Platform::MacOs => ("open"@, seq![path]),
        Platform::Other => ("xdg-open"@, seq![path]),
    }
}

fn default_open(platform: Platform, path: &str) -> (r: Launch)
    ensures
        (r.program@, arg_texts(r.args@)) == default_open_spec(platform, path@),
{
    let mut args: Vec<String> = Vec::new();
    let program = match platform {
        Platform::Windows => {
            args.push(String::from_str("/C"));
            args.push(String::from_str("start"));
            args.push(String::from_str(""));
            args.push(String::from_str(path));
            String::from_str("cmd")
        },
        Platform::MacOs => {
            args.push(String::from_str(path));
            String::from_str("open")
        },
        Platform::Other => {
            args.push(String::from_str(path));
            String::from_str("xdg-open")
        },
    };
    proof {
        assert(arg_texts(args@) =~= default_open_spec(platform, path@).1);
    }
    Launch { program, args }
}

/// Opens `image_path` in the configured editor (started with the image as
/// its only argument) or, when none is configured, with the system default.
pub fn editor_launch(editor_path: Option<&str>, image_path: &str, platform: Platform) -> (r: Launch)
    ensures
        match editor_path {
            Some(e) => r.program@ == e@ && arg_texts(r.args@) == seq![image_path@],
            None => (r.program@, arg_texts(r.args@)) == default_open_spec(platform, image_path@),
        },
{
    match editor_path {
        Some(e) => {
            let mut args: Vec<String> = Vec::new();
            args.push(String::from_str(image_path));
            proof {
                assert(arg_texts(args@) =~= seq![image_path@]);
            }
            Launch { program: String::from_str(e), args }
        },
        None => default_open(platform, image_path),
    }
}

/// Opens the images of a folder, `paths` with the chosen one first: macOS
/// opens them all, other platforms the first one.
pub fn viewer_launch(paths: &[String], platform: Platform) -> (r: Launch)
    requires
        paths@.len() > 0,
    ensures
        platform == Platform::MacOs ==> r.program@ == "open"@ && arg_texts(r.args@) == arg_texts(
            paths@,
        ),
        platform != Platform::MacOs ==> (r.program@, arg_texts(r.args@)) == default_open_spec(
            platform,
            paths@[0]@,
        ),
{
    match platform {
        Platform::MacOs => {
            let mut args: Vec<String> = Vec::new();
            let mut i: usize = 0;
            while i < paths.len()
                invariant
                    i <= paths@.len(),
                    arg_texts(args@) == arg_texts(paths@).take(i as int),
                decreases paths@.len() - i,
            {
                let ghost before = args@;
                args.push(paths[i].clone());
                proof {
                    assert(arg_texts(args@) =~= arg_texts(before).push(paths@[i as int]@));
                    assert(arg_texts(paths@).take(i + 1) =~= arg_texts(paths@).take(i as int).push(
                        paths@[i as int]@,
                    ));
                }
                i = i + 1;
            }
            proof {
                assert(arg_texts(paths@).take(paths@.len() as int) =~= arg_texts(paths@));
            }
            Launch { program: String::from_str("open"), args }
        },
        _ => default_open(platform, paths[0].as_str()),
    }
}

/// On Windows a downloaded file is unblocked first (so that no security
/// warning shows): `powershell -Command Unblock-File -Path "{path}"`.
pub fn unblock_launch(path: &str) -> (r: Launch)
    ensures
        r.program@ == "powershell"@,
        arg_texts(r.args@) == seq!["-Command"@, "Unblock-File -Path \""@ + path@ + "\""@],
{
    let mut script = String::from_str("Unblock-File -Path \"");
    script.append(path);
    script.append("\"");
    let mut args: Vec<String> = Vec::new();
    args.push(String::from_str("-Command"));
    args.push(script);
    proof {
        assert(arg_texts(args@) =~= seq!["-Command"@, "Unblock-File -Path \""@ + path@ + "\""@]);
    }
    Launch { program: String::from_str("powershell"), args }
}

/// The image the quick editor opens: in the `INTERNET` folder when asked,
/// else in the property folder.
pub fn editor_image_path(style: PathStyle, property_path: &str, filename: &str, from_internet: bool) -> (r: String)
    ensures
        r@ == if from_internet {
            path_join(style, path_join(style, property_path@, "INTERNET"@), filename@)
        } else {
            path_join(style, property_path@, filename@)
        },
{
    if from_internet {
        let internet = join_path(style, property_path, crate::folders::INTERNET);
        join_path(style, internet.as_str(), filename)
    } else {
        join_path(style, property_path, filename)
    }
}

/// The image the advanced editor opens: in `INTERNET/AGGELIA` when asked,
/// else in `INTERNET`.
pub fn advanced_editor_image_path(style: PathStyle, property_path: &str, filename: &str, from_aggelia: bool) -> (r:
    String)
    ensures
        r@ == if from_aggelia {
            path_join(style, path_join(style, path_join(style, property_path@, "INTERNET"@), "AGGELIA"@), filename@)
        } else {
            path_join(style, path_join(style, property_path@, "INTERNET"@), filename@)
        },
{
    let internet = join_path(style, property_path, crate::folders::INTERNET);
    if from_aggelia {
        let aggelia = join_path(style, internet.as_str(), crate::folders::AGGELIA);
        join_path(style, aggelia.as_str(), filename)
    } else {
        join_path(style, internet.as_str(), filename)
    }
}

/// Runs the OpenCV setup script elevated (behind the system's permission
/// prompt) and waits for it: `powershell -Command Start-Process powershell
/// -Verb runAs -ArgumentList '-ExecutionPolicy Bypass -File "{script}"'
/// -Wait`.
pub fn elevated_setup_launch(script_path: &str) -> (r: Launch)
    ensures
        r.program@ == "powershell"@,
        arg_texts(r.args@) == seq![
            "-Command"@,
            "Start-Process powershell -Verb runAs -ArgumentList '-ExecutionPolicy Bypass -File \""@
                + script_path@ + "\"' -Wait"@,
        ],
{
    let mut script = String::from_str(
        "Start-Process powershell -Verb runAs -ArgumentList '-ExecutionPolicy Bypass -File \"",
    );
    script.append(script_path);
    script.append("\"' -Wait");
    let mut args: Vec<String> = Vec::new();
    args.push(String::from_str("-Command"));
    args.push(script);
    proof {
        assert(arg_texts(args@) =~= seq![
            "-Command"@,
            "Start-Process powershell -Verb runAs -ArgumentList '-ExecutionPolicy Bypass -File \""@
                + script_path@ + "\"' -Wait"@,
        ]);
    }
    Launch { program: String::from_str("powershell"), args }
}

} // verus!
