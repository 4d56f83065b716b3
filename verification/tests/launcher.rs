use property_photos::paths::PathStyle;
use property_photos::launcher::{
    advanced_editor_image_path, editor_image_path, editor_launch, elevated_setup_launch,
    unblock_launch, viewer_launch,
    Platform,
};

fn v(x: &[&str]) -> Vec<String> {
    x.iter().map(|s| s.to_string()).collect()
}

#[test]
fn editor_or_system_default() {
    let l = editor_launch(Some("/usr/bin/gimp"), "/p/a.jpg", Platform::Other);
    assert_eq!((l.program.as_str(), l.args), ("/usr/bin/gimp", v(&["/p/a.jpg"])));
    let l = editor_launch(None, "/p/a.jpg", Platform::Windows);
    assert_eq!((l.program.as_str(), l.args), ("cmd", v(&["/C", "start", "", "/p/a.jpg"])));
    let l = editor_launch(None, "/p/a.jpg", Platform::MacOs);
    assert_eq!((l.program.as_str(), l.args), ("open", v(&["/p/a.jpg"])));
    let l = editor_launch(None, "/p/a.jpg", Platform::Other);
    assert_eq!((l.program.as_str(), l.args), ("xdg-open", v(&["/p/a.jpg"])));
}

#[test]
fn viewer_opens_all_on_macos_only() {
    let paths = v(&["/p/b.jpg", "/p/a.jpg"]);
    let l = viewer_launch(&paths, Platform::MacOs);
    assert_eq!((l.program.as_str(), l.args), ("open", paths.clone()));
    let l = viewer_launch(&paths, Platform::Other);
    assert_eq!((l.program.as_str(), l.args), ("xdg-open", v(&["/p/b.jpg"])));
}

#[test]
fn unblock_command_line() {
    let l = unblock_launch("C:/p/a.jpg");
    assert_eq!(l.program, "powershell");
    assert_eq!(l.args, v(&["-Command", "Unblock-File -Path \"C:/p/a.jpg\""]));
}

#[test]
fn editor_image_locations() {
    assert_eq!(editor_image_path(PathStyle::Unix, "/p", "a.jpg", true), "/p/INTERNET/a.jpg");
    assert_eq!(editor_image_path(PathStyle::Unix, "/p", "a.jpg", false), "/p/a.jpg");
    assert_eq!(advanced_editor_image_path(PathStyle::Unix, "/p", "a.jpg", true), "/p/INTERNET/AGGELIA/a.jpg");
    assert_eq!(advanced_editor_image_path(PathStyle::Unix, "/p", "a.jpg", false), "/p/INTERNET/a.jpg");
}

#[test]
fn elevated_setup_command_line() {
    let l = elevated_setup_launch("C:/app/setup-opencv.ps1");
    assert_eq!(l.program, "powershell");
    assert_eq!(
        l.args,
        v(&[
            "-Command",
            "Start-Process powershell -Verb runAs -ArgumentList '-ExecutionPolicy Bypass -File \"C:/app/setup-opencv.ps1\"' -Wait",
        ])
    );
}
