use blender_file_version_switcher::{default_install_path, is_shortcut};

#[test]
fn install_path_legacy_release() {
    assert_eq!(
        default_install_path("2.93"),
        "C:\\Program Files\\Blender Foundation\\Blender 2.93\\blender.exe"
    );
}

#[test]
fn install_path_modern_release() {
    assert_eq!(
        default_install_path("4.1"),
        "C:\\Program Files\\Blender Foundation\\Blender 4.1\\blender-launcher.exe"
    );
}

#[test]
fn shortcut_detection() {
    assert!(is_shortcut("C:\\links\\blender 4.1.lnk"));
    assert!(is_shortcut(".lnk"));
    assert!(!is_shortcut("C:\\bin\\blender.exe"));
    assert!(!is_shortcut("lnk"));
    assert!(!is_shortcut("x.lnk.exe"));
}
