use blender_file_version_switcher::{can_open, Settings};

#[test]
fn test_can_open() {
    assert!(can_open("3.0.1", "3.0"));
    assert!(can_open("3.0", "3.0"));
    assert!(can_open("3.0", "3.0.1"));
    assert!(!can_open("2.93", "3.0"));
    assert!(!can_open("1.80", "2.93"));
    assert!(can_open("2.93", "1.80"));
    assert!(can_open("4.0", "3.0.1"));
    assert!(!can_open("3.0", "4.1.1"));
    assert!(!can_open("4.0", "4.1.1"));
}

#[test]
fn can_open_orders_two_digit_minors() {
    assert!(can_open("3.10", "3.9"));
    assert!(!can_open("3.9", "3.10"));
}

fn settings(entries: &[(&str, &str)], default: Option<&str>) -> Settings {
    let mut s = Settings::new();
    for (v, p) in entries {
        s.insert(v.to_string(), p.to_string());
    }
    s.default = default.map(|d| d.to_string());
    s
}

#[test]
fn exact_entry_wins_over_newer_default() {
    let s = settings(&[("3.0", "/b/3.0"), ("4.1", "/b/4.1")], Some("4.1"));
    assert_eq!(s.get_executable("3.0"), Some("/b/3.0".to_string()));
}

#[test]
fn default_opens_older_file() {
    let s = settings(&[("4.1", "/b/4.1")], Some("4.1"));
    assert_eq!(s.get_executable("3.6"), Some("/b/4.1".to_string()));
    assert_eq!(s.get_executable("2.93"), Some("/b/4.1".to_string()));
}

#[test]
fn default_too_old_gives_nothing() {
    let s = settings(&[("3.0", "/b/3.0")], Some("3.0"));
    assert_eq!(s.get_executable("4.1"), None);
}

#[test]
fn no_default_gives_nothing() {
    let s = settings(&[("3.0", "/b/3.0")], None);
    assert_eq!(s.get_executable("3.6"), None);
    assert_eq!(Settings::new().get_executable("3.6"), None);
}

#[test]
fn default_without_entry_ends() {
    let s = settings(&[("3.0", "/b/3.0")], Some("4.1"));
    assert_eq!(s.get_executable("3.6"), None);
}

#[test]
fn later_insert_replaces_earlier() {
    let s = settings(&[("3.0", "/old"), ("3.0", "/new")], None);
    assert_eq!(s.get_executable("3.0"), Some("/new".to_string()));
}
