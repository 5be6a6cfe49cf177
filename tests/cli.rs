use blender_file_version_switcher::{extra_args, is_background_mode};

fn args(xs: &[&str]) -> Vec<String> {
    xs.iter().map(|x| x.to_string()).collect()
}

#[test]
fn split_args() {
    assert_eq!(extra_args(&Vec::<String>::new()), (args(&[]), None));
    assert_eq!(extra_args(&args(&["1"])), (args(&["1"]), None));
    assert_eq!(extra_args(&args(&["--"])), (args(&[]), Some(args(&[]))));
    assert_eq!(
        extra_args(&args(&["a", "--", "b", "c"])),
        (args(&["a"]), Some(args(&["b", "c"])))
    );
}

#[test]
fn split_args_at_first_separator_only() {
    assert_eq!(
        extra_args(&args(&["a", "--", "b", "--", "c"])),
        (args(&["a"]), Some(args(&["b", "--", "c"])))
    );
}

#[test]
fn background_flags_before_separator() {
    assert!(is_background_mode(&args(&["prog", "-b", "x.blend"])));
    assert!(is_background_mode(&args(&["prog", "x.blend", "--background"])));
    assert!(!is_background_mode(&args(&["prog", "x.blend"])));
    assert!(!is_background_mode(&args(&["prog", "x.blend", "--", "-b"])));
}
