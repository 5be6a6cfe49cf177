use blender_file_version_switcher::{get_version, BlenderVersion};

#[test]
fn to_raw_legacy_drops_dots() {
    assert_eq!(BlenderVersion::to_raw_version("2.93"), "293");
    assert_eq!(BlenderVersion::to_raw_version("1.80"), "180");
}

#[test]
fn to_raw_modern_pads_minor_and_drops_patch() {
    assert_eq!(BlenderVersion::to_raw_version("3.0"), "300");
    assert_eq!(BlenderVersion::to_raw_version("3.1"), "301");
    assert_eq!(BlenderVersion::to_raw_version("3.0.1"), "300");
    assert_eq!(BlenderVersion::to_raw_version("4.1.1"), "401");
    assert_eq!(BlenderVersion::to_raw_version("3.10"), "310");
}

#[test]
fn from_raw_legacy_and_modern() {
    assert_eq!(BlenderVersion::from_raw_version("293"), "2.93");
    assert_eq!(BlenderVersion::from_raw_version("180"), "1.80");
    assert_eq!(BlenderVersion::from_raw_version("300"), "3.0");
    assert_eq!(BlenderVersion::from_raw_version("301"), "3.1");
    assert_eq!(BlenderVersion::from_raw_version("310"), "3.10");
    assert_eq!(BlenderVersion::from_raw_version("400"), "4.0");
    assert_eq!(BlenderVersion::from_raw_version("3012"), "3.1.2");
}

#[test]
fn raw_round_trip_on_modern_versions() {
    for v in ["3.0", "3.1", "3.6.5", "4.1.1", "4.05", "3.10", "9.99"] {
        let raw = BlenderVersion::to_raw_version(v);
        let back = BlenderVersion::to_raw_version(&BlenderVersion::from_raw_version(&raw));
        assert_eq!(back, raw);
    }
}

#[test]
fn header_legacy_32_bit() {
    let v = get_version("BLENDER293REND").unwrap();
    assert_eq!(v.raw_version_string, "293");
    assert_eq!(v.bit, 32);
    assert_eq!(v.version, "2.93");
}

#[test]
fn header_modern_64_bit() {
    let v = get_version("BLENDER-400REND").unwrap();
    assert_eq!(v.raw_version_string, "400");
    assert_eq!(v.bit, 64);
    assert_eq!(v.version, "4.0");
}

#[test]
fn header_minor_one() {
    let v = get_version("BLENDER-301REND").unwrap();
    assert_eq!(v.raw_version_string, "301");
    assert_eq!(v.bit, 64);
    assert_eq!(v.version, "3.1");
}

#[test]
fn header_with_markers_and_filler() {
    let v = get_version("BLENDER-v301RENDH").unwrap();
    assert_eq!(v.raw_version_string, "301");
    assert_eq!(v.bit, 64);
    assert_eq!(v.version, "3.1");
    let v = get_version("BLENDER_v279RENDH").unwrap();
    assert_eq!(v.raw_version_string, "279");
    assert_eq!(v.bit, 32);
    assert_eq!(v.version, "2.79");
    let v = get_version("BLENDER_v180REND ").unwrap();
    assert_eq!(v.version, "1.80");
}

#[test]
fn header_bad_framing_is_rejected() {
    let e = get_version("BLENDOR-400REND").unwrap_err();
    assert_eq!(e.content, "BLENDOR-400REND");
    assert_eq!(e.message(), "invalid version header BLENDOR-400REND");
    assert!(get_version("BLENDER-400RENX").is_err());
    assert!(get_version("BLENDEREND").is_err());
    assert!(get_version("").is_err());
}

#[test]
fn header_without_valid_code_is_rejected() {
    assert!(get_version("BLENDER-vREND").is_err());
    assert!(get_version("BLENDER-4REND").is_err());
    let e = get_version("BLENDER-4x0REND").unwrap_err();
    assert_eq!(e.content, "BLENDER-4x0REND");
}
