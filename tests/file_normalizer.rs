use blender_file_version_switcher::{classify_magic, version_from_header, CompressionKind};

#[test]
fn magic_raw() {
    assert_eq!(classify_magic(*b"BLEN").unwrap(), CompressionKind::Raw);
    assert_eq!(classify_magic([0x42, 0x4c, 0x45, 0x4e]).unwrap(), CompressionKind::Raw);
}

#[test]
fn magic_gzip() {
    assert_eq!(classify_magic([0x1f, 0x8b, 0x08, 0x00]).unwrap(), CompressionKind::Gzip);
}

#[test]
fn magic_zstd() {
    assert_eq!(classify_magic([0x28, 0xb5, 0x2f, 0xfd]).unwrap(), CompressionKind::Zstd);
}

#[test]
fn magic_unknown_keeps_bytes() {
    let e = classify_magic([0xde, 0xad, 0xbe, 0xef]).unwrap_err();
    assert_eq!(e.bytes, [0xde, 0xad, 0xbe, 0xef]);
    assert_eq!(e.message(), "unknown magic byte [de, ad, be, ef]");
    let e = classify_magic([0x1f, 0x8b, 0x08, 0x01]).unwrap_err();
    assert_eq!(e.bytes, [0x1f, 0x8b, 0x08, 0x01]);
    assert_eq!(e.message(), "unknown magic byte [1f, 8b, 08, 01]");
}

#[test]
fn header_bytes_up_to_nul() {
    let v = version_from_header(b"BLENDER-v402RENDH\0\0\0\x01\x02").unwrap();
    assert_eq!(v.raw_version_string, "402");
    assert_eq!(v.bit, 64);
    assert_eq!(v.version, "4.2");
}

#[test]
fn header_bytes_without_nul() {
    let v = version_from_header(b"BLENDER_v279REND").unwrap();
    assert_eq!(v.version, "2.79");
    assert_eq!(v.bit, 32);
}

#[test]
fn header_bytes_invalid() {
    let e = version_from_header(b"PK\x03\x04\0BLENDER-v402REND").unwrap_err();
    assert_eq!(e.content, "PK\u{3}\u{4}");
    assert!(version_from_header(b"").is_err());
}
