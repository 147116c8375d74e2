use radish::backends::common::sniff::{
    looks_like, looks_like_bytes, FileProbe, NoPattern, SniffConfig,
};
use radish::backends::nexrad::sniff::NexradName;
use std::path::Path;

/// The probe of a path whose file begins with `head`, or cannot be read.
fn probe(path: &str, head: Option<&[u8]>) -> FileProbe {
    let path = Path::new(path);
    FileProbe {
        name: path.file_name().and_then(|n| n.to_str()).map(str::to_owned),
        extension: path.extension().and_then(|e| e.to_str()).map(str::to_owned),
        head: head.map(|h| h.to_vec()),
    }
}

#[test]
fn extension_match_short_circuits_on_first_hit() {
    let cfg = SniffConfig {
        extensions: &["raw", "ar2v"],
        magic_prefixes: &[],
        filename_pattern: NoPattern,
    };
    assert!(looks_like(&probe("/tmp/whatever.RAW", None), &cfg));
    assert!(looks_like(&probe("/tmp/whatever.ar2v", None), &cfg));
    assert!(!looks_like(&probe("/tmp/whatever.txt", None), &cfg));
}

#[test]
fn filename_pattern_recognises_canonical_name_without_extension() {
    let cfg = SniffConfig {
        extensions: &[],
        magic_prefixes: &[],
        filename_pattern: NexradName,
    };
    assert!(looks_like(
        &probe("/data/KLOT20260310_231412_V06", None),
        &cfg
    ));
    assert!(!looks_like(&probe("/data/foo.txt", None), &cfg));
}

#[test]
fn looks_like_bytes_matches_first_prefix_only() {
    let cfg = SniffConfig {
        extensions: &[],
        magic_prefixes: &[b"AR2V".as_slice(), b"\x1f\x8b"],
        filename_pattern: NoPattern,
    };
    assert!(looks_like_bytes(b"AR2V0006.001", &cfg));
    assert!(looks_like_bytes(&[0x1f, 0x8b, 0x08, 0x00], &cfg));
    assert!(!looks_like_bytes(b"\x89HDF\r\n\x1a\n", &cfg));
    assert!(!looks_like_bytes(b"AR", &cfg));
    assert!(!looks_like_bytes(b"", &cfg));
}

#[test]
fn missing_file_with_no_extension_returns_false() {
    let cfg = SniffConfig {
        extensions: &[],
        magic_prefixes: &[b"AR2V".as_slice()],
        filename_pattern: NoPattern,
    };
    assert!(!looks_like(&probe("/no/such/file", None), &cfg));
}

#[test]
fn magic_byte_read_from_disk_recognises_known_prefix() {
    let cfg = SniffConfig {
        extensions: &[],
        magic_prefixes: &[b"AR2V".as_slice()],
        filename_pattern: NoPattern,
    };
    assert!(looks_like(
        &probe("/tmp/volume", Some(b"AR2V0006.001\x00\x00\x00\x00")),
        &cfg
    ));
}

#[test]
fn magic_byte_read_from_disk_rejects_unknown_prefix() {
    let cfg = SniffConfig {
        extensions: &[],
        magic_prefixes: &[b"AR2V".as_slice(), b"\x89HDF"],
        filename_pattern: NoPattern,
    };
    assert!(!looks_like(&probe("/tmp/volume", Some(b"GARBAGE!")), &cfg));
}

#[test]
fn magic_byte_short_file_does_not_panic() {
    let cfg = SniffConfig {
        extensions: &[],
        magic_prefixes: &[b"AR2V".as_slice()],
        filename_pattern: NoPattern,
    };
    assert!(!looks_like(&probe("/tmp/volume", Some(b"AR")), &cfg));
}
