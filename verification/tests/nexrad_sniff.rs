use radish::backends::common::sniff::FileProbe;
use radish::backends::nexrad::sniff::{
    icao_from_filename, looks_like_ar2v_bytes, looks_like_nexrad, matches_nexrad_filename,
};
use std::path::Path;

fn file_name(path: &str) -> &str {
    Path::new(path).file_name().and_then(|n| n.to_str()).unwrap_or("")
}

/// The probe of a path that names no readable file.
fn unreadable(path: &str) -> FileProbe {
    let path = Path::new(path);
    FileProbe {
        name: path.file_name().and_then(|n| n.to_str()).map(str::to_owned),
        extension: path.extension().and_then(|e| e.to_str()).map(str::to_owned),
        head: None,
    }
}

#[test]
fn filename_pattern_matches_canonical() {
    assert!(matches_nexrad_filename(file_name("KLOT20260310_231412_V06")));
    assert!(matches_nexrad_filename(file_name("/some/path/KATX20230520_201643")));
}

#[test]
fn filename_pattern_rejects_non_nexrad() {
    assert!(!matches_nexrad_filename(file_name("foo.nc")));
    assert!(!matches_nexrad_filename(file_name("klot20260310_231412_V06")));
    assert!(!matches_nexrad_filename(file_name("KLOT20260310-231412")));
}

#[test]
fn icao_from_filename_extracts_klot() {
    assert_eq!(
        icao_from_filename(file_name("/x/KLOT20260310_231412_V06")),
        Some("KLOT")
    );
    assert_eq!(
        icao_from_filename(file_name("KATX20230520_201643")),
        Some("KATX")
    );
}

#[test]
fn icao_from_filename_rejects_non_nexrad() {
    assert_eq!(icao_from_filename(file_name("klot...")), None);
    assert_eq!(icao_from_filename(file_name("AAAAfoo")), None);
    assert_eq!(icao_from_filename(file_name("KATX-not-nexrad")), None);
}

#[test]
fn looks_like_returns_false_for_missing_unknown_file() {
    assert!(!looks_like_nexrad(&unreadable("/no/such/file/here.txt")));
}

#[test]
fn looks_like_ar2v_bytes_accepts_raw_and_gzipped() {
    assert!(looks_like_ar2v_bytes(b"AR2V0006.001"));
    assert!(looks_like_ar2v_bytes(&[0x1f, 0x8b, 0x08, 0x00]));
    assert!(!looks_like_ar2v_bytes(b"\x89HDF\r\n\x1a\n"));
    assert!(!looks_like_ar2v_bytes(b"CDF\x01"));
    assert!(!looks_like_ar2v_bytes(b"hello"));
    assert!(!looks_like_ar2v_bytes(b""));
    assert!(!looks_like_ar2v_bytes(b"AR"));
}
