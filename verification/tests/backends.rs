use radish::backends::{auto_backend_for_bytes, CfRadial1Backend, RadarBackend};
use radish::errors::RadishError;

#[test]
fn auto_backend_for_bytes_routes_ar2v_to_nexrad() {
    let head = b"AR2V0006.001....";
    let backend = auto_backend_for_bytes(head).expect("AR2V is some backend");
    assert_eq!(backend.name(), "nexrad_level2");
}

#[test]
fn auto_backend_for_bytes_routes_gzip_to_nexrad() {
    let head = &[0x1f, 0x8b, 0x08, 0x00, 0x00, 0x00, 0x00, 0x00];
    let backend = auto_backend_for_bytes(head).expect("gzip is some backend");
    assert_eq!(backend.name(), "nexrad_level2");
}

#[test]
fn auto_backend_for_bytes_routes_hdf5_to_cfradial1() {
    let head = b"\x89HDF\r\n\x1a\nrest";
    let backend = auto_backend_for_bytes(head).expect("HDF5 is some backend");
    assert_eq!(backend.name(), "cfradial1");
}

#[test]
fn auto_backend_for_bytes_errors_on_unknown_magic() {
    match auto_backend_for_bytes(b"GARBAGE!") {
        Ok(_) => panic!("expected InvalidFormat, got Ok"),
        Err(RadishError::InvalidFormat(_)) => (),
        Err(other) => panic!("expected InvalidFormat, got {other:?}"),
    }
}

#[test]
fn cfradial1_default_read_bytes_returns_unsupported() {
    let backend = CfRadial1Backend::new();
    let err = backend
        .read_bytes_volume(b"\x89HDF\r\n\x1a\n".to_vec())
        .unwrap_err();
    match err {
        RadishError::Unsupported(msg) => assert!(msg.contains("cfradial1")),
        other => panic!("expected Unsupported, got {other:?}"),
    }
}
