use radish::backends::cfradial1::sniff::looks_like_cfradial1;

#[test]
fn looks_like_cfradial1_accepts_hdf5_and_classic_netcdf() {
    assert!(looks_like_cfradial1(b"\x89HDF\r\n\x1a\nrest"));
    assert!(looks_like_cfradial1(b"CDF\x01rest"));
    assert!(looks_like_cfradial1(b"CDF\x02rest"));
}

#[test]
fn looks_like_cfradial1_rejects_non_netcdf() {
    assert!(!looks_like_cfradial1(b"AR2V"));
    assert!(!looks_like_cfradial1(&[0x1f, 0x8b, 0x08, 0x00]));
    assert!(!looks_like_cfradial1(b"hello world"));
    assert!(!looks_like_cfradial1(b""));
    assert!(!looks_like_cfradial1(b"\x89HDF"));
    assert!(!looks_like_cfradial1(b"CDF"));
}
