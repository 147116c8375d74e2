use radish::backends::nexrad::decode::volume::parse;

fn fake_header(icao: &[u8; 4], jd: u32, ms: u32) -> Vec<u8> {
    let mut bytes = Vec::with_capacity(24);
    bytes.extend_from_slice(b"AR2V0006.");
    bytes.extend_from_slice(&[0x30, 0x30, 0x31]);
    bytes.extend_from_slice(&jd.to_be_bytes());
    bytes.extend_from_slice(&ms.to_be_bytes());
    bytes.extend_from_slice(icao);
    assert_eq!(bytes.len(), 24);
    bytes
}

#[test]
fn parse_returns_some_for_valid_header() {
    let bytes = fake_header(b"KLOT", 19_000, 12_345_678);
    let header = parse(&bytes).expect("valid header should parse");
    assert_eq!(&header.tape_filename, b"AR2V0006.");
    assert_eq!(header.modified_julian_date, 19_000);
    assert_eq!(header.milliseconds, 12_345_678);
    assert_eq!(&header.icao, b"KLOT");
    assert_eq!(header.icao_str(), "KLOT");
}

#[test]
fn parse_returns_none_for_missing_magic() {
    let bytes = vec![0u8; 24];
    assert!(parse(&bytes).is_none());
}

#[test]
fn parse_returns_none_for_short_input() {
    let bytes = b"AR2V0006".to_vec();
    assert!(parse(&bytes).is_none());
}
