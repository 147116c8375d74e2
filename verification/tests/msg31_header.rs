use radish::backends::nexrad::decode::messages::msg31::header::{
    DataHeader, PointerLayout, FIXED_HEADER_SIZE, LEGACY_HEADER_SIZE, POINTER_COUNT, POINTER_SIZE,
    PTR_CFP, PTR_REF, TOTAL_HEADER_SIZE,
};
use radish::backends::nexrad::decode::reader::SliceReader;

fn klot_sample() -> Vec<u8> {
    let mut buf = Vec::with_capacity(TOTAL_HEADER_SIZE);
    buf.extend_from_slice(b"KLOT");
    buf.extend_from_slice(&12_345_678u32.to_be_bytes());
    buf.extend_from_slice(&20_405u16.to_be_bytes());
    buf.extend_from_slice(&123u16.to_be_bytes());
    buf.extend_from_slice(&147.5_f32.to_be_bytes());
    buf.push(0);
    buf.push(0);
    buf.extend_from_slice(&9944u16.to_be_bytes());
    buf.push(2);
    buf.push(1);
    buf.push(11);
    buf.push(0);
    buf.extend_from_slice(&5.098_f32.to_be_bytes());
    buf.push(0);
    buf.push(0);
    buf.extend_from_slice(&10u16.to_be_bytes());
    for idx in 0..POINTER_COUNT as u32 {
        buf.extend_from_slice(&(120 + idx * 1000).to_be_bytes());
    }
    assert_eq!(buf.len(), TOTAL_HEADER_SIZE);
    buf
}

#[test]
fn read_consumes_exactly_72_bytes() {
    let bytes = klot_sample();
    let mut r = SliceReader::new(&bytes);
    let _ = DataHeader::read(&mut r).unwrap();
    assert_eq!(r.position(), TOTAL_HEADER_SIZE);
}

#[test]
fn round_trip_decodes_klot_fields() {
    let bytes = klot_sample();
    let mut r = SliceReader::new(&bytes);
    let h = DataHeader::read(&mut r).unwrap();
    assert_eq!(&h.radar_identifier, b"KLOT");
    assert_eq!(h.icao_str(), "KLOT");
    assert_eq!(h.collection_time_ms, 12_345_678);
    assert_eq!(h.modified_julian_date, 20_405);
    assert_eq!(h.azimuth_number, 123);
    assert!((f32::from_bits(h.azimuth_angle_degrees) - 147.5).abs() < 1e-6);
    assert_eq!(h.compression_indicator, 0);
    assert_eq!(h.radial_length, 9944);
    assert_eq!(h.azimuth_resolution_spacing, 2);
    assert_eq!(h.radial_status, 1);
    assert_eq!(h.elevation_number, 11);
    assert_eq!(h.cut_sector_number, 0);
    assert!((f32::from_bits(h.elevation_angle_degrees) - 5.098).abs() < 1e-6);
    assert_eq!(h.radial_spot_blanking_status, 0);
    assert_eq!(h.azimuth_indexing_mode, 0);
    assert_eq!(h.data_block_count, 10);
    for idx in 0..POINTER_COUNT {
        assert_eq!(h.pointers[idx], 120 + idx as u32 * 1000);
    }
}

#[test]
fn data_header_read_errors_on_short_input() {
    let bytes = klot_sample();
    let mut r = SliceReader::new(&bytes[..32]);
    assert!(DataHeader::read(&mut r).is_err());
}

#[test]
fn unused_pointers_are_preserved_as_zero() {
    let mut bytes = klot_sample();
    let cfp_ptr_offset = FIXED_HEADER_SIZE + PTR_CFP * POINTER_SIZE;
    bytes[cfp_ptr_offset..cfp_ptr_offset + 4].copy_from_slice(&0u32.to_be_bytes());
    let mut r = SliceReader::new(&bytes);
    let h = DataHeader::read(&mut r).unwrap();
    assert_eq!(h.pointers[PTR_CFP], 0, "CFP absent → pointer is 0");
    assert_ne!(h.pointers[PTR_REF], 0, "other pointers untouched");
}
