use radish::backends::nexrad::decode::messages::msg31::info_blocks::{
    DataBlockId, ElevationBlock, RadialBlock, VolumeBlock,
};
use radish::backends::nexrad::decode::reader::SliceReader;

#[test]
fn data_block_id_round_trips() {
    let bytes = b"DVOL";
    let mut r = SliceReader::new(bytes);
    let id = DataBlockId::read(&mut r).unwrap();
    assert_eq!(id.marker, b'D');
    assert_eq!(&id.name, b"VOL");
    assert_eq!(id.name_str(), "VOL");
}

fn legacy_vol_payload() -> Vec<u8> {
    let mut buf = Vec::with_capacity(40);
    buf.extend_from_slice(&44u16.to_be_bytes());
    buf.push(2);
    buf.push(0);
    buf.extend_from_slice(&41.604_f32.to_be_bytes());
    buf.extend_from_slice(&(-88.084_f32).to_be_bytes());
    buf.extend_from_slice(&202_i16.to_be_bytes());
    buf.extend_from_slice(&29u16.to_be_bytes());
    buf.extend_from_slice(&36.0_f32.to_be_bytes());
    buf.extend_from_slice(&750.0_f32.to_be_bytes());
    buf.extend_from_slice(&750.0_f32.to_be_bytes());
    buf.extend_from_slice(&0.5_f32.to_be_bytes());
    buf.extend_from_slice(&90.0_f32.to_be_bytes());
    buf.extend_from_slice(&212u16.to_be_bytes());
    buf.extend_from_slice(&0u16.to_be_bytes());
    assert_eq!(buf.len(), 40);
    buf
}

#[test]
fn volume_block_legacy_round_trips() {
    let bytes = legacy_vol_payload();
    let mut r = SliceReader::new(&bytes);
    let v = VolumeBlock::read(&mut r).unwrap();
    assert_eq!(v.lrtup, 44);
    assert_eq!(v.major_version, 2);
    assert_eq!(v.minor_version, 0);
    assert!((f32::from_bits(v.latitude_degrees) - 41.604).abs() < 1e-3);
    assert!((f32::from_bits(v.longitude_degrees) - (-88.084)).abs() < 1e-3);
    assert_eq!(v.site_height_m, 202);
    assert_eq!(v.tower_height_m, 29);
    assert_eq!(v.volume_coverage_pattern_number, 212);
    assert!(
        v.zdr_bias_estimate_weighted_mean.is_none(),
        "legacy block doesn't carry zdr_bias"
    );
}

#[test]
fn volume_block_modern_carries_zdr_bias() {
    let mut bytes = legacy_vol_payload();
    bytes[..2].copy_from_slice(&52u16.to_be_bytes());
    bytes.extend_from_slice(&(-100_i16).to_be_bytes());
    bytes.extend_from_slice(&[0u8; 6]);
    let mut r = SliceReader::new(&bytes);
    let v = VolumeBlock::read(&mut r).unwrap();
    assert_eq!(v.lrtup, 52);
    assert_eq!(v.zdr_bias_estimate_weighted_mean, Some(-100));
}

#[test]
fn elevation_block_round_trips() {
    let mut buf = Vec::new();
    buf.extend_from_slice(&12u16.to_be_bytes());
    buf.extend_from_slice(&(-15_i16).to_be_bytes());
    buf.extend_from_slice(&36.0_f32.to_be_bytes());
    let mut r = SliceReader::new(&buf);
    let e = ElevationBlock::read(&mut r).unwrap();
    assert_eq!(e.lrtup, 12);
    assert!((f32::from(e.atmospheric_attenuation_raw) / 1000.0 - (-0.015)).abs() < 1e-6);
    assert!((f32::from_bits(e.calibration_constant_db) - 36.0).abs() < 1e-6);
}

#[test]
fn radial_block_legacy_round_trips() {
    let mut buf = Vec::new();
    buf.extend_from_slice(&20u16.to_be_bytes());
    buf.extend_from_slice(&4660_i16.to_be_bytes());
    buf.extend_from_slice(&(-90.0_f32).to_be_bytes());
    buf.extend_from_slice(&(-90.0_f32).to_be_bytes());
    buf.extend_from_slice(&3500_i16.to_be_bytes());
    buf.extend_from_slice(&0u16.to_be_bytes());
    let mut r = SliceReader::new(&buf);
    let rad = RadialBlock::read(&mut r).unwrap();
    assert_eq!(rad.lrtup, 20);
    assert!((f32::from(rad.unambiguous_range_raw) / 10.0 - 466.0).abs() < 1e-6);
    assert!((f32::from(rad.nyquist_velocity_raw) / 100.0 - 35.0).abs() < 1e-6);
    assert!(rad.horizontal_calibration_constant_db.is_none());
}

#[test]
fn radial_block_modern_carries_calib_constants() {
    let mut buf = Vec::new();
    buf.extend_from_slice(&28u16.to_be_bytes());
    buf.extend_from_slice(&4660_i16.to_be_bytes());
    buf.extend_from_slice(&(-90.0_f32).to_be_bytes());
    buf.extend_from_slice(&(-90.0_f32).to_be_bytes());
    buf.extend_from_slice(&3500_i16.to_be_bytes());
    buf.extend_from_slice(&0u16.to_be_bytes());
    buf.extend_from_slice(&0.5_f32.to_be_bytes());
    buf.extend_from_slice(&0.6_f32.to_be_bytes());
    let mut r = SliceReader::new(&buf);
    let rad = RadialBlock::read(&mut r).unwrap();
    assert_eq!(
        rad.horizontal_calibration_constant_db.map(f32::from_bits),
        Some(0.5)
    );
    assert_eq!(
        rad.vertical_calibration_constant_db.map(f32::from_bits),
        Some(0.6)
    );
}
