use radish::backends::nexrad::decode::error::NexradDecodeError;
use radish::backends::nexrad::decode::messages::msg1::{Msg1, MSG1_HEADER_BYTES};
use radish::backends::nexrad::decode::reader::SliceReader;

fn synth_header(
    refl_ptr: i16,
    vel_ptr: i16,
    sw_ptr: i16,
    num_surv: i16,
    num_dopp: i16,
) -> Vec<u8> {
    let mut buf = Vec::with_capacity(MSG1_HEADER_BYTES);
    buf.extend_from_slice(&12_345_678_i32.to_be_bytes());
    buf.extend_from_slice(&15_000_i16.to_be_bytes());
    buf.extend_from_slice(&4_660_i16.to_be_bytes());
    buf.extend_from_slice(&8_192_i16.to_be_bytes());
    buf.extend_from_slice(&73_i16.to_be_bytes());
    buf.extend_from_slice(&1_i16.to_be_bytes());
    buf.extend_from_slice(&182_i16.to_be_bytes());
    buf.extend_from_slice(&3_i16.to_be_bytes());
    buf.extend_from_slice(&(-2_000_i16).to_be_bytes());
    buf.extend_from_slice(&125_i16.to_be_bytes());
    buf.extend_from_slice(&1_000_i16.to_be_bytes());
    buf.extend_from_slice(&250_i16.to_be_bytes());
    buf.extend_from_slice(&num_surv.to_be_bytes());
    buf.extend_from_slice(&num_dopp.to_be_bytes());
    buf.extend_from_slice(&1_i16.to_be_bytes());
    buf.extend_from_slice(&(-67.5_f32).to_be_bytes());
    buf.extend_from_slice(&refl_ptr.to_be_bytes());
    buf.extend_from_slice(&vel_ptr.to_be_bytes());
    buf.extend_from_slice(&sw_ptr.to_be_bytes());
    buf.extend_from_slice(&2_i16.to_be_bytes());
    buf.extend_from_slice(&11_i16.to_be_bytes());
    buf.extend(vec![0u8; 54]);
    assert_eq!(buf.len(), MSG1_HEADER_BYTES);
    buf
}

#[test]
fn read_consumes_exactly_100_bytes_with_no_moment_pointers() {
    let bytes = synth_header(0, 0, 0, 0, 0);
    let mut r = SliceReader::new(&bytes);
    let m = Msg1::read(&mut r).unwrap();
    assert_eq!(r.position(), MSG1_HEADER_BYTES);
    assert!(m.reflectivity_gates.is_none());
    assert!(m.velocity_gates.is_none());
    assert!(m.spectrum_width_gates.is_none());
}

#[test]
fn round_trip_preserves_every_header_field() {
    let bytes = synth_header(0, 0, 0, 0, 0);
    let mut r = SliceReader::new(&bytes);
    let m = Msg1::read(&mut r).unwrap();
    assert_eq!(m.collection_time_ms, 12_345_678);
    assert_eq!(m.modified_julian_date, 15_000);
    assert_eq!(m.unambiguous_range_x100m, 4_660);
    assert_eq!(m.azimuth_angle_raw, 8_192);
    assert_eq!(m.azimuth_number, 73);
    assert_eq!(m.radial_status, 1);
    assert_eq!(m.elevation_angle_raw, 182);
    assert_eq!(m.elevation_number, 3);
    assert_eq!(m.surveillance_first_gate_range_m, -2_000);
    assert_eq!(m.doppler_first_gate_range_m, 125);
    assert_eq!(m.surveillance_gate_interval_m, 1_000);
    assert_eq!(m.doppler_gate_interval_m, 250);
    assert_eq!(m.sector_number, 1);
    assert!((f32::from_bits(m.calibration_constant_db) - (-67.5)).abs() < 1e-6);
    assert_eq!(m.doppler_velocity_resolution, 2);
    assert_eq!(m.vcp_number, 11);
}

#[test]
fn azimuth_and_elevation_decode_to_degrees() {
    let bytes = synth_header(0, 0, 0, 0, 0);
    let mut r = SliceReader::new(&bytes);
    let m = Msg1::read(&mut r).unwrap();
    assert!((f32::from_bits(m.azimuth_angle_degrees()) - 45.0).abs() < 1e-3);
    assert!((f32::from_bits(m.elevation_angle_degrees()) - 1.0).abs() < 1e-2);
}

#[test]
fn read_decodes_gate_arrays_when_pointers_set() {
    let refl_ptr = MSG1_HEADER_BYTES as i16;
    let num_surv: i16 = 460;
    let vel_ptr = (MSG1_HEADER_BYTES + num_surv as usize) as i16;
    let num_dopp: i16 = 920;
    let sw_ptr = vel_ptr + num_dopp;

    let mut bytes = synth_header(refl_ptr, vel_ptr, sw_ptr, num_surv, num_dopp);
    bytes.extend(vec![0xAAu8; num_surv as usize]);
    bytes.extend(vec![0xBBu8; num_dopp as usize]);
    bytes.extend(vec![0xCCu8; num_dopp as usize]);

    let mut r = SliceReader::new(&bytes);
    let m = Msg1::read(&mut r).unwrap();

    let refl = m.reflectivity_gates.expect("refl gates");
    assert_eq!(refl.len(), num_surv as usize);
    assert!(refl.iter().all(|&b| b == 0xAA));

    let vel = m.velocity_gates.expect("vel gates");
    assert_eq!(vel.len(), num_dopp as usize);
    assert!(vel.iter().all(|&b| b == 0xBB));

    let sw = m.spectrum_width_gates.expect("sw gates");
    assert_eq!(sw.len(), num_dopp as usize);
    assert!(sw.iter().all(|&b| b == 0xCC));
}

#[test]
fn missing_moment_pointer_yields_none() {
    let num_surv: i16 = 100;
    let mut bytes = synth_header(MSG1_HEADER_BYTES as i16, 0, 0, num_surv, 0);
    bytes.extend(vec![0xAAu8; num_surv as usize]);
    let mut r = SliceReader::new(&bytes);
    let m = Msg1::read(&mut r).unwrap();
    assert!(m.reflectivity_gates.is_some());
    assert!(m.velocity_gates.is_none());
    assert!(m.spectrum_width_gates.is_none());
}

#[test]
fn msg1_read_errors_on_short_input() {
    let bytes = synth_header(0, 0, 0, 0, 0);
    let mut r = SliceReader::new(&bytes[..50]);
    assert!(matches!(
        Msg1::read(&mut r).unwrap_err(),
        NexradDecodeError::UnexpectedEof { .. }
    ));
}

#[test]
fn doppler_velocity_resolution_decodes_codes_2_and_4() {
    let bytes_05 = synth_header(0, 0, 0, 0, 0);
    let m05 = Msg1::read(&mut SliceReader::new(&bytes_05)).unwrap();
    assert!((f32::from_bits(m05.doppler_velocity_resolution_mps()) - 0.5).abs() < 1e-6);

    let mut bytes_10 = synth_header(0, 0, 0, 0, 0);
    bytes_10[42..44].copy_from_slice(&4_i16.to_be_bytes());
    let m10 = Msg1::read(&mut SliceReader::new(&bytes_10)).unwrap();
    assert!((f32::from_bits(m10.doppler_velocity_resolution_mps()) - 1.0).abs() < 1e-6);
}

#[test]
fn collection_time_day_1_decodes_to_unix_epoch() {
    let mut bytes = synth_header(0, 0, 0, 0, 0);
    bytes[0..4].copy_from_slice(&0_i32.to_be_bytes());
    bytes[4..6].copy_from_slice(&1_i16.to_be_bytes());
    let m = Msg1::read(&mut SliceReader::new(&bytes)).unwrap();
    let dt = m.collection_time().expect("decoded");
    assert_eq!(dt.secs, 0, "day 1 + ms 0 must equal Unix epoch");
    assert_eq!(dt.nanos, 0);
}
