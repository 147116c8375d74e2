use radish::backends::nexrad::decode::messages::msg2::{Msg2, MSG2_BYTES};
use radish::backends::nexrad::decode::reader::SliceReader;

fn synth_msg2() -> Vec<u8> {
    let mut buf = Vec::with_capacity(MSG2_BYTES);
    let scalars: [u16; 26] = [
        16,
        2,
        8,
        1,
        500,
        150u16,
        14,
        212,
        0,
        1900,
        4,
        2,
        1,
        10,
        0,
        0,
        0,
        0,
        20_000,
        500,
        20_001,
        300,
        120u16,
        3,
        2,
        0,
    ];
    for v in scalars {
        buf.extend_from_slice(&v.to_be_bytes());
    }
    for _ in 0..14 {
        buf.extend_from_slice(&0u16.to_be_bytes());
    }
    buf.extend_from_slice(&1u16.to_be_bytes());
    for _ in 0..17 {
        buf.extend_from_slice(&0u16.to_be_bytes());
    }
    buf.extend_from_slice(&212u16.to_be_bytes());
    buf.extend_from_slice(&3u16.to_be_bytes());
    assert_eq!(buf.len(), MSG2_BYTES);
    buf
}

#[test]
fn read_consumes_exactly_120_bytes() {
    let bytes = synth_msg2();
    let mut r = SliceReader::new(&bytes);
    let _ = Msg2::read(&mut r).unwrap();
    assert_eq!(r.position(), MSG2_BYTES);
}

#[test]
fn round_trip_preserves_every_field() {
    let bytes = synth_msg2();
    let mut r = SliceReader::new(&bytes);
    let m = Msg2::read(&mut r).unwrap();
    assert_eq!(m.rda_status, 16);
    assert_eq!(m.operability_status, 2);
    assert_eq!(m.control_status, 8);
    assert_eq!(m.auxiliary_power_generator_state, 1);
    assert_eq!(m.average_transmitter_power_w, 500);
    assert_eq!(m.horizontal_reflectivity_calibration_correction, 150);
    assert_eq!(m.data_transmission_enabled, 14);
    assert_eq!(m.volume_coverage_pattern_number, 212);
    assert_eq!(m.rda_control_authorization, 0);
    assert_eq!(m.rda_build_number, 1900);
    assert_eq!(m.operational_mode, 4);
    assert_eq!(m.super_resolution_status, 2);
    assert_eq!(m.clutter_mitigation_decision_status, 1);
    assert_eq!(m.rda_scan_and_data_flags, 10);
    assert_eq!(m.rda_alarm_summary, 0);
    assert_eq!(m.command_acknowledgement, 0);
    assert_eq!(m.channel_control_status, 0);
    assert_eq!(m.spot_blanking_status, 0);
    assert_eq!(m.bypass_map_generation_date, 20_000);
    assert_eq!(m.bypass_map_generation_time, 500);
    assert_eq!(m.clutter_filter_map_generation_date, 20_001);
    assert_eq!(m.clutter_filter_map_generation_time, 300);
    assert_eq!(m.vertical_reflectivity_calibration_correction, 120);
    assert_eq!(m.transition_power_source_status, 3);
    assert_eq!(m.rms_control_status, 2);
    assert_eq!(m.performance_check_status, 0);
    assert!(m.alarm_codes.iter().all(|&c| c == 0));
    assert_eq!(m.signal_processing_options, 1);
    assert!(m.spares.iter().all(|&s| s == 0));
    assert_eq!(m.downloaded_pattern_number, 212);
    assert_eq!(m.status_version, 3);
}

#[test]
fn msg2_read_errors_on_short_input() {
    let bytes = synth_msg2();
    let mut r = SliceReader::new(&bytes[..60]);
    assert!(Msg2::read(&mut r).is_err());
}

#[test]
fn negative_signed_calibration_corrections_round_trip() {
    let mut bytes = synth_msg2();
    bytes[10..12].copy_from_slice(&(-100_i16).to_be_bytes());
    bytes[44..46].copy_from_slice(&(-50_i16).to_be_bytes());
    let mut r = SliceReader::new(&bytes);
    let m = Msg2::read(&mut r).unwrap();
    assert_eq!(m.horizontal_reflectivity_calibration_correction, -100);
    assert_eq!(m.vertical_reflectivity_calibration_correction, -50);
}

#[test]
fn negative_vcp_number_signals_local_pattern() {
    let mut bytes = synth_msg2();
    bytes[14..16].copy_from_slice(&(-32_i16).to_be_bytes());
    let mut r = SliceReader::new(&bytes);
    let m = Msg2::read(&mut r).unwrap();
    assert_eq!(m.volume_coverage_pattern_number, -32);
}
