use radish::backends::nexrad::decode::messages::msg5::{
    binary_angle_degrees, ElevationCut, Msg5, BINARY_ANGLE_UNITS_PER_DEGREE,
    ELEVATION_CUT_HALFWORDS,
};
use radish::backends::nexrad::decode::reader::SliceReader;

fn synth_msg5(n_cuts: u16) -> Vec<u8> {
    let mut buf = Vec::new();
    let total_halfwords = 11 + n_cuts * ELEVATION_CUT_HALFWORDS as u16;
    buf.extend_from_slice(&total_halfwords.to_be_bytes());
    buf.extend_from_slice(&2u16.to_be_bytes());
    buf.extend_from_slice(&212u16.to_be_bytes());
    buf.extend_from_slice(&n_cuts.to_be_bytes());
    buf.push(1);
    buf.push(1);
    buf.push(2);
    buf.push(2);
    buf.extend_from_slice(&0u16.to_be_bytes());
    buf.extend_from_slice(&0u16.to_be_bytes());
    buf.extend_from_slice(&(n_cuts | (3u16 << 5)).to_be_bytes());
    buf.extend_from_slice(&(1u16 | (1u16 << 1)).to_be_bytes());
    buf.extend_from_slice(&0u16.to_be_bytes());
    for i in 0..n_cuts {
        buf.extend_from_slice(&((i + 1) << 8).to_be_bytes());
        buf.push(0);
        buf.push(1);
        buf.push(0);
        buf.push(1);
        buf.extend_from_slice(&17u16.to_be_bytes());
        buf.extend_from_slice(&0u16.to_be_bytes());
        for _ in 0..6 {
            buf.extend_from_slice(&0_i16.to_be_bytes());
        }
        buf.extend_from_slice(&0u16.to_be_bytes());
        buf.extend_from_slice(&0u16.to_be_bytes());
        buf.extend_from_slice(&0u16.to_be_bytes());
        let supp = if i == 0 { 1 } else { 0 };
        buf.extend_from_slice(&(supp as u16).to_be_bytes());
        buf.extend_from_slice(&0u16.to_be_bytes());
        buf.extend_from_slice(&0u16.to_be_bytes());
        buf.extend_from_slice(&0u16.to_be_bytes());
        buf.extend_from_slice(&0u16.to_be_bytes());
        buf.extend_from_slice(&0u16.to_be_bytes());
        buf.extend_from_slice(&0u16.to_be_bytes());
        buf.extend_from_slice(&0u16.to_be_bytes());
        buf.extend_from_slice(&0u16.to_be_bytes());
    }
    assert_eq!(
        buf.len(),
        (11 + (n_cuts as usize) * ELEVATION_CUT_HALFWORDS) * 2
    );
    buf
}

#[test]
fn read_consumes_full_header_and_cuts() {
    let bytes = synth_msg5(13);
    let mut r = SliceReader::new(&bytes);
    let msg = Msg5::read(&mut r).unwrap();
    assert_eq!(msg.pattern_number, 212);
    assert_eq!(msg.number_of_elevation_cuts, 13);
    assert_eq!(msg.vcp_version, 1);
    assert_eq!(msg.doppler_velocity_resolution, 2);
    assert_eq!(msg.pulse_width, 2);
    assert_eq!(msg.elevation_cuts.len(), 13);
    assert_eq!(msg.elevation_cuts[0].supplemental_data, 1);
    assert!(msg.elevation_cuts[1..]
        .iter()
        .all(|c| c.supplemental_data == 0));
}

#[test]
fn read_rejects_zero_or_oversized_elevation_count() {
    let mut bytes = synth_msg5(3);
    bytes[6..8].copy_from_slice(&0u16.to_be_bytes());
    let mut r = SliceReader::new(&bytes);
    assert!(Msg5::read(&mut r).is_err());

    let mut bytes = synth_msg5(3);
    bytes[6..8].copy_from_slice(&33u16.to_be_bytes());
    let mut r = SliceReader::new(&bytes);
    assert!(Msg5::read(&mut r).is_err());
}

#[test]
fn read_errors_on_truncated_cut() {
    let mut bytes = synth_msg5(5);
    bytes.truncate(11 * 2 + 2 * ELEVATION_CUT_HALFWORDS * 2);
    let mut r = SliceReader::new(&bytes);
    assert!(Msg5::read(&mut r).is_err());
}

#[test]
fn vcp_supplemental_bit_extractors_match_icd_note_16() {
    let cuts = vec![ElevationCut {
        elevation_angle_raw: 0,
        channel_configuration: 0,
        waveform_type: 1,
        super_resolution_control: 0,
        surveillance_prf_number: 1,
        surveillance_pulse_count: 0,
        azimuth_rate_raw: 0,
        reflectivity_threshold_raw: 0,
        velocity_threshold_raw: 0,
        spectrum_width_threshold_raw: 0,
        differential_reflectivity_threshold_raw: 0,
        differential_phase_threshold_raw: 0,
        correlation_coefficient_threshold_raw: 0,
        sector1_edge_angle_raw: 0,
        sector1_doppler_prf_number: 0,
        sector1_doppler_pulse_count: 0,
        supplemental_data: 0,
        sector2_edge_angle_raw: 0,
        sector2_doppler_prf_number: 0,
        sector2_doppler_pulse_count: 0,
        ebc_angle_raw: 0,
        sector3_edge_angle_raw: 0,
        sector3_doppler_prf_number: 0,
        sector3_doppler_pulse_count: 0,
        reserved: 0,
    }];
    let mut msg = Msg5 {
        message_size_halfwords: 0,
        pattern_type: 0,
        pattern_number: 212,
        number_of_elevation_cuts: 1,
        vcp_version: 0,
        clutter_map_group_number: 0,
        doppler_velocity_resolution: 2,
        pulse_width: 2,
        vcp_sequencing: 0,
        vcp_supplemental: 0b0001 | (0b010 << 1),
        elevation_cuts: cuts.clone(),
    };
    assert!(msg.sails_enabled());
    assert_eq!(msg.sails_cuts(), 2);
    assert!(!msg.mrle_enabled());

    msg.vcp_supplemental = 0b0001_0000 | (0b011 << 5);
    assert!(!msg.sails_enabled());
    assert!(msg.mrle_enabled());
    assert_eq!(msg.mrle_cuts(), 3);

    msg.vcp_supplemental = 0b1000_0000_0000;
    assert!(msg.mpda_enabled());
    msg.vcp_supplemental = 0b0001_0000_0000_0000 | (0b001 << 13);
    assert!(msg.base_tilt_enabled());
    assert_eq!(msg.base_tilt_count(), 1);
}

#[test]
fn vcp_sequencing_truncated_and_active_bits() {
    let mut msg = Msg5 {
        message_size_halfwords: 0,
        pattern_type: 0,
        pattern_number: 212,
        number_of_elevation_cuts: 1,
        vcp_version: 0,
        clutter_map_group_number: 0,
        doppler_velocity_resolution: 2,
        pulse_width: 2,
        vcp_sequencing: 0,
        vcp_supplemental: 0,
        elevation_cuts: vec![],
    };
    msg.vcp_sequencing = 0b0010_0000_0000_0000;
    assert!(msg.sequence_active());
    assert!(!msg.truncated());
    msg.vcp_sequencing = 0b0100_0000_0000_0000;
    assert!(msg.truncated());
    assert!(!msg.sequence_active());
}

#[test]
fn elevation_cut_supplemental_bit_extractors_match_icd_note_17() {
    let mut cut = ElevationCut {
        elevation_angle_raw: 0,
        channel_configuration: 0,
        waveform_type: 1,
        super_resolution_control: 0,
        surveillance_prf_number: 1,
        surveillance_pulse_count: 0,
        azimuth_rate_raw: 0,
        reflectivity_threshold_raw: 0,
        velocity_threshold_raw: 0,
        spectrum_width_threshold_raw: 0,
        differential_reflectivity_threshold_raw: 0,
        differential_phase_threshold_raw: 0,
        correlation_coefficient_threshold_raw: 0,
        sector1_edge_angle_raw: 0,
        sector1_doppler_prf_number: 0,
        sector1_doppler_pulse_count: 0,
        supplemental_data: 0,
        sector2_edge_angle_raw: 0,
        sector2_doppler_prf_number: 0,
        sector2_doppler_pulse_count: 0,
        ebc_angle_raw: 0,
        sector3_edge_angle_raw: 0,
        sector3_doppler_prf_number: 0,
        sector3_doppler_pulse_count: 0,
        reserved: 0,
    };
    cut.supplemental_data = 0b0001 | (0b010 << 1);
    assert!(cut.is_sails_cut());
    assert_eq!(cut.sails_sequence_number(), 2);
    assert!(!cut.is_mrle_cut());

    cut.supplemental_data = 0b0001_0000 | (0b011 << 5);
    assert!(!cut.is_sails_cut());
    assert!(cut.is_mrle_cut());
    assert_eq!(cut.mrle_sequence_number(), 3);

    cut.supplemental_data = 0b0010_0000_0000;
    assert!(cut.is_mpda_cut());

    cut.supplemental_data = 0b0100_0000_0000;
    assert!(cut.is_base_tilt_cut());
}

#[test]
fn super_resolution_control_bits() {
    let mut cut = ElevationCut {
        elevation_angle_raw: 0,
        channel_configuration: 0,
        waveform_type: 1,
        super_resolution_control: 0,
        surveillance_prf_number: 1,
        surveillance_pulse_count: 0,
        azimuth_rate_raw: 0,
        reflectivity_threshold_raw: 0,
        velocity_threshold_raw: 0,
        spectrum_width_threshold_raw: 0,
        differential_reflectivity_threshold_raw: 0,
        differential_phase_threshold_raw: 0,
        correlation_coefficient_threshold_raw: 0,
        sector1_edge_angle_raw: 0,
        sector1_doppler_prf_number: 0,
        sector1_doppler_pulse_count: 0,
        supplemental_data: 0,
        sector2_edge_angle_raw: 0,
        sector2_doppler_prf_number: 0,
        sector2_doppler_pulse_count: 0,
        ebc_angle_raw: 0,
        sector3_edge_angle_raw: 0,
        sector3_doppler_prf_number: 0,
        sector3_doppler_pulse_count: 0,
        reserved: 0,
    };
    cut.super_resolution_control = 0b1001;
    assert!(cut.super_resolution_half_degree_azimuth());
    assert!(!cut.super_resolution_quarter_km_reflectivity());
    assert!(!cut.super_resolution_doppler_to_300km());
    assert!(cut.super_resolution_dual_pol_to_300km());
}

fn degrees(raw: u16) -> f32 {
    binary_angle_degrees(raw) as f32 / BINARY_ANGLE_UNITS_PER_DEGREE as f32
}

#[test]
fn binary_angle_decodes_known_values() {
    assert!((degrees(0x8000) - 180.0).abs() < 1e-3);
    assert!((degrees(0x4000) - 90.0).abs() < 1e-3);
    let v = degrees(0x0100);
    assert!((v - 1.40625).abs() < 1e-3, "got {v}");
}
