use radish::backends::nexrad::attrs::{
    channel_config_str_from_raw, decode_rda_scan_data_flags, dynamic_scan_type,
    pack_super_resolution, sweep_attrs_from_cut, volume_attrs, waveform_type_str_from_raw,
};
use radish::backends::nexrad::decode::messages::msg31::moment::MomentDescriptor;
use radish::backends::nexrad::decode::messages::msg5::{ElevationCut, Msg5};
use radish::backends::nexrad::decode::model::{OwnedMoment, Radial, Sweep};
use radish::time::Timestamp;
use radish::types::NexradSweepAttrs;

#[test]
fn waveform_type_from_raw_matches_xradar_table() {
    assert_eq!(waveform_type_str_from_raw(0), "not_applicable");
    assert_eq!(waveform_type_str_from_raw(1), "contiguous_surveillance");
    assert_eq!(waveform_type_str_from_raw(2), "contiguous_doppler");
    assert_eq!(waveform_type_str_from_raw(3), "batch");
    assert_eq!(waveform_type_str_from_raw(4), "staggered_pulse_pair");
    assert_eq!(waveform_type_str_from_raw(5), "5");
    assert_eq!(waveform_type_str_from_raw(99), "99");
}

#[test]
fn channel_config_from_raw_matches_xradar_table() {
    assert_eq!(channel_config_str_from_raw(0), "constant_phase");
    assert_eq!(channel_config_str_from_raw(1), "random_phase");
    assert_eq!(channel_config_str_from_raw(2), "sz2_phase_coding");
    assert_eq!(channel_config_str_from_raw(3), "3");
}

#[test]
fn sweep_attrs_emit_xradar_strings_for_batch_and_staggered() {
    let cut_b = zero_cut_with(|c| {
        c.waveform_type = 4;
        c.channel_configuration = 0;
    });
    let attrs = sweep_attrs_from_cut(&cut_b);
    assert_eq!(attrs.waveform_type, "staggered_pulse_pair");

    let cut_cdwo = zero_cut_with(|c| {
        c.waveform_type = 3;
        c.channel_configuration = 2;
    });
    let attrs = sweep_attrs_from_cut(&cut_cdwo);
    assert_eq!(attrs.waveform_type, "batch");
    assert_eq!(attrs.channel_config, "sz2_phase_coding");
}

#[test]
fn dynamic_scan_type_sails_with_count() {
    let cuts = vec![sample_cut()];
    let vcp = vcp_with_supplemental(supplemental_bits(true, 1, false, 0), cuts.clone());
    assert_eq!(dynamic_scan_type(&vcp), "SAILS x 1");

    let vcp = vcp_with_supplemental(supplemental_bits(true, 0, false, 0), cuts.clone());
    assert_eq!(dynamic_scan_type(&vcp), "SAILS");

    let vcp = vcp_with_supplemental(supplemental_bits(false, 0, true, 2), cuts.clone());
    assert_eq!(dynamic_scan_type(&vcp), "MRLE x 2");

    let vcp = vcp_with_supplemental(supplemental_bits(false, 0, false, 0), cuts);
    assert_eq!(dynamic_scan_type(&vcp), "standard");
}

#[test]
fn pack_super_resolution_round_trip() {
    let cut = zero_cut_with(|c| c.super_resolution_control = 0b1001);
    assert_eq!(pack_super_resolution(&cut), 0b1001);
}

#[test]
fn rda_scan_data_flags_xradar_bits() {
    assert_eq!(decode_rda_scan_data_flags(0x0000), (false, false));
    assert_eq!(decode_rda_scan_data_flags(0x0002), (true, false));
    assert_eq!(decode_rda_scan_data_flags(0x0008), (false, true));
    assert_eq!(decode_rda_scan_data_flags(0x000A), (true, true));
    assert_eq!(decode_rda_scan_data_flags(0x0001), (false, false));
}

#[test]
fn volume_attrs_without_msg2_zeroes_rda_fields() {
    let vcp = vcp_with_supplemental(0, vec![sample_cut()]);
    let attrs = volume_attrs(&vcp, None, &[], 5);
    assert_eq!(attrs.dynamic_scan_type, "standard");
    assert!(!attrs.avset_enabled);
    assert!(!attrs.ebc_enabled);
    assert_eq!(attrs.super_res_status, 0);
    assert_eq!(attrs.rda_build_number, 0);
    assert_eq!(attrs.operational_mode, 0);
    assert_eq!(attrs.actual_elevation_cuts, 5);
    assert_eq!(attrs.number_elevation_cuts, 1);
    assert!(attrs.sweep_attrs.is_empty());
    assert!(attrs.sweep_time_ranges.is_empty());
}

#[test]
fn volume_attrs_populates_one_sweep_attr_per_sweep_from_matching_cut() {
    let cut_a = cut_with_sails(false);
    let cut_b = cut_with_sails(true);
    let cut_c = cut_with_sails(false);
    let vcp = vcp_with_supplemental(
        supplemental_bits(true, 1, false, 0),
        vec![cut_a, cut_b, cut_c],
    );
    let sweeps = vec![empty_sweep(1), empty_sweep(2), empty_sweep(3)];

    let attrs = volume_attrs(&vcp, None, &sweeps, 3);

    assert_eq!(attrs.sweep_attrs.len(), 3, "one entry per sweep");
    assert!(!attrs.sweep_attrs[0].sails_cut);
    assert!(attrs.sweep_attrs[1].sails_cut, "cut_b has sails_cut=true");
    assert!(!attrs.sweep_attrs[2].sails_cut);
}

#[test]
fn volume_attrs_pads_with_default_when_cuts_shorter_than_sweeps() {
    let vcp = vcp_with_supplemental(0, vec![sample_cut()]);
    let sweeps = vec![
        empty_sweep(1),
        empty_sweep(2),
        empty_sweep(3),
        empty_sweep(4),
    ];

    let attrs = volume_attrs(&vcp, None, &sweeps, 4);

    assert_eq!(attrs.sweep_attrs.len(), 4);
    assert_eq!(
        attrs.sweep_attrs[0].waveform_type,
        "contiguous_surveillance"
    );
    for sa in &attrs.sweep_attrs[1..] {
        assert_eq!(sa, &NexradSweepAttrs::default());
    }
}

#[test]
fn volume_attrs_sweep_time_ranges_some_and_none_branches() {
    let vcp = vcp_with_supplemental(0, vec![sample_cut(), sample_cut()]);
    let sweeps = vec![
        empty_sweep(1),
        sweep_with_timestamps(
            2,
            &[
                1_700_000_000_000_i64,
                1_700_000_005_500_i64,
                1_700_000_002_000_i64,
            ],
        ),
    ];

    let attrs = volume_attrs(&vcp, None, &sweeps, 2);

    assert_eq!(attrs.sweep_time_ranges.len(), 2);
    assert!(attrs.sweep_time_ranges[0].is_none(), "no radials → None");

    let (start, end) = attrs.sweep_time_ranges[1].expect("Some");
    let (start, end) = (seconds(start), seconds(end));
    assert!((start - 1_700_000_000.0).abs() < 1e-3, "start = {start}");
    assert!((end - 1_700_000_005.5).abs() < 1e-3, "end = {end}");
    assert!(start <= end, "time_range invariant: start <= end");
}

fn seconds(t: Timestamp) -> f64 {
    t.secs as f64 + f64::from(t.nanos) / 1e9
}

fn supplemental_bits(sails: bool, sails_cuts: u8, mrle: bool, mrle_cuts: u8) -> u16 {
    let mut bits = 0u16;
    if sails {
        bits |= 0b0001;
    }
    bits |= u16::from(sails_cuts & 0b0111) << 1;
    if mrle {
        bits |= 0b0001_0000;
    }
    bits |= u16::from(mrle_cuts & 0b0111) << 5;
    bits
}

fn zero_cut_with(mutate: impl FnOnce(&mut ElevationCut)) -> ElevationCut {
    let mut cut = ElevationCut {
        elevation_angle_raw: 0,
        channel_configuration: 0,
        waveform_type: 1,
        super_resolution_control: 0b0011,
        surveillance_prf_number: 1,
        surveillance_pulse_count: 17,
        azimuth_rate_raw: 0,
        reflectivity_threshold_raw: 0,
        velocity_threshold_raw: 0,
        spectrum_width_threshold_raw: 0,
        differential_reflectivity_threshold_raw: 0,
        differential_phase_threshold_raw: 0,
        correlation_coefficient_threshold_raw: 0,
        sector1_edge_angle_raw: 0,
        sector1_doppler_prf_number: 0,
        sector1_doppler_pulse_count: 0,
        supplemental_data: 0,
        sector2_edge_angle_raw: 0,
        sector2_doppler_prf_number: 0,
        sector2_doppler_pulse_count: 0,
        ebc_angle_raw: 0,
        sector3_edge_angle_raw: 0,
        sector3_doppler_prf_number: 0,
        sector3_doppler_pulse_count: 0,
        reserved: 0,
    };
    mutate(&mut cut);
    cut
}

fn sample_cut() -> ElevationCut {
    zero_cut_with(|_| {})
}

fn cut_with_sails(sails: bool) -> ElevationCut {
    zero_cut_with(|c| {
        if sails {
            c.supplemental_data = 0b0001 | (1 << 1);
        }
    })
}

fn vcp_with_supplemental(vcp_supplemental: u16, cuts: Vec<ElevationCut>) -> Msg5 {
    let n_cuts = cuts.len() as u16;
    Msg5 {
        message_size_halfwords: 0,
        pattern_type: 1,
        pattern_number: 212,
        number_of_elevation_cuts: n_cuts,
        vcp_version: 1,
        clutter_map_group_number: 1,
        doppler_velocity_resolution: 2,
        pulse_width: 2,
        vcp_sequencing: 0,
        vcp_supplemental,
        elevation_cuts: cuts,
    }
}

fn empty_sweep(elevation_number: u8) -> Sweep {
    Sweep {
        elevation_number,
        radials: Vec::new(),
    }
}

fn sweep_with_timestamps(elevation_number: u8, timestamps_ms: &[i64]) -> Sweep {
    let radials: Vec<Radial> = timestamps_ms
        .iter()
        .enumerate()
        .map(|(i, ts)| Radial {
            azimuth_number: i as u16,
            azimuth_angle_degrees: (i as f32).to_bits(),
            elevation_number,
            elevation_angle_degrees: 0.5f32.to_bits(),
            radial_status: 0,
            collection_time: Some(Timestamp {
                secs: ts.div_euclid(1000),
                nanos: ts.rem_euclid(1000) as u32 * 1_000_000,
            }),
            reflectivity: Some(OwnedMoment {
                descriptor: MomentDescriptor {
                    gate_count: 1,
                    range_to_first_gate_m: 2000,
                    gate_interval_m: 250,
                    tover_raw: 0,
                    snr_threshold_raw: 0,
                    control_flags: 0,
                    data_word_size_bits: 8,
                    scale: 2.0f32.to_bits(),
                    offset: 66.0f32.to_bits(),
                },
                gate_bytes: vec![10],
            }),
            velocity: None,
            spectrum_width: None,
            differential_reflectivity: None,
            differential_phase: None,
            correlation_coefficient: None,
            clutter_filter_power: None,
        })
        .collect();
    Sweep {
        elevation_number,
        radials,
    }
}
