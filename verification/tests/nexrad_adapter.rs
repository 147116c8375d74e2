use radish::backends::nexrad::adapter::{
    convert_sweep, fixed_angle_for, median_elevation, probe_geometry, scaled_cfp, scaled_moment,
};
use radish::backends::nexrad::decode::messages::msg31::moment::{MomentDescriptor, MomentValue};
use radish::backends::nexrad::decode::messages::msg5::ElevationCut;
use radish::backends::nexrad::decode::model::{OwnedMoment, Radial, Sweep};
use radish::backends::nexrad::decode::products::{CfpMomentValue, CfpStatus, Product};
use radish::errors::RadishError;
use radish::types::{MomentData, Quantity, SweepData};

/// The number that a quantity stands for.
fn number(q: Quantity) -> f64 {
    match q {
        Quantity::Missing => f64::NAN,
        Quantity::Whole(n) => n as f64,
        Quantity::Single(bits) => f64::from(f32::from_bits(bits)),
        Quantity::Double(bits) => f64::from_bits(bits),
        Quantity::MeanOfSingles(a, b) => {
            f64::from((f32::from_bits(a) + f32::from_bits(b)) / 2.0)
        }
        Quantity::Of8192ths(n) => f64::from(n) / 8192.0,
    }
}

fn degrees(bits: &[u32]) -> Vec<f32> {
    bits.iter().map(|b| f32::from_bits(*b)).collect()
}

fn moment<'a>(sd: &'a SweepData, name: &str) -> Option<&'a MomentData> {
    sd.moments.iter().find(|m| m.name == name)
}

fn shape(m: &MomentData) -> (usize, usize) {
    (m.data.rows, m.data.cols)
}

/// The physical value of a cell; NaN where the cell is missing.
fn physical(m: &MomentData, row: usize, col: usize) -> f32 {
    match (m.data.cells[row * m.data.cols + col], m.scaling[row]) {
        (Some(raw), Some(s)) => (raw as f32 - f32::from_bits(s.offset)) / f32::from_bits(s.scale),
        _ => f32::NAN,
    }
}

fn empty_sweep(elevation_number: u8) -> Sweep {
    Sweep {
        elevation_number,
        radials: Vec::new(),
    }
}

#[test]
fn convert_sweep_errors_on_empty_radials() {
    let sweep = empty_sweep(1);
    match convert_sweep(&sweep, 0, None) {
        Err(RadishError::MalformedRecord { msg, .. }) => assert!(msg.contains("no radials")),
        other => panic!("expected MalformedRecord, got {other:?}"),
    }
}

#[test]
fn scaled_moment_maps_non_valid_to_nan() {
    assert_eq!(scaled_moment(MomentValue::Value(42)), Some(42));
    assert!(scaled_moment(MomentValue::BelowThreshold).is_none());
    assert!(scaled_moment(MomentValue::RangeFolded).is_none());
}

#[test]
fn scaled_cfp_maps_status_codes_to_nan() {
    assert_eq!(scaled_cfp(CfpMomentValue::Value(9)), Some(9));
    assert!(scaled_cfp(CfpMomentValue::Status(CfpStatus::FilterNotApplied)).is_none());
    assert!(scaled_cfp(CfpMomentValue::Status(CfpStatus::PointClutterFilterApplied)).is_none());
}

#[test]
fn median_elevation_handles_empty() {
    assert!(number(median_elevation(&[])).is_nan());
}

#[test]
fn median_elevation_returns_middle_value() {
    let angles = [2.5f32, 0.5, 1.5].map(f32::to_bits);
    assert!((number(median_elevation(&angles)) - 1.5).abs() < 1e-6);
}

#[test]
fn probe_geometry_returns_none_when_product_absent() {
    let empty: &[Radial] = &[];
    assert!(probe_geometry(empty, Product::Reflectivity).is_none());
}

fn ref_only_radial(azimuth_deg: f32, elevation_number: u8, raw_gates: Vec<u8>) -> Radial {
    Radial {
        azimuth_number: 0,
        azimuth_angle_degrees: azimuth_deg.to_bits(),
        elevation_number,
        elevation_angle_degrees: 0.5f32.to_bits(),
        radial_status: 0,
        collection_time: None,
        reflectivity: Some(OwnedMoment {
            descriptor: MomentDescriptor {
                gate_count: raw_gates.len() as u16,
                range_to_first_gate_m: 2000,
                gate_interval_m: 250,
                tover_raw: 0,
                snr_threshold_raw: 0,
                control_flags: 0,
                data_word_size_bits: 8,
                scale: 2.0f32.to_bits(),
                offset: 66.0f32.to_bits(),
            },
            gate_bytes: raw_gates,
        }),
        velocity: None,
        spectrum_width: None,
        differential_reflectivity: None,
        differential_phase: None,
        correlation_coefficient: None,
        clutter_filter_power: None,
    }
}

#[test]
fn convert_sweep_sorts_rays_and_decodes_reflectivity_correctly() {
    let sweep = Sweep {
        elevation_number: 1,
        radials: vec![
            ref_only_radial(20.0, 1, vec![130, 0, 130]),
            ref_only_radial(10.0, 1, vec![2, 1, 2]),
        ],
    };
    let sd = convert_sweep(&sweep, 0, None).expect("convert_sweep");

    assert_eq!(degrees(&sd.coordinates.azimuth), vec![10.0, 20.0]);
    let dbzh = moment(&sd, "DBZH").expect("DBZH present");
    assert_eq!(shape(dbzh), (2, 3));

    assert!((physical(dbzh, 0, 0) - (-32.0)).abs() < 1e-6);
    assert!(physical(dbzh, 0, 1).is_nan());
    assert!((physical(dbzh, 0, 2) - (-32.0)).abs() < 1e-6);

    assert!((physical(dbzh, 1, 0) - 32.0).abs() < 1e-6);
    assert!(physical(dbzh, 1, 1).is_nan());
    assert!((physical(dbzh, 1, 2) - 32.0).abs() < 1e-6);

    assert_eq!(sd.coordinates.range, vec![2000, 2250, 2500]);
}

#[test]
fn convert_sweep_pads_short_moments_with_nan() {
    let sweep = Sweep {
        elevation_number: 1,
        radials: vec![
            ref_only_radial(0.0, 1, vec![10, 20]),
            ref_only_radial(180.0, 1, vec![30, 40]),
        ],
    };
    let sd = convert_sweep(&sweep, 0, None).expect("convert_sweep");
    let dbzh = moment(&sd, "DBZH").expect("DBZH present");
    assert_eq!(shape(dbzh), (2, 2));
    assert!((physical(dbzh, 0, 0) - (-28.0)).abs() < 1e-6);
    assert!((physical(dbzh, 0, 1) - (-23.0)).abs() < 1e-6);
}

fn cut_with_angle(angle_deg: f64) -> ElevationCut {
    let raw = ((angle_deg * 65536.0 / 360.0).round() as u16) & !0b0000_0111;
    ElevationCut {
        elevation_angle_raw: raw,
        channel_configuration: 0,
        waveform_type: 1,
        super_resolution_control: 0,
        surveillance_prf_number: 1,
        surveillance_pulse_count: 17,
        azimuth_rate_raw: 0,
        reflectivity_threshold_raw: 0,
        velocity_threshold_raw: 0,
        spectrum_width_threshold_raw: 0,
        differential_reflectivity_threshold_raw: 0,
        differential_phase_threshold_raw: 0,
        correlation_coefficient_threshold_raw: 0,
        sector1_edge_angle_raw: 0,
        sector1_doppler_prf_number: 0,
        sector1_doppler_pulse_count: 0,
        supplemental_data: 0,
        sector2_edge_angle_raw: 0,
        sector2_doppler_prf_number: 0,
        sector2_doppler_pulse_count: 0,
        ebc_angle_raw: 0,
        sector3_edge_angle_raw: 0,
        sector3_doppler_prf_number: 0,
        sector3_doppler_pulse_count: 0,
        reserved: 0,
    }
}

fn radial_at(azimuth_deg: f32, elev_deg: f32) -> Radial {
    Radial {
        azimuth_number: 0,
        azimuth_angle_degrees: azimuth_deg.to_bits(),
        elevation_number: 1,
        elevation_angle_degrees: elev_deg.to_bits(),
        radial_status: 0,
        collection_time: None,
        reflectivity: Some(OwnedMoment {
            descriptor: MomentDescriptor {
                gate_count: 1,
                range_to_first_gate_m: 2000,
                gate_interval_m: 250,
                tover_raw: 0,
                snr_threshold_raw: 0,
                control_flags: 0,
                data_word_size_bits: 8,
                scale: 2.0f32.to_bits(),
                offset: 66.0f32.to_bits(),
            },
            gate_bytes: vec![10],
        }),
        velocity: None,
        spectrum_width: None,
        differential_reflectivity: None,
        differential_phase: None,
        correlation_coefficient: None,
        clutter_filter_power: None,
    }
}

#[test]
fn fixed_angle_for_prefers_msg5_commanded_over_msg31_median() {
    let cut = cut_with_angle(0.5);
    let commanded = f64::from(cut.elevation_angle_degrees()) / 8192.0;
    let sweep = Sweep {
        elevation_number: 1,
        radials: vec![
            radial_at(0.0, 0.4395),
            radial_at(120.0, 0.4395),
            radial_at(240.0, 0.4395),
        ],
    };

    let got = number(fixed_angle_for(Some(&cut), &sweep).expect("Some"));
    assert!(
        (got - commanded).abs() < 1e-6,
        "expected commanded {commanded}, got {got}"
    );
    assert!((got - 0.4395).abs() > 0.01, "got = {got} matches median");
}

#[test]
fn fixed_angle_for_falls_back_to_sweep_median_when_cut_is_none() {
    let sweep = Sweep {
        elevation_number: 1,
        radials: vec![
            radial_at(0.0, 1.5),
            radial_at(120.0, 1.5),
            radial_at(240.0, 1.5),
        ],
    };
    let got = number(fixed_angle_for(None, &sweep).expect("Some"));
    assert!(
        (got - 1.5).abs() < 1e-6,
        "expected 1.5 degrees (median), got {got}"
    );
}

#[test]
fn fixed_angle_for_returns_none_for_empty_sweep_and_no_cut() {
    assert!(fixed_angle_for(None, &empty_sweep(1)).is_none());
}

#[test]
fn fixed_angle_for_promotes_f32_to_f64_losslessly() {
    let sweep = Sweep {
        elevation_number: 1,
        radials: vec![radial_at(0.0, 1.5_f32)],
    };
    let got = number(fixed_angle_for(None, &sweep).expect("Some"));
    assert_eq!(got, f64::from(1.5_f32));
}
