use radish::backends::nexrad::decode::messages::msg31::cfp::CfpValue;
use radish::backends::nexrad::decode::messages::msg31::moment::MomentDescriptor;
use radish::backends::nexrad::decode::model::{OwnedCfp, OwnedMoment, Radial};
use radish::backends::nexrad::decode::products::{
    CfpMomentValue, CfpStatus, DataMoment, Product,
};

fn make_moment(scale: f32, offset: f32, gates: Vec<u8>) -> OwnedMoment {
    OwnedMoment {
        descriptor: MomentDescriptor {
            gate_count: gates.len() as u16,
            range_to_first_gate_m: 2000,
            gate_interval_m: 250,
            tover_raw: 0,
            snr_threshold_raw: 0,
            control_flags: 0,
            data_word_size_bits: 8,
            scale: scale.to_bits(),
            offset: offset.to_bits(),
        },
        gate_bytes: gates,
    }
}

#[test]
fn moment_data_dispatches_to_correct_field() {
    let mut radial = Radial {
        azimuth_number: 0,
        azimuth_angle_degrees: 0,
        elevation_number: 1,
        elevation_angle_degrees: 0.5f32.to_bits(),
        radial_status: 0,
        collection_time: None,
        reflectivity: Some(make_moment(2.0, 66.0, vec![10])),
        velocity: None,
        spectrum_width: None,
        differential_reflectivity: None,
        differential_phase: None,
        correlation_coefficient: None,
        clutter_filter_power: None,
    };
    assert!(Product::Reflectivity.moment_data(&radial).is_some());
    assert!(Product::Velocity.moment_data(&radial).is_none());
    assert!(Product::ClutterFilterPower.moment_data(&radial).is_none());

    radial.velocity = Some(make_moment(2.0, 129.0, vec![10]));
    assert!(Product::Velocity.moment_data(&radial).is_some());
}

#[test]
fn cfp_moment_data_only_dispatches_for_clutter_filter_power() {
    let radial = Radial {
        azimuth_number: 0,
        azimuth_angle_degrees: 0,
        elevation_number: 1,
        elevation_angle_degrees: 0.5f32.to_bits(),
        radial_status: 0,
        collection_time: None,
        reflectivity: Some(make_moment(2.0, 66.0, vec![10])),
        velocity: None,
        spectrum_width: None,
        differential_reflectivity: None,
        differential_phase: None,
        correlation_coefficient: None,
        clutter_filter_power: Some(OwnedCfp {
            descriptor: MomentDescriptor {
                gate_count: 1,
                range_to_first_gate_m: 2000,
                gate_interval_m: 250,
                tover_raw: 0,
                snr_threshold_raw: 0,
                control_flags: 0,
                data_word_size_bits: 8,
                scale: 2.0f32.to_bits(),
                offset: 0.0f32.to_bits(),
            },
            gate_bytes: vec![10],
        }),
    };
    assert!(Product::Reflectivity.cfp_moment_data(&radial).is_none());
    assert!(Product::ClutterFilterPower
        .cfp_moment_data(&radial)
        .is_some());
}

#[test]
fn data_moment_geometry_for_owned_moment() {
    let m = make_moment(2.0, 66.0, vec![10, 20]);
    assert_eq!(m.gate_count(), 2);
    assert!((f32::from(m.first_gate_range_m()) / 1000.0 - 2.0).abs() < 1e-6);
    assert!((f32::from(m.gate_interval_m()) / 1000.0 - 0.25).abs() < 1e-6);
}

#[test]
fn cfp_value_to_cfp_moment_value() {
    assert_eq!(
        CfpMomentValue::from(CfpValue::FilterNotApplied),
        CfpMomentValue::Status(CfpStatus::FilterNotApplied)
    );
    assert_eq!(
        CfpMomentValue::from(CfpValue::PointClutterFilterApplied),
        CfpMomentValue::Status(CfpStatus::PointClutterFilterApplied)
    );
    assert_eq!(
        CfpMomentValue::from(CfpValue::PowerDb(9)),
        CfpMomentValue::Value(9)
    );
}
