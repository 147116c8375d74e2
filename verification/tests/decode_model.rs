use chrono::{NaiveDate, TimeZone, Utc};
use radish::backends::nexrad::decode::messages::msg31::header::{
    DataHeader, PointerLayout,
};
use radish::backends::nexrad::decode::model::{
    group_radials_into_sweeps, msg31_collection_time, MedianAngle, Radial, Sweep,
};
use radish::time::Timestamp;

fn date_of(t: Timestamp) -> NaiveDate {
    Utc.timestamp_opt(t.secs, t.nanos).unwrap().date_naive()
}

fn radial(azimuth_number: u16, elevation_number: u8, radial_status: u8) -> Radial {
    Radial {
        azimuth_number,
        azimuth_angle_degrees: (f32::from(azimuth_number) * 0.5).to_bits(),
        elevation_number,
        elevation_angle_degrees: 0.5f32.to_bits(),
        radial_status,
        collection_time: None,
        reflectivity: None,
        velocity: None,
        spectrum_width: None,
        differential_reflectivity: None,
        differential_phase: None,
        correlation_coefficient: None,
        clutter_filter_power: None,
    }
}

#[test]
fn group_emits_one_sweep_per_start_end_pair() {
    let radials = vec![
        radial(1, 1, 0),
        radial(2, 1, 1),
        radial(3, 1, 2),
        radial(1, 2, 0),
        radial(2, 2, 2),
    ];
    let sweeps = group_radials_into_sweeps(radials);
    assert_eq!(sweeps.len(), 2);
    assert_eq!(sweeps[0].elevation_number, 1);
    assert_eq!(sweeps[0].radials.len(), 3);
    assert_eq!(sweeps[1].elevation_number, 2);
    assert_eq!(sweeps[1].radials.len(), 2);
}

#[test]
fn group_falls_back_to_elevation_number_change_when_status_missing() {
    let radials = vec![
        radial(1, 1, 1),
        radial(2, 1, 1),
        radial(3, 2, 1),
        radial(4, 2, 1),
    ];
    let sweeps = group_radials_into_sweeps(radials);
    assert_eq!(sweeps.len(), 2);
    assert_eq!(sweeps[0].elevation_number, 1);
    assert_eq!(sweeps[1].elevation_number, 2);
}

#[test]
fn sails_supplemental_cut_with_status_marker_forms_separate_sweep() {
    let radials = vec![
        radial(1, 1, 0),
        radial(2, 1, 1),
        radial(3, 1, 2),
        radial(1, 5, 0),
        radial(2, 5, 2),
        radial(1, 1, 0),
        radial(2, 1, 2),
    ];
    let sweeps = group_radials_into_sweeps(radials);
    assert_eq!(sweeps.len(), 3, "got: {sweeps:?}");
    assert_eq!(sweeps[0].elevation_number, 1);
    assert_eq!(sweeps[1].elevation_number, 5);
    assert_eq!(sweeps[2].elevation_number, 1);
    assert_eq!(sweeps[0].radials.len(), 3);
    assert_eq!(sweeps[2].radials.len(), 2);
}

#[test]
fn group_handles_volume_start_and_end_status_codes() {
    let radials = vec![radial(1, 1, 3), radial(2, 1, 1), radial(3, 1, 4)];
    let sweeps = group_radials_into_sweeps(radials);
    assert_eq!(sweeps.len(), 1);
    assert_eq!(sweeps[0].radials.len(), 3);
}

#[test]
fn sweep_elevation_angle_is_median_of_radials() {
    let mut radials = vec![radial(1, 1, 1), radial(2, 1, 1), radial(3, 1, 1)];
    radials[0].elevation_angle_degrees = 0.4f32.to_bits();
    radials[1].elevation_angle_degrees = 0.5f32.to_bits();
    radials[2].elevation_angle_degrees = 0.6f32.to_bits();
    let sweep = Sweep {
        elevation_number: 1,
        radials,
    };
    let med = match sweep.elevation_angle_degrees().expect("non-empty") {
        MedianAngle::Middle(bits) => f32::from_bits(bits),
        MedianAngle::MeanOf(a, b) => (f32::from_bits(a) + f32::from_bits(b)) / 2.0,
    };
    assert!((med - 0.5).abs() < 1e-6, "got {med}");
}

#[test]
fn empty_sweep_elevation_angle_returns_none() {
    let sweep: Sweep = Sweep {
        elevation_number: 1,
        radials: vec![],
    };
    assert!(sweep.elevation_angle_degrees().is_none());
}

fn header_with_date(modified_julian_date: u16, collection_time_ms: u32) -> DataHeader {
    DataHeader {
        radar_identifier: *b"KLOT",
        collection_time_ms,
        modified_julian_date,
        azimuth_number: 1,
        azimuth_angle_degrees: 0,
        compression_indicator: 0,
        radial_length: 0,
        azimuth_resolution_spacing: 2,
        radial_status: 0,
        elevation_number: 1,
        cut_sector_number: 0,
        elevation_angle_degrees: 0,
        radial_spot_blanking_status: 0,
        azimuth_indexing_mode: 0,
        data_block_count: 0,
        pointers: [0; 10],
        layout: PointerLayout::Modern,
    }
}

#[test]
fn msg31_collection_time_day_1_decodes_to_unix_epoch() {
    let h = header_with_date(1, 0);
    let dt = msg31_collection_time(&h).expect("decoded");
    assert_eq!(dt.secs, 0);
    assert_eq!(dt.nanos, 0);
}

#[test]
fn msg31_collection_time_property_jd_to_date_relationship() {
    for jd in (1u16..50_000).step_by(97) {
        for ms in (0u32..86_400_000).step_by(8_639_993) {
            let h = header_with_date(jd, ms);
            let dt = msg31_collection_time(&h).expect("decoded");
            let expected = NaiveDate::from_ymd_opt(1970, 1, 1)
                .unwrap()
                .checked_add_days(chrono::Days::new(u64::from(jd) - 1))
                .unwrap();
            assert_eq!(date_of(dt), expected);
        }
    }
}

#[test]
fn msg31_collection_time_klot_2025_12_13_fixture_pins_filename_truth() {
    let h = header_with_date(20_436, 64_872_367);
    let dt = msg31_collection_time(&h).expect("decoded");
    assert_eq!(dt.secs * 1000 + i64::from(dt.nanos) / 1_000_000, 1_765_648_872_367);
    let expected = chrono::NaiveDate::from_ymd_opt(2025, 12, 13).unwrap();
    assert_eq!(date_of(dt), expected);
}
