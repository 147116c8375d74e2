use radish::backends::cfradial1::helpers::{
    parse_platform_type, parse_sweep_mode, read_float_attr, read_string_attr, AttrValue,
};
use radish::backends::cfradial1::{
    is_moment_variable, CfMomentInput, CfRadial1Backend, CfSweepInput, CfVariable, CfVolumeInput,
};
use radish::backends::common::sniff::FileProbe;
use radish::backends::{auto_backend, available_backends, RadarBackend};
use radish::errors::RadishError;
use radish::types::{PlatformType, Quantity, SweepMode};

fn text(s: &str) -> Option<AttrValue> {
    Some(AttrValue::Str(s.to_string()))
}

fn volume() -> CfVolumeInput {
    CfVolumeInput {
        instrument_name: Some(AttrValue::Uchars(vec![b'X', 0xFF, b'Y'])),
        institution: Some(AttrValue::Float(0)),
        latitude: Ok(41.5f64.to_bits()),
        longitude: Ok((-88.0f64).to_bits()),
        altitude: Ok(200.0f64.to_bits()),
        altitude_agl: None,
        time_coverage_start: text("2026-03-10T23:14:12Z"),
        time_coverage_end: text("2026-03-11T00:14:12.5+01:00"),
        sweep_number: Ok(vec![0, 1]),
        fixed_angle: Ok(vec![0.5f64.to_bits(), 1.5f64.to_bits()]),
        volume_number: None,
        frequency: Some(2.8e9f64.to_bits()),
        platform_type: text("SHIP"),
    }
}

fn sweep() -> CfSweepInput {
    CfSweepInput {
        sweep_start_ray_index: Ok(vec![0, 2]),
        sweep_end_ray_index: Ok(vec![1, 2]),
        sweep_number: Ok(vec![0, -1]),
        fixed_angle: Ok(vec![0.5f64.to_bits(), 1.5f64.to_bits()]),
        sweep_mode: Ok(vec![Some("RHI".to_string()), None]),
        time: Ok(vec![1, 2, 3]),
        range: Ok(vec![10, 20]),
        azimuth: Ok(vec![4, 5, 6]),
        elevation: Ok(vec![7, 8, 9]),
    }
}

fn moment(data: Result<Vec<u32>, RadishError>) -> CfMomentInput {
    CfMomentInput {
        data,
        units: text("dBZ"),
        fill_value: Some(AttrValue::Float((-999.0f32).to_bits())),
        scale_factor: text("not a number"),
        add_offset: None,
        standard_name: text("reflectivity"),
        long_name: Some(AttrValue::Uchar(7)),
    }
}

#[test]
fn volume_metadata_comes_from_attributes_and_variables() {
    let m = CfRadial1Backend::new()
        .read_volume_metadata(volume())
        .expect("described");
    assert_eq!(m.instrument_name, "X\u{FFFD}Y");
    assert_eq!(m.institution, "unknown");
    assert_eq!(m.platform_type, Some(PlatformType::Ship));
    assert_eq!(m.latitude, Quantity::Double(41.5f64.to_bits()));
    assert_eq!(m.time_coverage_start.secs, 1_773_184_452);
    assert_eq!(m.time_coverage_start.nanos, 0);
    assert_eq!(m.time_coverage_end.secs, 1_773_184_452);
    assert_eq!(m.time_coverage_end.nanos, 500_000_000);
    assert_eq!(m.volume_number, 0);
    assert_eq!(m.sweep_group_names, vec!["sweep_0", "sweep_1"]);
    assert_eq!(m.sweep_fixed_angles.len(), 2);
}

#[test]
fn the_first_thing_that_a_volume_lacks_is_reported() {
    let backend = CfRadial1Backend::new();
    let mut input = volume();
    input.longitude = Err(RadishError::MissingVariable("longitude".to_string()));
    input.time_coverage_start = None;
    match backend.read_volume_metadata(input) {
        Err(RadishError::MissingVariable(name)) => assert_eq!(name, "longitude"),
        other => panic!("expected MissingVariable, got {other:?}"),
    }
    let mut input = volume();
    input.time_coverage_end = text("yesterday");
    match backend.read_volume_metadata(input) {
        Err(RadishError::MissingAttribute(name)) => assert_eq!(name, "time_coverage_end"),
        other => panic!("expected MissingAttribute, got {other:?}"),
    }
    let mut input = volume();
    input.fixed_angle = Err(RadishError::NetCdf("short".to_string()));
    assert!(matches!(
        backend.read_volume_metadata(input),
        Err(RadishError::NetCdf(_))
    ));
}

#[test]
fn a_sweep_takes_its_rays_out_of_the_file() {
    let backend = CfRadial1Backend::new();
    let first = backend.read_sweep_data(sweep(), 0).ok().expect("sweep 0");
    assert_eq!((first.start_ray, first.end_ray), (0, 1));
    assert_eq!(first.metadata.sweep_mode, SweepMode::Elevation);
    assert_eq!(first.time, vec![1, 2]);
    assert_eq!(first.range, vec![10, 20]);
    assert_eq!(first.azimuth, vec![4, 5]);
    assert_eq!(first.elevation, vec![7, 8]);
    let second = backend.read_sweep_data(sweep(), 1).ok().expect("sweep 1");
    assert_eq!(second.metadata.sweep_number, u32::MAX);
    assert_eq!(second.metadata.sweep_mode, SweepMode::Azimuth);
    assert_eq!(second.azimuth, vec![6]);
    assert!(matches!(
        backend.read_sweep_data(sweep(), 2),
        Err(RadishError::InvalidSweepIndex(2))
    ));
    let mut input = sweep();
    input.azimuth = Err(RadishError::MissingVariable("azimuth".to_string()));
    assert!(matches!(
        backend.read_sweep_data(input, 0),
        Err(RadishError::MissingVariable(_))
    ));
}

#[test]
fn a_moment_is_shaped_into_rays_and_gates() {
    let backend = CfRadial1Backend::new();
    let m = backend
        .read_moment("DBZ", 3, 4, 2, moment(Ok(vec![1, 2, 3, 4])))
        .ok()
        .expect("four values");
    assert_eq!((m.rows, m.cols), (2, 2));
    assert_eq!(m.data, vec![1, 2, 3, 4]);
    assert_eq!(m.units, "dBZ");
    assert_eq!(m.fill_value, Some((-999.0f32).to_bits()));
    assert_eq!(m.scale_factor, None);
    assert_eq!(m.standard_name.as_deref(), Some("reflectivity"));
    assert_eq!(m.long_name, None);
}

#[test]
fn a_moment_of_another_shape_is_refused() {
    let backend = CfRadial1Backend::new();
    let refusal = |values: Vec<u32>, gates: usize| match backend.read_moment(
        "DBZ",
        0,
        1,
        gates,
        moment(Ok(values)),
    ) {
        Err(RadishError::Conversion(text)) => text,
        Err(other) => panic!("expected Conversion, got {other:?}"),
        Ok(_) => panic!("expected Conversion, got Ok"),
    };
    assert_eq!(
        refusal(vec![1, 2, 3], 2),
        "ShapeError/OutOfBounds: out of bounds indexing"
    );
    assert_eq!(
        refusal(vec![1, 2, 3, 4, 5], 2),
        "ShapeError/IncompatibleShape: incompatible shapes"
    );
    assert_eq!(
        refusal(vec![], usize::MAX),
        "ShapeError/Overflow: arithmetic overflow"
    );
}

#[test]
fn only_moments_that_can_be_read_are_kept() {
    let variable = |name: &str, dimensions: usize, data: Result<Vec<u32>, RadishError>| CfVariable {
        name: name.to_string(),
        dimensions,
        input: moment(data),
    };
    let variables = vec![
        variable("azimuth", 2, Ok(vec![1, 2])),
        variable("DBZ", 2, Ok(vec![1, 2])),
        variable("time_offset", 1, Ok(vec![1, 2])),
        variable("VEL", 2, Err(RadishError::NetCdf("range".to_string()))),
        variable("WIDTH", 2, Ok(vec![3, 4])),
    ];
    let kept = CfRadial1Backend::new().read_moments(0, 0, 2, variables);
    let names: Vec<&str> = kept.iter().map(|m| m.name.as_str()).collect();
    assert_eq!(names, vec!["DBZ", "WIDTH"]);
}

#[test]
fn coordinates_are_not_moments() {
    for name in ["time", "range", "azimuth", "elevation"] {
        assert!(!is_moment_variable(name, 2));
    }
    assert!(is_moment_variable("DBZ", 2));
    assert!(!is_moment_variable("DBZ", 1));
}

#[test]
fn modes_and_platforms_are_read_in_any_case() {
    assert_eq!(parse_sweep_mode("Azimuth_Surveillance"), SweepMode::Azimuth);
    assert_eq!(parse_sweep_mode("SEC"), SweepMode::Sector);
    assert_eq!(parse_sweep_mode("pnt"), SweepMode::Pointing);
    assert_eq!(parse_sweep_mode("VERT"), SweepMode::VerticalPointing);
    assert_eq!(parse_sweep_mode("Calibration"), SweepMode::Calibration);
    assert_eq!(parse_sweep_mode("???"), SweepMode::Azimuth);
    assert_eq!(parse_platform_type("Aircraft"), Some(PlatformType::Aircraft));
    assert_eq!(parse_platform_type("submarine"), None);
}

#[test]
fn attributes_are_texts_or_numbers() {
    assert_eq!(
        read_string_attr(Some(AttrValue::Uchar(65))),
        Some("65".to_string())
    );
    assert_eq!(read_string_attr(Some(AttrValue::Other)), None);
    assert_eq!(read_float_attr(text("1.0")), None);
    assert_eq!(read_float_attr(Some(AttrValue::Float(5))), Some(5));
}

#[test]
fn files_go_to_the_first_backend_that_knows_them() {
    let probe = |name: &str, extension: Option<&str>, head: Option<&[u8]>| FileProbe {
        name: Some(name.to_string()),
        extension: extension.map(str::to_owned),
        head: head.map(|h| h.to_vec()),
    };
    let backend = auto_backend("/d/a.nc", &probe("a.nc", Some("nc"), None));
    assert_eq!(backend.ok().expect("by extension").name(), "cfradial1");
    let backend = auto_backend("/d/a", &probe("a", None, Some(b"AR2V0006.001")));
    assert_eq!(backend.ok().expect("by head").name(), "nexrad_level2");
    match auto_backend("/d/a.txt", &probe("a.txt", Some("txt"), None)) {
        Err(RadishError::InvalidFormat(text)) => {
            assert_eq!(text, "No backend found for file: /d/a.txt")
        }
        Err(other) => panic!("expected InvalidFormat, got {other:?}"),
        Ok(_) => panic!("expected InvalidFormat, got Ok"),
    }
    let names: Vec<&str> = available_backends().iter().map(|b| b.name()).collect();
    assert_eq!(names, vec!["cfradial1", "nexrad_level2"]);
}

#[test]
fn heads_are_known_to_one_backend_at_most() {
    let heads: [&[u8]; 6] = [
        b"AR2V0006.001",
        &[0x1f, 0x8b, 0x08],
        b"\x89HDF\r\n\x1a\n",
        b"CDF\x01",
        b"CDF\x02",
        b"GRIB",
    ];
    for head in heads {
        let known = available_backends()
            .iter()
            .filter(|b| b.can_read_bytes(head))
            .count();
        assert!(known <= 1);
    }
}
