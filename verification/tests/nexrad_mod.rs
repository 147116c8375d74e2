use bzip2::write::BzEncoder;
use bzip2::Compression;
use radish::backends::common::sniff::FileProbe;
use radish::backends::nexrad::concat_chunks;
use radish::backends::nexrad::decode::decode_volume;
use radish::backends::nexrad::decode::header::SEGMENT_FRAME_SIZE;
use radish::backends::nexrad::decode::messages::msg1::MSG1_HEADER_BYTES;
use radish::backends::{NexradBackend, RadarBackend};
use radish::errors::RadishError;
use radish::types::Quantity;
use std::io::Write;
use std::path::Path;

/// The probe of a path that names no readable file.
fn probe(path: &str) -> FileProbe {
    let path = Path::new(path);
    FileProbe {
        name: path.file_name().and_then(|n| n.to_str()).map(str::to_owned),
        extension: path.extension().and_then(|e| e.to_str()).map(str::to_owned),
        head: None,
    }
}

/// A combined header of a message of `logical` bytes in one segment.
fn message_header(message_type: u8, logical: usize) -> Vec<u8> {
    let mut out = vec![0u8; 12];
    out.extend_from_slice(&((logical / 2) as u16).to_be_bytes());
    out.push(0);
    out.push(message_type);
    out.extend_from_slice(&[0; 8]);
    out.extend_from_slice(&1u16.to_be_bytes());
    out.extend_from_slice(&1u16.to_be_bytes());
    out
}

/// The volume block of a site.
fn volume_block() -> Vec<u8> {
    let mut out = b"RVOL".to_vec();
    out.extend_from_slice(&44u16.to_be_bytes());
    out.extend_from_slice(&[2, 0]);
    out.extend_from_slice(&41.604_f32.to_be_bytes());
    out.extend_from_slice(&(-88.084_f32).to_be_bytes());
    out.extend_from_slice(&202_i16.to_be_bytes());
    out.extend_from_slice(&29u16.to_be_bytes());
    out.extend_from_slice(&[0; 20]);
    out.extend_from_slice(&212u16.to_be_bytes());
    out.extend_from_slice(&[0; 2]);
    out
}

/// A radial with a volume block and a reflectivity block.
fn radial(azimuth_number: u16, elevation_number: u8, status: u8, gates: &[u8]) -> Vec<u8> {
    let site = volume_block();
    let mut body = Vec::new();
    body.extend_from_slice(b"KLOT");
    body.extend_from_slice(&(1000 * u32::from(azimuth_number)).to_be_bytes());
    body.extend_from_slice(&20_405u16.to_be_bytes());
    body.extend_from_slice(&azimuth_number.to_be_bytes());
    body.extend_from_slice(&(360.0 - f32::from(azimuth_number)).to_be_bytes());
    body.extend_from_slice(&[0, 0, 0, 0, 2, status, elevation_number, 0]);
    body.extend_from_slice(&f32::from(elevation_number).to_be_bytes());
    body.extend_from_slice(&[0, 0]);
    body.extend_from_slice(&2u16.to_be_bytes());
    body.extend_from_slice(&72u32.to_be_bytes());
    body.extend_from_slice(&(72 + site.len() as u32).to_be_bytes());
    body.extend_from_slice(&[0; 32]);
    body.extend_from_slice(&site);
    body.extend_from_slice(b"DREF");
    body.extend_from_slice(&[0; 4]);
    body.extend_from_slice(&(gates.len() as u16).to_be_bytes());
    body.extend_from_slice(&2_125u16.to_be_bytes());
    body.extend_from_slice(&250u16.to_be_bytes());
    body.extend_from_slice(&[0, 0, 0, 0, 0, 8]);
    body.extend_from_slice(&2.0f32.to_be_bytes());
    body.extend_from_slice(&66.0f32.to_be_bytes());
    body.extend_from_slice(gates);
    if body.len() % 2 == 1 {
        body.push(0);
    }
    let mut out = message_header(31, 16 + body.len());
    out.extend_from_slice(&body);
    out
}

/// A status message with the given build number in its tenth halfword.
fn status(build: u16) -> Vec<u8> {
    let mut out = message_header(2, 16 + 120);
    out.resize(SEGMENT_FRAME_SIZE, 0);
    let word = 28 + 2 * 9;
    out[word..word + 2].copy_from_slice(&build.to_be_bytes());
    out
}

fn ldm_record(payload: &[u8]) -> Vec<u8> {
    let mut encoder = BzEncoder::new(Vec::new(), Compression::default());
    encoder.write_all(payload).unwrap();
    let compressed = encoder.finish().unwrap();
    let mut frame = (compressed.len() as i32).to_be_bytes().to_vec();
    frame.extend_from_slice(&compressed);
    frame
}

/// A volume of three records with two sweeps.
fn volume() -> Vec<u8> {
    let mut bytes = b"AR2V0006.001-XYZWXYZKLOT"[..24].to_vec();
    bytes.extend_from_slice(&ldm_record(&status(1900)));
    let mut first = radial(1, 1, 3, &[10, 20, 30]);
    first.extend_from_slice(&radial(2, 1, 2, &[40, 0, 1]));
    bytes.extend_from_slice(&ldm_record(&first));
    let mut second = radial(1, 2, 0, &[50, 1]);
    second.extend_from_slice(&radial(2, 2, 4, &[60, 70, 80]));
    bytes.extend_from_slice(&ldm_record(&second));
    bytes
}

fn in_three(bytes: &[u8]) -> Vec<Vec<u8>> {
    let n = bytes.len();
    vec![
        bytes[..n / 3].to_vec(),
        bytes[n / 3..2 * n / 3].to_vec(),
        bytes[2 * n / 3..].to_vec(),
    ]
}

#[test]
fn name_and_description_are_static() {
    let b = NexradBackend::new();
    assert_eq!(b.name(), "nexrad_level2");
    assert!(b.description().contains("NEXRAD"));
}

#[test]
fn extensions_include_ar2v() {
    let b = NexradBackend::new();
    assert!(b.supported_extensions().contains(&"ar2v"));
}

#[test]
fn can_read_extensionless_canonical_filename() {
    let b = NexradBackend::new();
    assert!(b.can_read(&probe("/data/KLOT20260310_231412_V06")));
}

#[test]
fn cannot_read_random_extension() {
    let b = NexradBackend::new();
    assert!(!b.can_read(&probe("/data/foo.txt")));
}

#[test]
fn concat_chunks_preserves_bytes() {
    let a = vec![0x41, 0x52, 0x32, 0x56];
    let b = vec![4, 5, 6, 7, 8, 9];
    let c = vec![10, 11];
    let out = concat_chunks(vec![a.clone(), b.clone(), c.clone()]);
    let expected: Vec<u8> = a.into_iter().chain(b).chain(c).collect();
    assert_eq!(out, expected);
}

#[test]
fn concat_chunks_empty_returns_empty() {
    let out = concat_chunks(Vec::<Vec<u8>>::new());
    assert!(out.is_empty());
}

#[test]
fn read_chunks_volume_round_trips_full_file() {
    let bytes = volume();
    let backend = NexradBackend::new();
    let from_file = backend
        .read_volume_from(&bytes, "KLOT20260310_231412_V06")
        .expect("file decode");
    let from_chunks = backend
        .read_chunks_volume(in_three(&bytes))
        .expect("chunks decode");

    assert_eq!(
        from_file.metadata.instrument_name,
        from_chunks.metadata.instrument_name
    );
    assert_eq!(from_file.num_sweeps(), from_chunks.num_sweeps());
    assert_eq!(
        from_file.metadata.sweep_fixed_angles,
        from_chunks.metadata.sweep_fixed_angles
    );
    let na = from_file
        .metadata
        .nexrad
        .expect("file: nexrad attrs present");
    let nb = from_chunks
        .metadata
        .nexrad
        .expect("chunks: nexrad attrs present");
    assert_eq!(na, nb);
}

#[test]
fn scan_bytes_volume_round_trips_match_scan_file() {
    let bytes = volume();
    let backend = NexradBackend::new();
    let from_file = backend
        .scan_from(&bytes, "KLOT20260310_231412_V06")
        .expect("scan");
    let from_bytes = backend.scan_bytes_volume(bytes).expect("scan_bytes_volume");

    assert_eq!(from_file.instrument_name, from_bytes.instrument_name);
    assert_eq!(from_file.sweep_fixed_angles, from_bytes.sweep_fixed_angles);
    assert_eq!(from_file.nexrad, from_bytes.nexrad);
}

#[test]
fn scan_chunks_volume_round_trips_match_scan_file() {
    let bytes = volume();
    let backend = NexradBackend::new();
    let from_file = backend
        .scan_from(&bytes, "KLOT20260310_231412_V06")
        .expect("scan");
    let from_chunks = backend
        .scan_chunks_volume(in_three(&bytes))
        .expect("scan_chunks_volume");

    assert_eq!(from_file.instrument_name, from_chunks.instrument_name);
    assert_eq!(from_file.sweep_fixed_angles, from_chunks.sweep_fixed_angles);
    assert_eq!(from_file.nexrad, from_chunks.nexrad);
}

#[test]
fn a_compressed_volume_decodes_to_its_sweeps() {
    let data = NexradBackend::new()
        .read_bytes_volume(volume())
        .expect("decode");
    assert_eq!(data.num_sweeps(), 2);
    assert_eq!(data.metadata.instrument_name, "KLOT");
    assert_eq!(data.metadata.altitude, Quantity::Whole(231));
    assert_eq!(data.metadata.altitude_agl, Some(Quantity::Whole(29)));
    assert_eq!(data.metadata.sweep_group_names, vec!["sweep_0", "sweep_1"]);
    assert_eq!(
        data.metadata.sweep_fixed_angles,
        vec![
            Quantity::MeanOfSingles(1.0f32.to_bits(), 1.0f32.to_bits()),
            Quantity::MeanOfSingles(2.0f32.to_bits(), 2.0f32.to_bits()),
        ]
    );
    let start = data.metadata.time_coverage_start;
    assert_eq!(start.secs, 20_404 * 86_400 + 1);
    assert_eq!(data.metadata.time_coverage_end.secs, 20_404 * 86_400 + 2);
    let sweep = &data.sweeps[1];
    assert_eq!(sweep.moments.len(), 1);
    assert_eq!(sweep.moments[0].name, "DBZH");
    assert_eq!(sweep.coordinates.azimuth, vec![358.0f32.to_bits(), 359.0f32.to_bits()]);
    assert_eq!(
        sweep.moments[0].data.cells,
        vec![Some(60), Some(70), Some(50), None]
    );
    let attrs = data.metadata.nexrad.expect("nexrad attributes");
    assert_eq!(attrs.rda_build_number, 1900);
    assert_eq!(attrs.actual_elevation_cuts, 2);
}

#[test]
fn scanning_gives_the_metadata_of_reading() {
    let backend = NexradBackend::new();
    let name = "KLOT20260310_231412_V06";
    let read = backend.read_volume_from(&volume(), name).expect("read");
    let scanned = backend.scan_from(&volume(), name).expect("scan");
    assert_eq!(read.metadata, scanned);
}

#[test]
fn one_sweep_is_read_by_its_index() {
    let backend = NexradBackend::new();
    let all = backend.read_bytes_volume(volume()).expect("read");
    let second = backend.read_sweep_from(&volume(), 1).expect("sweep 1");
    assert_eq!(all.sweeps[1], second);
    assert!(matches!(
        backend.read_sweep_from(&volume(), 2),
        Err(RadishError::InvalidSweepIndex(2))
    ));
}

#[test]
fn a_broken_record_fails_the_whole_volume() {
    let mut bytes = volume();
    let at = bytes.len() - 20;
    for b in &mut bytes[at..] {
        *b ^= 0xA5;
    }
    assert!(matches!(
        NexradBackend::new().read_bytes_volume(bytes),
        Err(RadishError::Decode(_))
    ));
}

#[test]
fn decodes_synthesized_raw_archive_ii_buffer() {
    const LOGICAL_HEADER_HW: u16 = ((16 + MSG1_HEADER_BYTES) / 2) as u16;
    let mut frame = vec![0u8; SEGMENT_FRAME_SIZE];
    frame[12..14].copy_from_slice(&LOGICAL_HEADER_HW.to_be_bytes());
    frame[15] = 1;
    frame[24..26].copy_from_slice(&1u16.to_be_bytes());
    frame[26..28].copy_from_slice(&1u16.to_be_bytes());

    let body = &mut frame[28..28 + MSG1_HEADER_BYTES];
    body[0..4].copy_from_slice(&12_345_678_i32.to_be_bytes());
    body[4..6].copy_from_slice(&15_000_i16.to_be_bytes());
    body[6..8].copy_from_slice(&0_i16.to_be_bytes());
    body[8..10].copy_from_slice(&8_192_i16.to_be_bytes());
    body[10..12].copy_from_slice(&73_i16.to_be_bytes());
    body[12..14].copy_from_slice(&3_i16.to_be_bytes());
    body[14..16].copy_from_slice(&182_i16.to_be_bytes());
    body[16..18].copy_from_slice(&1_i16.to_be_bytes());

    let mut buf = b"AR2V0006.001-XYZWXYZWXYZW".to_vec();
    buf.truncate(24);
    buf.extend_from_slice(&frame);

    let scan = decode_volume(&buf).expect("decode raw AR2V");
    assert_eq!(scan.sweeps.len(), 1, "synthetic VCP yields one sweep");
    let sweep = &scan.sweeps[0];
    assert_eq!(sweep.radials.len(), 1, "one radial per synthetic frame");
    let r = &sweep.radials[0];
    assert!((f32::from_bits(r.azimuth_angle_degrees) - 45.0).abs() < 1e-3);
    assert!((f32::from_bits(r.elevation_angle_degrees) - 1.0).abs() < 1e-2);
    assert_eq!(r.elevation_number, 1);
    assert_eq!(r.azimuth_number, 73);
}
