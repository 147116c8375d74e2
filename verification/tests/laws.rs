use bzip2::write::BzEncoder;
use bzip2::Compression;
use radish::backends::common::metadata::meta_for;
use radish::backends::common::sort::{angle_key_of, angle_order, stable_order};
use radish::backends::nexrad::decode::{
    assemble_scan, decode_records, decode_volume, stitch_records, PerRecordDecode,
};
use radish::backends::nexrad::decode::error::NexradDecodeError;
use radish::backends::nexrad::decode::header::{MessageHeader, SEGMENT_FRAME_SIZE, SIZE};
use radish::backends::nexrad::decode::messages::msg5::Msg5;
use radish::backends::nexrad::decode::messages::{
    decode_messages, take_payload_bytes, MessagePayload, SegmentAccumulator,
};
use radish::backends::nexrad::decode::model::{group_radials_into_sweeps, Radial};
use radish::backends::nexrad::decode::reader::SliceReader;
use radish::backends::nexrad::decode::record::{decompress_all, split_ldm_records};
use radish::backends::nexrad::demux::{
    decode_record_moment, decode_sweep_moment, record_moment_encoding, sweep_moment_encoding,
    DemuxOptions, MomentSelector, OutputWord, RawMoment, TargetEncoding,
};
use radish::backends::nexrad::demux::record::select_block;
use radish::backends::nexrad::demux::remap::Remap;
use radish::backends::nexrad::demux::rows::write_row;
use radish::backends::nexrad::mapping::{moment_meta, supported_products};
use radish::backends::nexrad::{bench_decode_phases, time_decode_volume};
use radish::backends::{NexradBackend, RadarBackend};
use radish::errors::{MomentEncodingError, RadishError};
use radish::time::{collection_instant, Timestamp};
use std::io::Write;

/// A combined header of a message of `logical` bytes in one segment.
fn message_header(message_type: u8, logical: usize) -> Vec<u8> {
    let mut out = vec![0u8; 12];
    out.extend_from_slice(&((logical / 2) as u16).to_be_bytes());
    out.push(0);
    out.push(message_type);
    out.extend_from_slice(&[0; 8]);
    out.extend_from_slice(&1u16.to_be_bytes());
    out.extend_from_slice(&1u16.to_be_bytes());
    out
}

/// The volume block of a site.
fn volume_block() -> Vec<u8> {
    let mut out = b"RVOL".to_vec();
    out.extend_from_slice(&44u16.to_be_bytes());
    out.extend_from_slice(&[2, 0]);
    out.extend_from_slice(&41.604_f32.to_be_bytes());
    out.extend_from_slice(&(-88.084_f32).to_be_bytes());
    out.extend_from_slice(&202_i16.to_be_bytes());
    out.extend_from_slice(&29u16.to_be_bytes());
    out.extend_from_slice(&[0; 20]);
    out.extend_from_slice(&212u16.to_be_bytes());
    out.extend_from_slice(&[0; 2]);
    out
}

/// A radial with a volume block and a reflectivity block.
fn radial(azimuth_number: u16, elevation_number: u8, status: u8, gates: &[u8]) -> Vec<u8> {
    let site = volume_block();
    let mut body = Vec::new();
    body.extend_from_slice(b"KLOT");
    body.extend_from_slice(&(1000 * u32::from(azimuth_number)).to_be_bytes());
    body.extend_from_slice(&20_405u16.to_be_bytes());
    body.extend_from_slice(&azimuth_number.to_be_bytes());
    body.extend_from_slice(&(360.0 - f32::from(azimuth_number)).to_be_bytes());
    body.extend_from_slice(&[0, 0, 0, 0, 2, status, elevation_number, 0]);
    body.extend_from_slice(&f32::from(elevation_number).to_be_bytes());
    body.extend_from_slice(&[0, 0]);
    body.extend_from_slice(&2u16.to_be_bytes());
    body.extend_from_slice(&72u32.to_be_bytes());
    body.extend_from_slice(&(72 + site.len() as u32).to_be_bytes());
    body.extend_from_slice(&[0; 32]);
    body.extend_from_slice(&site);
    body.extend_from_slice(b"DREF");
    body.extend_from_slice(&[0; 4]);
    body.extend_from_slice(&(gates.len() as u16).to_be_bytes());
    body.extend_from_slice(&2_125u16.to_be_bytes());
    body.extend_from_slice(&250u16.to_be_bytes());
    body.extend_from_slice(&[0, 0, 0, 0, 0, 8]);
    body.extend_from_slice(&2.0f32.to_be_bytes());
    body.extend_from_slice(&66.0f32.to_be_bytes());
    body.extend_from_slice(gates);
    if body.len() % 2 == 1 {
        body.push(0);
    }
    let mut out = message_header(31, 16 + body.len());
    out.extend_from_slice(&body);
    out
}

/// A status message with the given build number in its tenth halfword.
fn status(build: u16) -> Vec<u8> {
    let mut out = message_header(2, 16 + 120);
    out.resize(SEGMENT_FRAME_SIZE, 0);
    let word = 28 + 2 * 9;
    out[word..word + 2].copy_from_slice(&build.to_be_bytes());
    out
}

fn ldm_record(payload: &[u8]) -> Vec<u8> {
    let mut encoder = BzEncoder::new(Vec::new(), Compression::default());
    encoder.write_all(payload).unwrap();
    let compressed = encoder.finish().unwrap();
    let mut frame = (compressed.len() as i32).to_be_bytes().to_vec();
    frame.extend_from_slice(&compressed);
    frame
}

/// A volume of three records with two sweeps.
fn volume() -> Vec<u8> {
    let mut bytes = b"AR2V0006.001-XYZWXYZKLOT"[..24].to_vec();
    bytes.extend_from_slice(&ldm_record(&status(1900)));
    let mut first = radial(1, 1, 3, &[10, 20, 30]);
    first.extend_from_slice(&radial(2, 1, 2, &[40, 0, 1]));
    bytes.extend_from_slice(&ldm_record(&first));
    let mut second = radial(1, 2, 0, &[50, 1]);
    second.extend_from_slice(&radial(2, 2, 4, &[60, 70, 80]));
    bytes.extend_from_slice(&ldm_record(&second));
    bytes
}

fn words(m: &RawMoment) -> Vec<u32> {
    match m {
        RawMoment::U8(v) => v.iter().map(|w| u32::from(*w)).collect(),
        RawMoment::U16(v) => v.iter().map(|w| u32::from(*w)).collect(),
    }
}

/// The records of the volume without their compression.
fn streams() -> Vec<Vec<u8>> {
    let bytes = volume();
    let records = split_ldm_records(&bytes).unwrap();
    decompress_all(&records).unwrap()
}

#[test]
fn any_split_into_chunks_reads_the_same() {
    let bytes = volume();
    let backend = NexradBackend::new();
    let whole = backend.read_bytes_volume(bytes.clone()).unwrap();
    for cut in [0, 1, 23, 24, 25, bytes.len() / 2, bytes.len()] {
        let chunks = vec![bytes[..cut].to_vec(), bytes[cut..].to_vec()];
        let parts = backend.read_chunks_volume(chunks).unwrap();
        assert_eq!(whole.sweeps, parts.sweeps);
    }
    let single: Vec<Vec<u8>> = bytes.iter().map(|b| vec![*b]).collect();
    assert_eq!(whole.sweeps, backend.read_chunks_volume(single).unwrap().sweeps);
}

#[test]
fn the_file_name_does_not_change_the_sweeps() {
    let bytes = volume();
    let backend = NexradBackend::new();
    let a = backend.read_volume_from(&bytes, "KLOT20260310_231412_V06").unwrap();
    let b = backend.read_volume_from(&bytes, "x").unwrap();
    assert_eq!(a.sweeps, b.sweeps);
}

#[test]
fn timing_the_decoder_succeeds_where_decoding_does() {
    let bytes = volume();
    assert!(time_decode_volume(&bytes).is_ok());
    assert!(bench_decode_phases(&bytes).is_ok());
    assert!(time_decode_volume(&bytes[..40]).is_err());
    assert!(bench_decode_phases(&bytes[..40]).is_err());
}

#[test]
fn a_volume_cut_off_behind_a_record_keeps_its_first_radials() {
    let bytes = volume();
    let whole = decode_volume(&bytes).unwrap();
    let all: Vec<&Radial> = whole.sweeps.iter().flat_map(|s| &s.radials).collect();
    let records = split_ldm_records(&bytes).unwrap();
    let end = records[1].offset + 4 + records[1].compressed.len();
    let part = decode_volume(&bytes[..end]).unwrap();
    let came: Vec<&Radial> = part.sweeps.iter().flat_map(|s| &s.radials).collect();
    assert_eq!(came.len(), 2);
    for (a, b) in came.iter().zip(&all) {
        assert_eq!(a.azimuth_number, b.azimuth_number);
        assert_eq!(a.elevation_number, b.elevation_number);
    }
}

#[test]
fn records_lie_back_to_back() {
    let bytes = volume();
    let records = split_ldm_records(&bytes).unwrap();
    let mut at = 24;
    for r in &records {
        assert_eq!(r.offset, at);
        at += 4 + r.compressed.len();
    }
    assert_eq!(at, bytes.len());
}

#[test]
fn messages_follow_each_other_without_overlap() {
    let mut stream = radial(1, 1, 3, &[1, 2, 3]);
    stream.extend_from_slice(&status(7));
    stream.extend_from_slice(&radial(2, 1, 2, &[4]));
    let messages = decode_messages(&stream).unwrap();
    assert_eq!(messages.len(), 3);
    for pair in messages.windows(2) {
        assert!(pair[0].offset + pair[0].size <= pair[1].offset);
    }
    let last = messages.last().unwrap();
    assert_eq!(last.offset + last.size, stream.len());
}

#[test]
fn a_payload_that_does_not_parse_moves_nothing() {
    let mut odd = message_header(31, 16 + 10);
    odd.extend_from_slice(&[0xEE; 10]);
    let stream = radial(1, 1, 3, &[1, 2, 3]);
    let alone = decode_messages(&stream).unwrap();
    let whole = [odd.clone(), stream.clone()].concat();
    let behind = decode_messages(&whole).unwrap();
    assert!(matches!(behind[0].payload, MessagePayload::Raw(_)));
    assert_eq!(behind[1].offset, alone[0].offset + odd.len());
    assert_eq!(behind[1].size, alone[0].size);
    assert!(matches!(behind[1].payload, MessagePayload::Msg31(_)));
}

/// Segment `number` of `count` of a clutter filter map.
fn segment(number: u16, count: u16, sequence: u16, payload: &[u8]) -> Vec<u8> {
    let mut out = message_header(15, 16 + payload.len());
    out[16..18].copy_from_slice(&sequence.to_be_bytes());
    out[24..26].copy_from_slice(&count.to_be_bytes());
    out[26..28].copy_from_slice(&number.to_be_bytes());
    out.extend_from_slice(payload);
    out.resize(SEGMENT_FRAME_SIZE, 0);
    out
}

#[test]
fn segments_are_joined_in_order() {
    let stream = [
        segment(1, 3, 9, b"ab"),
        segment(2, 3, 9, b"cd"),
        segment(3, 3, 9, b"ef"),
    ]
    .concat();
    let messages = decode_messages(&stream).unwrap();
    assert_eq!(messages.len(), 1);
    match &messages[0].payload {
        MessagePayload::Reassembled(bytes) => assert_eq!(bytes, b"abcdef"),
        other => panic!("expected Reassembled, got {other:?}"),
    }
}

#[test]
fn a_segment_out_of_order_abandons_the_message() {
    let stream = [
        segment(1, 3, 9, b"ab"),
        segment(3, 3, 9, b"ef"),
        segment(1, 2, 10, b"gh"),
        segment(2, 2, 10, b"ij"),
    ]
    .concat();
    let messages = decode_messages(&stream).unwrap();
    assert_eq!(messages.len(), 1);
    match &messages[0].payload {
        MessagePayload::Reassembled(bytes) => assert_eq!(bytes, b"ghij"),
        other => panic!("expected Reassembled, got {other:?}"),
    }
}

#[test]
fn inventory_sizes_are_enough() {
    let mut record = radial(1, 1, 3, &[1, 2]);
    record.extend_from_slice(&radial(2, 1, 2, &[3, 4, 5]));
    let inventory = record_moment_encoding(&record).unwrap();
    let encoding = inventory.moments.get(MomentSelector::Ref).unwrap();
    assert!(encoding.uniform);
    let shape = (inventory.radial_count, usize::from(encoding.max_gate_count));
    let out = decode_record_moment(
        &record,
        &DemuxOptions::new(MomentSelector::Ref, shape, OutputWord::U8),
    )
    .unwrap();
    assert_eq!(words(&out), vec![1, 2, 0, 3, 4, 5]);
}

#[test]
fn one_record_demuxes_like_a_span_of_one_record() {
    let stream = streams().remove(1);
    let o = DemuxOptions::new(MomentSelector::Ref, (3, 3), OutputWord::U8);
    let from_record = decode_record_moment(&stream, &o).unwrap();
    let from_span = decode_sweep_moment(&ldm_record(&stream), &o, false).unwrap();
    assert_eq!(from_record, from_span);
}

#[test]
fn sorted_rows_follow_the_azimuths_of_the_inventory() {
    let bytes = volume();
    let inventory = sweep_moment_encoding(&bytes).unwrap();
    assert_eq!(inventory.radial_count, 4);
    let mut o = DemuxOptions::new(MomentSelector::Ref, (5, 3), OutputWord::U8);
    o.fill_value = 99;
    let plain = words(&decode_sweep_moment(&bytes, &o, false).unwrap());
    let sorted = words(&decode_sweep_moment(&bytes, &o, true).unwrap());
    for (row, ray) in angle_order(&inventory.azimuth).into_iter().enumerate() {
        assert_eq!(sorted[row * 3..row * 3 + 3], plain[ray * 3..ray * 3 + 3]);
    }
    assert_eq!(sorted[12..], [99, 99, 99]);
}

#[test]
fn a_remap_keeps_every_physical_value() {
    let gates: Vec<u8> = (0..=255).collect();
    let record = radial(1, 1, 3, &gates);
    let mut o = DemuxOptions::new(MomentSelector::Ref, (1, 256), OutputWord::U16);
    o.target = Some(TargetEncoding::new(6.0f32.to_bits(), 200.0f32.to_bits()));
    let out = words(&decode_record_moment(&record, &o).unwrap());
    for (raw, moved) in gates.iter().zip(out) {
        let before = (f64::from(*raw) - 66.0) / 2.0;
        let after = (f64::from(moved) - 200.0) / 6.0;
        assert_eq!(before, after);
    }
}

#[test]
fn rays_ascend_and_none_is_lost() {
    let data = NexradBackend::new().read_bytes_volume(volume()).unwrap();
    for sweep in &data.sweeps {
        let keys: Vec<i64> = sweep.coordinates.azimuth.iter().map(|a| angle_key_of(*a)).collect();
        assert!(keys.windows(2).all(|w| w[0] <= w[1]));
        assert_eq!(keys.len(), 2);
    }
}

#[test]
fn a_stable_order_names_every_item_once() {
    let keys = [3, -1, 3, 0, -1, 7, 3];
    let mut order = stable_order(&keys);
    assert_eq!(order, vec![1, 4, 3, 0, 2, 6, 5]);
    order.sort();
    assert_eq!(order, (0..keys.len()).collect::<Vec<_>>());
}

#[test]
fn order_keys_order_numbers() {
    let numbers = [f32::NEG_INFINITY, -2.5, -1e-40, 0.0, 1e-40, 1.0, 3.5, f32::INFINITY];
    for pair in numbers.windows(2) {
        assert!(angle_key_of(pair[0].to_bits()) < angle_key_of(pair[1].to_bits()));
    }
    assert_eq!(angle_key_of((-0.0f32).to_bits()), angle_key_of(0));
}

#[test]
fn grouping_keeps_every_radial_in_order() {
    let scan = decode_volume(&volume()).unwrap();
    let mut radials = Vec::new();
    for sweep in scan.sweeps {
        radials.extend(sweep.radials);
    }
    let numbers: Vec<u16> = radials.iter().map(|r| r.azimuth_number).collect();
    assert_eq!(numbers, vec![1, 2, 1, 2]);
    let sweeps = group_radials_into_sweeps(radials);
    let again: Vec<u16> = sweeps
        .iter()
        .flat_map(|s| s.radials.iter().map(|r| r.azimuth_number))
        .collect();
    assert_eq!(numbers, again);
    assert!(sweeps
        .iter()
        .all(|s| s.radials.iter().all(|r| r.elevation_number == s.elevation_number)));
}

#[test]
fn a_volume_without_a_pattern_gets_one_cut_count_per_elevation() {
    let scan = decode_volume(&volume()).unwrap();
    let vcp: &Msg5 = &scan.coverage_pattern;
    assert_eq!(vcp.number_of_elevation_cuts, 2);
    assert!(vcp.elevation_cuts().is_empty());
    assert_eq!(vcp.description(), "Unknown VCP");
}

#[test]
fn time_ranges_run_forwards() {
    let data = NexradBackend::new().read_bytes_volume(volume()).unwrap();
    let attrs = data.metadata.nexrad.unwrap();
    for (start, end) in attrs.sweep_time_ranges.into_iter().flatten() {
        assert!(start.is_at_or_before(&end));
    }
}

#[test]
fn days_and_milliseconds_make_instants() {
    assert_eq!(
        collection_instant(2, 1_500),
        Some(Timestamp {
            secs: 86_401,
            nanos: 500_000_000
        })
    );
    assert_eq!(
        collection_instant(1, -1_500),
        Some(Timestamp {
            secs: -1,
            nanos: 500_000_000
        })
    );
    let t = Timestamp {
        secs: -2,
        nanos: 999_999_999,
    };
    assert_eq!(t.timestamp_micros(), -1_000_001);
}

#[test]
fn moment_names_are_distinct() {
    let names: Vec<&str> = supported_products()
        .into_iter()
        .map(|p| moment_meta(p).odim_name)
        .collect();
    for (i, a) in names.iter().enumerate() {
        assert!(meta_for(a).is_some());
        assert!(names[i + 1..].iter().all(|b| a != b));
    }
}

/// The header of segment `number` of `count`.
fn segment_header(number: u16, count: u16) -> MessageHeader {
    let bytes = segment(number, count, 9, b"");
    MessageHeader::read(&mut SliceReader::new(&bytes)).unwrap()
}

#[test]
fn an_accumulator_joins_one_segment_or_more() {
    for count in 1..=4u16 {
        let mut acc = SegmentAccumulator::new();
        let mut expected = Vec::new();
        for number in 1..=count {
            let payload = vec![number as u8; usize::from(number)];
            expected.extend_from_slice(&payload);
            let fed = acc.feed(segment_header(number, count), &payload);
            if number < count {
                assert_eq!(fed, None);
                assert!(acc.is_active());
            } else {
                assert_eq!(fed, Some(expected.clone()));
                assert!(!acc.is_active());
            }
        }
    }
}

#[test]
fn a_message_without_segments_starts_nothing() {
    let mut acc = SegmentAccumulator::new();
    assert_eq!(acc.feed(segment_header(1, 0), b"x"), None);
    assert!(!acc.is_active());
    assert_eq!(acc.feed(segment_header(1, 1), b"y"), Some(b"y".to_vec()));
}

#[test]
fn a_payload_that_is_refused_leaves_the_reader_where_it_was() {
    let mut bytes = radial(1, 1, 3, &[1, 2, 3]);
    let header = MessageHeader::read(&mut SliceReader::new(&bytes)).unwrap();
    bytes.pop();
    let mut reader = SliceReader::new(&bytes);
    MessageHeader::read(&mut reader).unwrap();
    assert!(matches!(
        take_payload_bytes(&mut reader, &header, 0, bytes.len()),
        Err(NexradDecodeError::UnexpectedEof { offset: 0, .. })
    ));
    assert_eq!(reader.position(), SIZE);
    let mut small = header;
    small.message_size_halfwords = 7;
    assert!(matches!(
        take_payload_bytes(&mut reader, &small, 0, bytes.len()),
        Err(NexradDecodeError::MalformedHeader { offset: 0, .. })
    ));
    assert_eq!(reader.position(), SIZE);
}

#[test]
fn only_the_bits_under_the_mask_move() {
    let remap = Remap {
        mask: 0xF0,
        ratio: 2,
        bias: 3,
    };
    assert_eq!(remap.apply(0x0F), 3);
    assert_eq!(remap.apply(0x1FF), 0xF0 * 2 + 3);
}

#[test]
fn no_words_need_no_memory() {
    let none = RawMoment::filled(OutputWord::U16, 0, 7).unwrap();
    assert!(none.is_empty());
    let o = DemuxOptions::new(MomentSelector::Ref, (0, 4), OutputWord::U8);
    assert!(decode_record_moment(&[], &o).unwrap().is_empty());
}

#[test]
fn chunks_and_scans_have_the_metadata_of_the_file() {
    let bytes = volume();
    let backend = NexradBackend::new();
    let file = backend.read_volume_from(&bytes, "x").unwrap();
    for cut in [1, 30, bytes.len() - 1] {
        let chunks = vec![bytes[..cut].to_vec(), bytes[cut..].to_vec()];
        let read = backend.read_chunks_volume(chunks.clone()).unwrap();
        assert_eq!(read.metadata, file.metadata);
        assert_eq!(backend.scan_chunks_volume(chunks).unwrap(), file.metadata);
    }
    assert_eq!(backend.scan_bytes_volume(bytes).unwrap(), file.metadata);
}

#[test]
fn a_stream_that_cannot_be_walked_is_named_as_such() {
    let mut garbage = radial(1, 1, 3, &[1, 2, 3]);
    garbage.truncate(garbage.len() / 2);
    let span = ldm_record(&garbage);
    let o = DemuxOptions::new(MomentSelector::Ref, (1, 3), OutputWord::U8);
    assert!(matches!(
        decode_sweep_moment(&span, &o, false),
        Err(RadishError::Decode(_))
    ));
}

#[test]
fn span_inventory_sizes_are_enough() {
    let bytes = volume();
    let inventory = sweep_moment_encoding(&bytes).unwrap();
    let encoding = inventory.moments.get(MomentSelector::Ref).unwrap();
    assert!(encoding.uniform);
    let shape = (inventory.radial_count, usize::from(encoding.max_gate_count));
    let out = decode_sweep_moment(
        &bytes,
        &DemuxOptions::new(MomentSelector::Ref, shape, OutputWord::U8),
        false,
    )
    .unwrap();
    assert_eq!(words(&out), vec![10, 20, 30, 40, 0, 1, 50, 1, 0, 60, 70, 80]);
}

#[test]
fn merged_encodings_keep_what_was_seen_first() {
    let mut coarse = radial(1, 1, 3, &[1, 2, 3]);
    let scale = 72 + volume_block().len() + 28 + 20;
    let first = record_moment_encoding(&coarse).unwrap();
    coarse[scale..scale + 4].copy_from_slice(&4.0f32.to_be_bytes());
    let second = record_moment_encoding(&coarse).unwrap();
    let a = first.moments.get(MomentSelector::Ref).unwrap();
    let b = second.moments.get(MomentSelector::Ref).unwrap();
    assert_eq!(f32::from_bits(b.scale), 4.0);
    let mut merged = a;
    merged.merge(&b);
    assert_eq!(merged.scale, a.scale);
    assert_eq!(merged.radials_present, 2);
    assert_eq!(merged.max_gate_count, 3);
    assert!(!merged.uniform);
    let mut same = a;
    same.merge(&a);
    assert!(same.uniform);
}

#[test]
fn the_first_status_pattern_and_site_are_kept() {
    let bytes = [
        ldm_record(&status(1900)),
        ldm_record(&status(2000)),
        ldm_record(&radial(1, 1, 3, &[1])),
        ldm_record(&radial(2, 1, 2, &[2])),
    ]
    .concat();
    let parts = stitch_records(decode_records(&bytes).unwrap());
    assert_eq!(parts.msg2.as_ref().unwrap().rda_build_number, 1900);
    assert!(parts.msg5.is_none());
    let numbers: Vec<u16> = parts.radials.iter().map(|r| r.azimuth_number).collect();
    assert_eq!(numbers, vec![1, 2]);
    let scan = assemble_scan(parts).unwrap();
    assert_eq!(scan.rda_status.unwrap().rda_build_number, 1900);
    assert_eq!(scan.site.unwrap().icao_str(), "KLOT");
    assert!(matches!(
        assemble_scan(PerRecordDecode::empty()),
        Err(NexradDecodeError::MissingCoveragePattern)
    ));
}

#[test]
fn a_moment_is_selected_by_its_block() {
    let stream = radial(1, 1, 3, &[7, 8]);
    let messages = decode_messages(&stream).unwrap();
    match &messages[0].payload {
        MessagePayload::Msg31(m) => {
            let (descriptor, gates) = select_block(m, MomentSelector::Ref).unwrap();
            assert_eq!(descriptor.gate_count, 2);
            assert_eq!(gates, [7, 8]);
            assert!(select_block(m, MomentSelector::Vel).is_none());
        }
        other => panic!("expected Msg31, got {other:?}"),
    }
}

#[test]
fn a_row_without_columns_takes_no_gates() {
    let remap = Remap {
        mask: 0xFF,
        ratio: 1,
        bias: 0,
    };
    let mut none = RawMoment::U8(Vec::new());
    assert_eq!(write_row(&mut none, 0, 0, &[], 1, remap), Ok(()));
    assert_eq!(
        write_row(&mut none, 0, 0, &[1], 1, remap),
        Err(MomentEncodingError::TooManyGates {
            present: 1,
            gates: 0
        })
    );
}
