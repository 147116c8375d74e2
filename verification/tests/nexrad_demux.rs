use bzip2::write::BzEncoder;
use bzip2::Compression;
use radish::backends::nexrad::demux::{
    decode_record_moment, decode_sweep_moment, record_moment_encoding, sweep_moment_encoding,
    DemuxOptions, MomentSelector, OutputWord, RawMoment, TargetEncoding,
};
use radish::errors::{MomentEncodingError, RadishError};
use std::io::Write;

fn grid(scale: f32, offset: f32) -> TargetEncoding {
    TargetEncoding::new(scale.to_bits(), offset.to_bits())
}

fn degrees(bits: &[u32]) -> Vec<f32> {
    bits.iter().map(|b| f32::from_bits(*b)).collect()
}

fn frame_msg31(body: &[u8]) -> Vec<u8> {
    let mut out = vec![0u8; 12];
    let logical = 16 + body.len();
    assert_eq!(logical % 2, 0, "message size is counted in halfwords");
    out.extend_from_slice(&((logical / 2) as u16).to_be_bytes());
    out.push(0);
    out.push(31);
    out.extend_from_slice(&0u16.to_be_bytes());
    out.extend_from_slice(&0u16.to_be_bytes());
    out.extend_from_slice(&0u32.to_be_bytes());
    out.extend_from_slice(&1u16.to_be_bytes());
    out.extend_from_slice(&1u16.to_be_bytes());
    out.extend_from_slice(body);
    out
}

struct Block {
    name: &'static [u8; 4],
    word_size: u8,
    scale: f32,
    offset: f32,
    gates: Vec<u32>,
}

impl Block {
    fn encode(&self) -> Vec<u8> {
        let mut buf = Vec::new();
        buf.extend_from_slice(self.name);
        buf.extend_from_slice(&0u32.to_be_bytes());
        buf.extend_from_slice(&(self.gates.len() as u16).to_be_bytes());
        buf.extend_from_slice(&2_125u16.to_be_bytes());
        buf.extend_from_slice(&250u16.to_be_bytes());
        buf.extend_from_slice(&0u16.to_be_bytes());
        buf.extend_from_slice(&0i16.to_be_bytes());
        buf.push(0);
        buf.push(self.word_size);
        buf.extend_from_slice(&self.scale.to_be_bytes());
        buf.extend_from_slice(&self.offset.to_be_bytes());
        for &g in &self.gates {
            if self.word_size == 8 {
                buf.push(g as u8);
            } else {
                buf.extend_from_slice(&(g as u16).to_be_bytes());
            }
        }
        buf
    }
}

fn radial(azimuth: f32, blocks: &[Block]) -> Vec<u8> {
    const HEADER: usize = 72;
    let mut header = Vec::new();
    header.extend_from_slice(b"KVNX");
    header.extend_from_slice(&0u32.to_be_bytes());
    header.extend_from_slice(&20_405u16.to_be_bytes());
    header.extend_from_slice(&1u16.to_be_bytes());
    header.extend_from_slice(&azimuth.to_be_bytes());
    header.push(0);
    header.push(0);
    header.extend_from_slice(&0u16.to_be_bytes());
    header.push(2);
    header.push(1);
    header.push(1);
    header.push(0);
    header.extend_from_slice(&0.5f32.to_be_bytes());
    header.push(0);
    header.push(0);
    header.extend_from_slice(&(blocks.len() as u16).to_be_bytes());

    let mut encoded = Vec::new();
    let mut pointers = [0u32; 10];
    let mut cursor = HEADER;
    for (i, block) in blocks.iter().enumerate() {
        pointers[i] = cursor as u32;
        let bytes = block.encode();
        cursor += bytes.len();
        encoded.extend_from_slice(&bytes);
    }
    for pointer in pointers {
        header.extend_from_slice(&pointer.to_be_bytes());
    }
    assert_eq!(header.len(), HEADER);
    header.extend_from_slice(&encoded);
    if header.len() % 2 == 1 {
        header.push(0);
    }
    frame_msg31(&header)
}

fn frame_other(message_type: u8) -> Vec<u8> {
    const SEGMENT_FRAME_SIZE: usize = 2432;
    let mut out = vec![0u8; 12];
    out.extend_from_slice(&8u16.to_be_bytes());
    out.push(0);
    out.push(message_type);
    out.extend_from_slice(&0u16.to_be_bytes());
    out.extend_from_slice(&0u16.to_be_bytes());
    out.extend_from_slice(&0u32.to_be_bytes());
    out.extend_from_slice(&1u16.to_be_bytes());
    out.extend_from_slice(&1u16.to_be_bytes());
    out.resize(SEGMENT_FRAME_SIZE, 0);
    out
}

fn ref_block(gates: Vec<u32>) -> Block {
    named_block(b"DREF", gates)
}

fn named_block(name: &'static [u8; 4], gates: Vec<u32>) -> Block {
    Block {
        name,
        word_size: 8,
        scale: 2.0,
        offset: 66.0,
        gates,
    }
}

fn zdr8(gates: Vec<u32>) -> Block {
    Block {
        name: b"DZDR",
        word_size: 8,
        scale: 16.0,
        offset: 128.0,
        gates,
    }
}

fn zdr16(gates: Vec<u32>) -> Block {
    Block {
        name: b"DZDR",
        word_size: 16,
        scale: 32.0,
        offset: 418.0,
        gates,
    }
}

fn opts(moment: MomentSelector, rays: usize, gates: usize, word: OutputWord) -> DemuxOptions {
    DemuxOptions::new(moment, (rays, gates), word)
}

fn u8s(m: &RawMoment) -> &[u8] {
    match m {
        RawMoment::U8(v) => v,
        RawMoment::U16(_) => panic!("expected uint8 output"),
    }
}

fn u16s(m: &RawMoment) -> &[u16] {
    match m {
        RawMoment::U16(v) => v,
        RawMoment::U8(_) => panic!("expected uint16 output"),
    }
}

#[test]
fn selector_parses_nexrad_and_odim_names() {
    assert_eq!(
        "REF".parse::<MomentSelector>().unwrap(),
        MomentSelector::Ref
    );
    assert_eq!(
        "dbzh".parse::<MomentSelector>().unwrap(),
        MomentSelector::Ref
    );
    assert_eq!("SW ".parse::<MomentSelector>().unwrap(), MomentSelector::Sw);
    assert_eq!(
        "PHIDP".parse::<MomentSelector>().unwrap(),
        MomentSelector::Phi
    );
    assert!("DBZ".parse::<MomentSelector>().is_err());
}

#[test]
fn decodes_one_radial_into_row_zero() {
    let record = radial(30.0, &[ref_block(vec![0, 1, 130, 2])]);
    let out = decode_record_moment(&record, &opts(MomentSelector::Ref, 1, 4, OutputWord::U8))
        .unwrap();
    assert_eq!(u8s(&out), &[0, 1, 130, 2]);
}

#[test]
fn rows_are_in_record_order() {
    let mut record = radial(90.0, &[ref_block(vec![10, 11])]);
    record.extend_from_slice(&radial(10.0, &[ref_block(vec![20, 21])]));
    let out = decode_record_moment(&record, &opts(MomentSelector::Ref, 2, 2, OutputWord::U8))
        .unwrap();
    assert_eq!(u8s(&out), &[10, 11, 20, 21]);
}

#[test]
fn short_moments_pad_with_raw_zero_not_fill_value() {
    let record = radial(30.0, &[ref_block(vec![7, 8])]);
    let mut o = opts(MomentSelector::Ref, 2, 4, OutputWord::U8);
    o.fill_value = 255;
    let out = decode_record_moment(&record, &o).unwrap();
    assert_eq!(u8s(&out), &[7, 8, 0, 0, 255, 255, 255, 255]);
}

#[test]
fn absent_moment_leaves_the_row_at_fill_value() {
    let mut record = radial(1.0, &[ref_block(vec![1, 2]), zdr8(vec![3, 4])]);
    record.extend_from_slice(&radial(2.0, &[ref_block(vec![5, 6])]));
    let mut o = opts(MomentSelector::Zdr, 2, 2, OutputWord::U8);
    o.fill_value = 99;
    let out = decode_record_moment(&record, &o).unwrap();
    assert_eq!(u8s(&out), &[3, 4, 99, 99]);
}

#[test]
fn record_with_no_radials_is_all_fill_not_an_error() {
    let mut o = opts(MomentSelector::Ref, 2, 3, OutputWord::U8);
    o.fill_value = 7;
    let out = decode_record_moment(&[], &o).unwrap();
    assert_eq!(u8s(&out), &[7; 6]);
}

#[test]
fn too_many_gates_is_an_error_never_a_truncation() {
    let record = radial(30.0, &[ref_block(vec![1, 2, 3, 4])]);
    let err = decode_record_moment(&record, &opts(MomentSelector::Ref, 1, 2, OutputWord::U8))
        .unwrap_err();
    assert!(
        matches!(err, RadishError::MomentEncoding(MomentEncodingError::TooManyGates { present: 4, gates: 2 })),
        "got {err:?}"
    );
}

#[test]
fn too_many_radials_is_an_error_never_a_drop() {
    let mut record = radial(1.0, &[ref_block(vec![1])]);
    record.extend_from_slice(&radial(2.0, &[ref_block(vec![2])]));
    let err = decode_record_moment(&record, &opts(MomentSelector::Ref, 1, 1, OutputWord::U8))
        .unwrap_err();
    assert!(
        matches!(err, RadishError::MomentEncoding(MomentEncodingError::TooManyRadials { rows: 2, rays: 1 })),
        "got {err:?}"
    );
}

#[test]
fn word_size_mismatch_without_a_target_is_rejected() {
    let record = radial(30.0, &[zdr8(vec![10, 20])]);
    let err = decode_record_moment(&record, &opts(MomentSelector::Zdr, 1, 2, OutputWord::U16))
        .unwrap_err();
    assert!(
        matches!(err, RadishError::MomentEncoding(MomentEncodingError::WordSizeMismatch { .. })),
        "got {err:?}"
    );
}

#[test]
fn kvnx_zdr_8bit_remaps_exactly_onto_the_16bit_grid() {
    let record = radial(30.0, &[zdr8(vec![0, 1, 128, 255])]);
    let mut o = opts(MomentSelector::Zdr, 1, 4, OutputWord::U16);
    o.target = Some(grid(32.0, 418.0));
    let out = decode_record_moment(&record, &o).unwrap();
    assert_eq!(u16s(&out), &[162, 164, 418, 672]);

    for (raw8, raw16) in [0u32, 1, 128, 255].into_iter().zip(u16s(&out)) {
        let source = (raw8 as f64 - 128.0) / 16.0;
        let target = (f64::from(*raw16) - 418.0) / 32.0;
        assert!((source - target).abs() < 1e-12, "{source} vs {target}");
    }
}

#[test]
fn each_selector_reads_its_own_block() {
    let record = radial(
        30.0,
        &[
            named_block(b"DREF", vec![11]),
            named_block(b"DVEL", vec![22]),
            named_block(b"DSW ", vec![33]),
            named_block(b"DZDR", vec![44]),
            named_block(b"DPHI", vec![55]),
            named_block(b"DRHO", vec![66]),
            named_block(b"DCFP", vec![77]),
        ],
    );
    for (selector, expected) in [
        (MomentSelector::Ref, 11),
        (MomentSelector::Vel, 22),
        (MomentSelector::Sw, 33),
        (MomentSelector::Zdr, 44),
        (MomentSelector::Phi, 55),
        (MomentSelector::Rho, 66),
        (MomentSelector::Cfp, 77),
    ] {
        let out = decode_record_moment(&record, &opts(selector, 1, 1, OutputWord::U8))
            .unwrap_or_else(|e| panic!("{} failed: {e:?}", selector.name()));
        assert_eq!(
            u8s(&out),
            &[expected],
            "{} read the wrong block",
            selector.name()
        );
    }

    let inventory = record_moment_encoding(&record).unwrap();
    assert_eq!(inventory.moments.len(), 7);
    for selector in MomentSelector::all() {
        assert!(
            inventory.moments.contains_key(selector),
            "{} missing from the inventory",
            selector.name()
        );
    }
}

#[test]
fn non_radial_messages_consume_no_row() {
    let mut record = frame_other(2);
    record.extend_from_slice(&radial(10.0, &[ref_block(vec![1, 2])]));
    record.extend_from_slice(&frame_other(5));
    record.extend_from_slice(&radial(20.0, &[ref_block(vec![3, 4])]));

    let out = decode_record_moment(&record, &opts(MomentSelector::Ref, 2, 2, OutputWord::U8))
        .unwrap();
    assert_eq!(u8s(&out), &[1, 2, 3, 4]);

    let inventory = record_moment_encoding(&record).unwrap();
    assert_eq!(inventory.radial_count, 2);
    assert_eq!(degrees(&inventory.azimuth), vec![10.0, 20.0]);
}

#[test]
fn metadata_only_record_is_all_fill() {
    let mut record = frame_other(2);
    record.extend_from_slice(&frame_other(5));
    let mut o = opts(MomentSelector::Ref, 2, 3, OutputWord::U8);
    o.fill_value = 9;
    let out = decode_record_moment(&record, &o).unwrap();
    assert_eq!(u8s(&out), &[9; 6]);
    assert_eq!(record_moment_encoding(&record).unwrap().radial_count, 0);
}

#[test]
fn legacy_msg1_input_is_refused_by_decoder_and_inspector() {
    let record = frame_other(1);
    for error in [
        decode_record_moment(&record, &opts(MomentSelector::Ref, 1, 1, OutputWord::U8))
            .unwrap_err(),
        record_moment_encoding(&record).unwrap_err(),
    ] {
        assert!(
            matches!(error, RadishError::Unsupported(ref m) if m.contains("open_datatree")),
            "expected a legacy-MSG_1 refusal, got {error:?}"
        );
    }
}

#[test]
fn sixteen_bit_reflectivity_is_not_truncated_to_eight_bits() {
    let block = Block {
        name: b"DREF",
        word_size: 16,
        scale: 2.0,
        offset: 66.0,
        gates: vec![0xF7FF],
    };
    let record = radial(30.0, &[block]);
    let out = decode_record_moment(&record, &opts(MomentSelector::Ref, 1, 1, OutputWord::U16))
        .unwrap();
    assert_eq!(
        u16s(&out),
        &[0xF7FF],
        "16-bit REF keeps all 16 bits"
    );
}

#[test]
fn max_gate_count_tracks_the_longest_radial_not_the_first() {
    let mut record = radial(1.0, &[ref_block(vec![7])]);
    record.extend_from_slice(&radial(2.0, &[ref_block(vec![1, 2, 3])]));

    let encoding = record_moment_encoding(&record)
        .unwrap()
        .moments
        .get(MomentSelector::Ref)
        .unwrap();
    assert_eq!(encoding.gate_count, 1, "first-seen");
    assert_eq!(encoding.max_gate_count, 3, "widest across radials");

    let out = decode_record_moment(
        &record,
        &opts(
            MomentSelector::Ref,
            2,
            usize::from(encoding.max_gate_count),
            OutputWord::U8,
        ),
    )
    .unwrap();
    assert_eq!(u8s(&out), &[7, 0, 0, 1, 2, 3]);
}

#[test]
fn inventory_reports_gate_geometry_in_kilometres() {
    let record = radial(1.0, &[ref_block(vec![1])]);
    let inventory = record_moment_encoding(&record).unwrap();
    let encoding = inventory.moments.get(MomentSelector::Ref).unwrap();
    assert!((f32::from(encoding.first_gate_m) / 1000.0 - 2.125).abs() < 1e-6);
    assert!((f32::from(encoding.gate_interval_m) / 1000.0 - 0.250).abs() < 1e-6);
    assert_eq!(inventory.azimuth_number, vec![1]);
    assert_eq!(inventory.elevation_number, vec![1]);
    assert_eq!(inventory.collection_time_ms, vec![0]);
}

#[test]
fn sweep_inventory_flags_encodings_that_differ_across_records() {
    let mut span = ldm_record(&radial(1.0, &[zdr8(vec![1])]));
    span.extend_from_slice(&ldm_record(&radial(2.0, &[zdr16(vec![2])])));
    let encoding = sweep_moment_encoding(&span)
        .unwrap()
        .moments
        .get(MomentSelector::Zdr)
        .unwrap();
    assert_eq!(encoding.radials_present, 2);
    assert!(!encoding.uniform, "the records use different word sizes");
}

#[test]
fn implausible_or_malformed_output_shapes_are_rejected() {
    let mut o = opts(MomentSelector::Ref, 1, 0, OutputWord::U8);
    assert!(decode_record_moment(&[], &o).is_err());

    o = opts(
        MomentSelector::Ref,
        1,
        usize::from(u16::MAX) + 1,
        OutputWord::U8,
    );
    assert!(decode_record_moment(&[], &o).is_err());

    o = opts(MomentSelector::Ref, usize::MAX, 2, OutputWord::U8);
    assert!(decode_record_moment(&[], &o).is_err());

    o = opts(MomentSelector::Ref, 1 << 40, 1000, OutputWord::U8);
    assert!(decode_record_moment(&[], &o).is_err());

    o = opts(MomentSelector::Ref, 1, 1, OutputWord::U8);
    o.fill_value = 255;
    assert!(decode_record_moment(&[], &o).is_ok());
    o.fill_value = 256;
    assert!(decode_record_moment(&[], &o).is_err());
}

#[test]
fn remap_rejects_negative_bias_sub_unit_ratio_and_degenerate_scale() {
    let record = radial(30.0, &[zdr8(vec![10])]);
    let mut o = opts(MomentSelector::Zdr, 1, 1, OutputWord::U16);

    o.target = Some(grid(16.0, 0.0));
    assert!(decode_record_moment(&record, &o).is_err(), "negative bias");

    o.target = Some(grid(8.0, 64.0));
    assert!(decode_record_moment(&record, &o).is_err(), "ratio below 1");

    for scale in [0.0, f32::NAN, f32::INFINITY] {
        o.target = Some(grid(scale, 418.0));
        assert!(
            decode_record_moment(&record, &o).is_err(),
            "scale {scale} must be refused"
        );
    }
}

#[test]
fn remap_is_bounded_by_the_moments_mask_not_just_the_word_width() {
    let record = radial(30.0, &[zdr8(vec![255])]);
    let mut o = opts(MomentSelector::Zdr, 1, 1, OutputWord::U16);
    o.target = Some(grid(64.0, 512.0));
    assert_eq!(u16s(&decode_record_moment(&record, &o).unwrap()), &[1020]);

    o.target = Some(grid(256.0, 2048.0));
    let error = decode_record_moment(&record, &o).unwrap_err();
    assert!(
        matches!(error, RadishError::MomentEncoding(MomentEncodingError::GridOverflow {
                moment: MomentSelector::Zdr,
                ..
            })),
        "got {error:?}"
    );
}

#[test]
fn sorting_handles_zero_and_one_radial_spans() {
    let o = opts(MomentSelector::Ref, 2, 1, OutputWord::U8);
    let span = ldm_record(&radial(42.0, &[ref_block(vec![5])]));
    assert_eq!(u8s(&decode_sweep_moment(&span, &o, true).unwrap()), &[5, 0]);
    let span = ldm_record(&frame_other(2));
    assert_eq!(u8s(&decode_sweep_moment(&span, &o, true).unwrap()), &[0, 0]);
}

#[test]
fn malformed_input_errors_rather_than_panicking() {
    let o = opts(MomentSelector::Ref, 4, 8, OutputWord::U8);

    let mut truncated = radial(1.0, &[ref_block(vec![1, 2, 3, 4])]);
    truncated.truncate(truncated.len() / 2);
    let _ = decode_record_moment(&truncated, &o);

    let _ = decode_record_moment(&[0xAB; 64], &o);

    let mut span = 9_999_999i32.to_be_bytes().to_vec();
    span.extend_from_slice(&[0u8; 16]);
    assert!(decode_sweep_moment(&span, &o, false).is_err());

    let mut span = 32i32.to_be_bytes().to_vec();
    span.extend_from_slice(&[0xFF; 32]);
    assert!(decode_sweep_moment(&span, &o, false).is_err());
}

/// A small deterministic generator of byte strings.
fn random_bytes(seed: u64, len: usize) -> Vec<u8> {
    let mut state = seed.wrapping_mul(0x9E37_79B9_7F4A_7C15).wrapping_add(1);
    (0..len)
        .map(|_| {
            state ^= state << 13;
            state ^= state >> 7;
            state ^= state << 17;
            (state >> 24) as u8
        })
        .collect()
}

#[test]
fn arbitrary_bytes_never_panic() {
    for seed in 0..256u64 {
        let bytes = random_bytes(seed, (seed as usize) * 2);
        let o = opts(MomentSelector::Ref, 8, 16, OutputWord::U8);
        let _ = decode_record_moment(&bytes, &o);
        let _ = decode_sweep_moment(&bytes, &o, true);
        let _ = record_moment_encoding(&bytes);
        let _ = sweep_moment_encoding(&bytes);
    }
}

#[test]
fn same_width_different_scale_is_refused_without_a_target() {
    let coarse = Block {
        name: b"DZDR",
        word_size: 8,
        scale: 16.0,
        offset: 128.0,
        gates: vec![128, 144, 160],
    };
    let fine = Block {
        name: b"DZDR",
        word_size: 8,
        scale: 8.0,
        offset: 64.0,
        gates: vec![64, 72, 80],
    };
    let mut record = radial(1.0, &[coarse]);
    record.extend_from_slice(&radial(2.0, &[fine]));

    let error = decode_record_moment(&record, &opts(MomentSelector::Zdr, 2, 3, OutputWord::U8))
        .unwrap_err();
    assert!(
        matches!(error, RadishError::MomentEncoding(MomentEncodingError::MixedEncodings { .. })),
        "got {error:?}"
    );

    let mut o = opts(MomentSelector::Zdr, 2, 3, OutputWord::U16);
    o.target = Some(grid(16.0, 128.0));
    let out = decode_record_moment(&record, &o).unwrap();
    assert_eq!(u16s(&out), &[128, 144, 160, 128, 144, 160]);
}

#[test]
fn same_width_different_scale_is_refused_across_records() {
    let coarse = Block {
        name: b"DZDR",
        word_size: 8,
        scale: 16.0,
        offset: 128.0,
        gates: vec![128],
    };
    let fine = Block {
        name: b"DZDR",
        word_size: 8,
        scale: 8.0,
        offset: 64.0,
        gates: vec![64],
    };
    let mut span = ldm_record(&radial(1.0, &[coarse]));
    span.extend_from_slice(&ldm_record(&radial(2.0, &[fine])));

    let error = decode_sweep_moment(
        &span,
        &opts(MomentSelector::Zdr, 2, 1, OutputWord::U8),
        false,
    )
    .unwrap_err();
    assert!(
        matches!(error, RadishError::MomentEncoding(MomentEncodingError::MixedEncodings { .. })),
        "got {error:?}"
    );
}

#[test]
fn sweep_rejects_an_oversized_span_before_allocating_every_record() {
    let stream: Vec<u8> = (0..4)
        .flat_map(|i| radial(i as f32, &[ref_block(vec![1])]))
        .collect();
    let mut span = Vec::new();
    for _ in 0..8 {
        span.extend_from_slice(&ldm_record(&stream));
    }
    let error = decode_sweep_moment(
        &span,
        &opts(MomentSelector::Ref, 4, 1, OutputWord::U8),
        false,
    )
    .unwrap_err();
    assert!(
        matches!(error, RadishError::MomentEncoding(MomentEncodingError::TooManyRadials { rays: 4, .. })),
        "got {error:?}"
    );
}

#[test]
fn azimuth_sort_matches_numpy_on_signed_zero_and_nan() {
    let cases: [(&str, [f32; 3], [u8; 3]); 3] = [
        ("+0.0 then -0.0", [0.0, -0.0, 5.0], [1, 2, 3]),
        ("negative NaN", [1.0, f32::NAN, 0.5], [3, 1, 2]),
        ("positive NaN", [1.0, -f32::NAN, 0.5], [3, 1, 2]),
    ];
    for (label, azimuths, expected) in cases {
        let stream: Vec<u8> = azimuths
            .iter()
            .enumerate()
            .flat_map(|(i, &az)| radial(az, &[ref_block(vec![i as u32 + 1])]))
            .collect();
        let span = ldm_record(&stream);
        let out = decode_sweep_moment(
            &span,
            &opts(MomentSelector::Ref, 3, 1, OutputWord::U8),
            true,
        )
        .unwrap();
        assert_eq!(u8s(&out), &expected, "{label}");
    }
}

#[test]
fn an_unsatisfiable_allocation_errors_rather_than_aborting() {
    let mut o = opts(MomentSelector::Ref, 1 << 30, 1, OutputWord::U16);
    o.gates = 1;
    assert!(o.validate().is_ok());
    match decode_record_moment(&[], &o) {
        Ok(out) => assert_eq!(out.len(), 1 << 30),
        Err(e) => assert!(
            matches!(e, RadishError::MomentEncoding(MomentEncodingError::Allocation { .. })),
            "expected a graceful allocation error, got {e:?}"
        ),
    }
}

#[test]
fn sweep_path_routes_raw_archive2_to_the_legacy_refusal() {
    let mut span = b"AR2V0006.001-XYZWXYZWXYZW"[..24].to_vec();
    span.extend_from_slice(&frame_other(1));
    assert_eq!(&span[24..28], &[0u8; 4]);
    let error = decode_sweep_moment(
        &span,
        &opts(MomentSelector::Ref, 1, 1, OutputWord::U8),
        false,
    )
    .unwrap_err();
    assert!(
        matches!(error, RadishError::Unsupported(ref m) if m.contains("open_datatree")),
        "got {error:?}"
    );
}

#[test]
fn remapped_padding_lands_on_the_same_physical_floor_as_raw_zero() {
    let record = radial(30.0, &[zdr8(vec![0, 200])]);
    let mut o = opts(MomentSelector::Zdr, 1, 4, OutputWord::U16);
    o.target = Some(grid(32.0, 418.0));
    let out = decode_record_moment(&record, &o).unwrap();
    assert_eq!(u16s(&out), &[162, 562, 162, 162]);
    for raw in u16s(&out) {
        let physical = (f64::from(*raw) - 418.0) / 32.0;
        assert!(physical >= -8.0, "pad must not fall below the source floor");
    }
}

#[test]
fn unremapped_padding_stays_raw_zero_for_xradar_parity() {
    let record = radial(30.0, &[ref_block(vec![5, 6])]);
    let out = decode_record_moment(&record, &opts(MomentSelector::Ref, 1, 4, OutputWord::U8))
        .unwrap();
    assert_eq!(u8s(&out), &[5, 6, 0, 0]);
}

#[test]
fn native_16bit_zdr_passes_through_when_the_target_matches() {
    let record = radial(30.0, &[zdr16(vec![0, 500, 2047])]);
    let mut o = opts(MomentSelector::Zdr, 1, 3, OutputWord::U16);
    o.target = Some(grid(32.0, 418.0));
    let out = decode_record_moment(&record, &o).unwrap();
    assert_eq!(u16s(&out), &[0, 500, 2047]);
}

#[test]
fn zdr16_is_masked_to_11_bits() {
    let record = radial(30.0, &[zdr16(vec![0xF7FF])]);
    let out = decode_record_moment(&record, &opts(MomentSelector::Zdr, 1, 1, OutputWord::U16))
        .unwrap();
    assert_eq!(u16s(&out), &[0x07FF]);
}

#[test]
fn phi16_is_masked_to_10_bits() {
    let block = Block {
        name: b"DPHI",
        word_size: 16,
        scale: 2.8361,
        offset: 2.0,
        gates: vec![0xFFFF],
    };
    let record = radial(30.0, &[block]);
    let out = decode_record_moment(&record, &opts(MomentSelector::Phi, 1, 1, OutputWord::U16))
        .unwrap();
    assert_eq!(u16s(&out), &[0x03FF]);
}

#[test]
fn inexact_remap_is_refused() {
    let record = radial(30.0, &[zdr8(vec![10])]);
    let mut o = opts(MomentSelector::Zdr, 1, 1, OutputWord::U16);
    o.target = Some(grid(24.0, 418.0));
    let err = decode_record_moment(&record, &o).unwrap_err();
    assert!(
        matches!(err, RadishError::MomentEncoding(MomentEncodingError::InexactRatio { .. })),
        "got {err:?}"
    );
}

#[test]
fn remap_that_overflows_the_output_width_is_refused() {
    let record = radial(30.0, &[zdr8(vec![10])]);
    let mut o = opts(MomentSelector::Zdr, 1, 1, OutputWord::U8);
    o.target = Some(grid(32.0, 256.0));
    let err = decode_record_moment(&record, &o).unwrap_err();
    assert!(
        matches!(err, RadishError::MomentEncoding(MomentEncodingError::GridOverflow {
                moment: MomentSelector::Zdr,
                word_size: 8,
                ..
            })),
        "got {err:?}"
    );
}

#[test]
fn fill_value_must_fit_the_output_width() {
    let mut o = opts(MomentSelector::Ref, 1, 1, OutputWord::U8);
    o.fill_value = 300;
    assert!(decode_record_moment(&[], &o).is_err());
}

#[test]
fn inventory_reports_per_radial_headers_and_encodings() {
    let mut record = radial(10.5, &[ref_block(vec![1, 2, 3]), zdr8(vec![4, 5])]);
    record.extend_from_slice(&radial(11.5, &[ref_block(vec![6, 7])]));

    let inventory = record_moment_encoding(&record).unwrap();
    assert_eq!(inventory.radial_count, 2);
    assert_eq!(degrees(&inventory.azimuth), vec![10.5, 11.5]);
    assert_eq!(degrees(&inventory.elevation), vec![0.5, 0.5]);
    assert_eq!(inventory.modified_julian_date, vec![20_405, 20_405]);

    let reflectivity = inventory.moments.get(MomentSelector::Ref).unwrap();
    assert_eq!(reflectivity.word_size, 8);
    assert_eq!(f32::from_bits(reflectivity.scale), 2.0);
    assert_eq!(f32::from_bits(reflectivity.offset), 66.0);
    assert_eq!(reflectivity.gate_count, 3);
    assert_eq!(reflectivity.max_gate_count, 3);
    assert_eq!(reflectivity.radials_present, 2);
    assert!(reflectivity.uniform);

    let zdr = inventory.moments.get(MomentSelector::Zdr).unwrap();
    assert_eq!(zdr.radials_present, 1);
    assert!(!inventory.moments.contains_key(MomentSelector::Vel));
}

#[test]
fn inventory_flags_mixed_encodings_as_non_uniform() {
    let mut record = radial(1.0, &[zdr8(vec![1, 2])]);
    record.extend_from_slice(&radial(2.0, &[zdr16(vec![3, 4])]));
    let inventory = record_moment_encoding(&record).unwrap();
    let zdr = inventory.moments.get(MomentSelector::Zdr).unwrap();
    assert_eq!(zdr.word_size, 8, "first-seen wins");
    assert!(!zdr.uniform, "the second radial switched to 16-bit");
}

fn ldm_record(payload: &[u8]) -> Vec<u8> {
    let mut compressed = Vec::new();
    let mut encoder = BzEncoder::new(&mut compressed, Compression::default());
    encoder.write_all(payload).unwrap();
    encoder.finish().unwrap();
    let mut frame = (compressed.len() as i32).to_be_bytes().to_vec();
    frame.extend_from_slice(&compressed);
    frame
}

#[test]
fn sweep_span_stitches_records_in_order() {
    let mut span = ldm_record(&radial(90.0, &[ref_block(vec![1, 2])]));
    let mut second = radial(10.0, &[ref_block(vec![3, 4])]);
    second.extend_from_slice(&radial(20.0, &[ref_block(vec![5, 6])]));
    span.extend_from_slice(&ldm_record(&second));

    let out = decode_sweep_moment(
        &span,
        &opts(MomentSelector::Ref, 3, 2, OutputWord::U8),
        false,
    )
    .unwrap();
    assert_eq!(u8s(&out), &[1, 2, 3, 4, 5, 6]);
}

#[test]
fn sweep_span_skips_a_leading_ar2v_volume_header() {
    let mut span = b"AR2V0006.001-XYZWXYZWXYZW"[..24].to_vec();
    span.extend_from_slice(&ldm_record(&radial(5.0, &[ref_block(vec![9, 8])])));
    let out = decode_sweep_moment(
        &span,
        &opts(MomentSelector::Ref, 1, 2, OutputWord::U8),
        false,
    )
    .unwrap();
    assert_eq!(u8s(&out), &[9, 8]);
}

#[test]
fn sort_by_azimuth_is_stable_and_leaves_fill_rows_at_the_end() {
    let mut stream = radial(270.0, &[ref_block(vec![1])]);
    stream.extend_from_slice(&radial(10.0, &[ref_block(vec![2])]));
    stream.extend_from_slice(&radial(10.0, &[ref_block(vec![3])]));
    stream.extend_from_slice(&radial(90.0, &[ref_block(vec![4])]));
    let span = ldm_record(&stream);

    let mut o = opts(MomentSelector::Ref, 6, 1, OutputWord::U8);
    o.fill_value = 200;
    let out = decode_sweep_moment(&span, &o, true).unwrap();
    assert_eq!(u8s(&out), &[2, 3, 4, 1, 200, 200]);
}

#[test]
fn sweep_inventory_merges_across_records() {
    let mut span = ldm_record(&radial(1.0, &[ref_block(vec![1, 2, 3])]));
    span.extend_from_slice(&ldm_record(&radial(2.0, &[ref_block(vec![4])])));

    let inventory = sweep_moment_encoding(&span).unwrap();
    assert_eq!(inventory.radial_count, 2);
    assert_eq!(degrees(&inventory.azimuth), vec![1.0, 2.0]);
    let reflectivity = inventory.moments.get(MomentSelector::Ref).unwrap();
    assert_eq!(reflectivity.gate_count, 3, "first-seen wins");
    assert_eq!(reflectivity.max_gate_count, 3);
    assert_eq!(reflectivity.radials_present, 2);
    assert!(reflectivity.uniform);
}

#[test]
fn mixed_encodings_still_decode_onto_a_common_target_grid() {
    let mut record = radial(1.0, &[zdr8(vec![0])]);
    record.extend_from_slice(&radial(2.0, &[zdr16(vec![162])]));
    let mut o = opts(MomentSelector::Zdr, 2, 1, OutputWord::U16);
    o.target = Some(grid(32.0, 418.0));
    let out = decode_record_moment(&record, &o).unwrap();
    assert_eq!(u16s(&out), &[162, 162]);
}
