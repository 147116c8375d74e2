use bzip2::write::BzEncoder;
use bzip2::Compression;
use radish::backends::nexrad::decode::decode_volume;
use radish::backends::nexrad::decode::error::NexradDecodeError;
use radish::backends::nexrad::decode::header::MessageType;
use radish::backends::nexrad::decode::messages::decode_messages;
use radish::backends::nexrad::decode::record::{decompress_all, split_ldm_records, LdmRecord};
use radish::backends::nexrad::decode::volume::parse;
use radish::backends::nexrad::demux::{
    decode_record_moment, DemuxOptions, DtypeRefusal, MomentSelector, OutputWord, TargetEncoding,
    UnpairedTarget,
};
use radish::backends::nexrad::grid::{exact_bias, exact_ratio, is_usable_scale};
use radish::errors::{EncodingKey, MomentEncodingError, RadishError};
use std::io::Write;

/// A record of one radial with one differential reflectivity block.
fn zdr_record(word_size: u8, scale: f32, offset: f32, gates: &[u16]) -> Vec<u8> {
    let mut body = b"KVNX".to_vec();
    body.extend_from_slice(&[0; 8]);
    body.extend_from_slice(&30.0f32.to_be_bytes());
    body.extend_from_slice(&[0, 0, 0, 0, 2, 1, 1, 0]);
    body.extend_from_slice(&0.5f32.to_be_bytes());
    body.extend_from_slice(&[0, 0, 0, 1]);
    body.extend_from_slice(&72u32.to_be_bytes());
    body.extend_from_slice(&[0; 36]);
    body.extend_from_slice(b"DZDR\0\0\0\0");
    body.extend_from_slice(&(gates.len() as u16).to_be_bytes());
    body.extend_from_slice(&[0, 0, 0, 250, 0, 0, 0, 0, 0, word_size]);
    body.extend_from_slice(&scale.to_be_bytes());
    body.extend_from_slice(&offset.to_be_bytes());
    for g in gates {
        if word_size == 8 {
            body.push(*g as u8);
        } else {
            body.extend_from_slice(&g.to_be_bytes());
        }
    }
    if body.len() % 2 == 1 {
        body.push(0);
    }
    let mut out = vec![0u8; 12];
    out.extend_from_slice(&(((16 + body.len()) / 2) as u16).to_be_bytes());
    out.extend_from_slice(&[0, 31, 0, 0, 0, 0, 0, 0, 0, 0, 0, 1, 0, 1]);
    out.extend_from_slice(&body);
    out
}

fn options(rays: usize, gates: usize, word: OutputWord) -> DemuxOptions {
    DemuxOptions::new(MomentSelector::Zdr, (rays, gates), word)
}

fn refusal(record: &[u8], o: &DemuxOptions) -> MomentEncodingError {
    match decode_record_moment(record, o) {
        Err(RadishError::MomentEncoding(reason)) => reason,
        other => panic!("expected MomentEncoding, got {other:?}"),
    }
}

#[test]
fn shapes_and_fill_values_are_checked_first() {
    let garbage = [0xAB; 64];
    assert_eq!(
        refusal(&garbage, &options(1, 0, OutputWord::U8)),
        MomentEncodingError::NoGates
    );
    let mut o = options(1, 1, OutputWord::U8);
    o.fill_value = 256;
    assert_eq!(
        refusal(&garbage, &o),
        MomentEncodingError::FillTooWide {
            fill_value: 256,
            word_size: 8
        }
    );
    assert_eq!(
        refusal(&garbage, &options(1, 65_536, OutputWord::U8)),
        MomentEncodingError::TooManyColumns { gates: 65_536 }
    );
    assert_eq!(
        refusal(&garbage, &options(usize::MAX, 2, OutputWord::U8)),
        MomentEncodingError::ShapeOverflow {
            rays: usize::MAX,
            gates: 2
        }
    );
    assert_eq!(
        refusal(&garbage, &options((1 << 30) + 1, 1, OutputWord::U8)),
        MomentEncodingError::ShapeTooLarge {
            rays: (1 << 30) + 1,
            gates: 1,
            elements: (1 << 30) + 1
        }
    );
}

#[test]
fn grids_that_do_not_match_exactly_are_refused() {
    let record = zdr_record(8, 16.0, 128.0, &[10]);
    let source = EncodingKey {
        word_size: 8,
        scale: 16.0f32.to_bits(),
        offset: 128.0f32.to_bits(),
    };
    let mut o = options(1, 1, OutputWord::U16);
    assert_eq!(
        refusal(&record, &o),
        MomentEncodingError::WordSizeMismatch {
            moment: MomentSelector::Zdr,
            source,
            word_size: 16
        }
    );
    let mut to = |scale: f32, offset: f32| {
        let target = TargetEncoding::new(scale.to_bits(), offset.to_bits());
        o.target = Some(target);
        (target, refusal(&record, &o))
    };
    let (target, reason) = to(f32::INFINITY, 0.0);
    assert_eq!(
        reason,
        MomentEncodingError::DegenerateScale {
            moment: MomentSelector::Zdr,
            source,
            target
        }
    );
    let (target, reason) = to(24.0, 192.0);
    assert_eq!(
        reason,
        MomentEncodingError::InexactRatio {
            moment: MomentSelector::Zdr,
            source,
            target,
            word_size: 16
        }
    );
    let (target, reason) = to(32.0, 256.5);
    assert_eq!(
        reason,
        MomentEncodingError::InexactBias {
            moment: MomentSelector::Zdr,
            source,
            target,
            word_size: 16
        }
    );
    let (target, reason) = to(256.0, 2048.0);
    assert_eq!(
        reason,
        MomentEncodingError::GridOverflow {
            moment: MomentSelector::Zdr,
            source,
            target,
            word_size: 16,
            widest: 255 * 16,
            max: 0x07FF
        }
    );
}

#[test]
fn mixed_encodings_name_both() {
    let mut record = zdr_record(8, 16.0, 128.0, &[1]);
    record.extend_from_slice(&zdr_record(8, 8.0, 64.0, &[2]));
    match refusal(&record, &options(2, 1, OutputWord::U8)) {
        MomentEncodingError::MixedEncodings { first, next, .. } => {
            assert_eq!(f32::from_bits(first.scale), 16.0);
            assert_eq!(f32::from_bits(next.scale), 8.0);
        }
        other => panic!("expected MixedEncodings, got {other:?}"),
    }
}

#[test]
fn ratios_and_biases_are_exact() {
    let bits = |x: f32| x.to_bits();
    assert_eq!(exact_ratio(bits(16.0), bits(32.0)), Some(2));
    assert_eq!(exact_ratio(bits(-0.5), bits(-1.5)), Some(3));
    assert_eq!(exact_ratio(bits(16.0), bits(8.0)), None);
    assert_eq!(exact_ratio(bits(16.0), bits(-16.0)), None);
    assert_eq!(exact_ratio(bits(0.1), bits(0.3)), None);
    assert_eq!(exact_bias(bits(128.0), bits(418.0), 2), Some(162));
    assert_eq!(exact_bias(bits(-0.5), bits(0.5), 1), Some(1));
    assert_eq!(exact_bias(bits(128.0), bits(0.0), 1), None);
    assert!(is_usable_scale(f32::MIN_POSITIVE.to_bits() / 2));
    assert!(!is_usable_scale(bits(-0.0)));
}

#[test]
fn decoder_errors_have_texts() {
    let message = |bytes: &[u8]| match decode_volume(bytes) {
        Err(e) => e.message(),
        Ok(_) => panic!("expected an error"),
    };
    assert_eq!(
        message(b"AR"),
        "unsupported NEXRAD record format (LDM expected; CTM not yet supported)"
    );
    assert_eq!(
        message(&[0, 0, 0, 9, 1, 2]),
        "unexpected EOF at offset 0: needed 13 bytes, 6 available"
    );
    assert!(message(&[0, 0, 0, 4, 1, 2, 3, 4])
        .starts_with("bzip2 decompression failed at record offset 0: "));
    let mut raw = b"AR2V0006.001-XYZWXYZWXYZW"[..24].to_vec();
    raw.extend_from_slice(&[0; 4]);
    assert_eq!(
        message(&raw),
        "MSG_5 (Volume Coverage Pattern) missing from file"
    );
    let mut short = vec![0u8; 28];
    short[12..14].copy_from_slice(&7u16.to_be_bytes());
    short[15] = 31;
    match decode_messages(&short) {
        Err(e @ NexradDecodeError::MalformedHeader { offset: 0, .. }) => assert_eq!(
            e.message(),
            "malformed header at offset 0: declared message_size smaller than the 16-byte Table II header"
        ),
        other => panic!("expected MalformedHeader, got {other:?}"),
    }
    let e = NexradDecodeError::InvalidMessageType { code: 0xAB };
    assert_eq!(e.message(), "invalid NEXRAD message type byte: 171 (0xab)");
    let e = NexradDecodeError::InvalidPointerOffset {
        block: "REF",
        offset: 7,
        message_size: 5,
    };
    assert_eq!(
        e.message(),
        "invalid MSG_31 data block pointer for REF: offset=7, message_size=5"
    );
}

#[test]
fn a_damaged_record_is_named_by_its_offset() {
    let mut encoder = BzEncoder::new(Vec::new(), Compression::default());
    encoder.write_all(b"payload").unwrap();
    let good = encoder.finish().unwrap();
    let records = [
        LdmRecord {
            offset: 0,
            compressed: &good,
        },
        LdmRecord {
            offset: 99,
            compressed: b"garbage",
        },
    ];
    assert_eq!(decompress_all(&records[..1]).unwrap(), vec![b"payload"]);
    match decompress_all(&records) {
        Err(NexradDecodeError::Decompression { offset, .. }) => assert_eq!(offset, 99),
        other => panic!("expected Decompression, got {other:?}"),
    }
    assert!(split_ldm_records(&[]).is_err());
}

#[test]
fn unknown_moments_are_quoted_in_capitals() {
    match MomentSelector::from_name(" \"dbz\t ") {
        Err(RadishError::Unsupported(text)) => assert_eq!(
            text,
            "unknown NEXRAD moment \"\\\"DBZ\"; expected one of REF, VEL, SW, ZDR, PHI, RHO, CFP"
        ),
        other => panic!("expected Unsupported, got {other:?}"),
    }
    assert_eq!(MomentSelector::from_name("ccorh").unwrap(), MomentSelector::Cfp);
}

#[test]
fn identifiers_that_are_not_text_are_shown_all_the_same() {
    let mut header = b"AR2V0006.001\0\0\0\0\0\0\0\0K\xFFOT".to_vec();
    assert_eq!(header.len(), 24);
    assert_eq!(parse(&header).unwrap().icao_str(), "K\u{FFFD}OT");
    header[21] = b'L';
    assert_eq!(parse(&header).unwrap().icao_str(), "KLOT");
}

#[test]
fn message_types_have_names() {
    assert_eq!(MessageType::from_u8(1).text(), "MSG_1 (legacy radial)");
    assert_eq!(MessageType::from_u8(2).text(), "MSG_2 (RDA status)");
    assert_eq!(MessageType::from_u8(5).text(), "MSG_5 (VCP)");
    assert_eq!(MessageType::from_u8(15).text(), "MSG_15 (clutter filter map)");
    assert_eq!(MessageType::from_u8(18).text(), "MSG_18 (RDA adaptation)");
    assert_eq!(MessageType::from_u8(31).text(), "MSG_31 (generic radial)");
    assert_eq!(MessageType::from_u8(200).text(), "MSG_200 (skipped)");
}

#[test]
fn dtypes_are_native_unsigned_words() {
    assert_eq!(OutputWord::from_dtype("u", 1, "|"), Ok(OutputWord::U8));
    assert_eq!(OutputWord::from_dtype("u", 2, "="), Ok(OutputWord::U16));
    assert_eq!(
        OutputWord::from_dtype("u", 2, ">"),
        Err(DtypeRefusal::ByteOrder)
    );
    assert_eq!(OutputWord::from_dtype("i", 2, "="), Err(DtypeRefusal::Kind));
    assert_eq!(OutputWord::from_dtype("u", 4, "="), Err(DtypeRefusal::Kind));
}

#[test]
fn scale_and_offset_come_together() {
    assert_eq!(TargetEncoding::paired(None, None), Ok(None));
    assert_eq!(
        TargetEncoding::paired(Some(1), Some(2)),
        Ok(Some(TargetEncoding::new(1, 2)))
    );
    assert_eq!(TargetEncoding::paired(Some(1), None), Err(UnpairedTarget));
    assert_eq!(TargetEncoding::paired(None, Some(2)), Err(UnpairedTarget));
}
