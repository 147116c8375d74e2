use radish::backends::nexrad::decode::error::NexradDecodeError;
use radish::backends::nexrad::decode::record::{
    decompress, decompress_all, is_raw_archive2, raw_archive2_body, split_ldm_records,
};
use bzip2::write::BzEncoder;
use bzip2::Compression;
use std::io::Write;

fn make_ldm_record(payload: &[u8]) -> Vec<u8> {
    let mut compressed = Vec::new();
    let mut enc = BzEncoder::new(&mut compressed, Compression::default());
    enc.write_all(payload).unwrap();
    enc.finish().unwrap();
    let mut frame = Vec::with_capacity(4 + compressed.len());
    frame.extend_from_slice(&(compressed.len() as i32).to_be_bytes());
    frame.extend_from_slice(&compressed);
    frame
}

#[test]
fn split_one_record_with_no_volume_header() {
    let payload = b"hello, world";
    let frame = make_ldm_record(payload);
    let records = split_ldm_records(&frame).unwrap();
    assert_eq!(records.len(), 1);
    assert_eq!(records[0].offset, 0);
}

#[test]
fn split_skips_ar2v_volume_header() {
    let payload = b"hello";
    let frame = make_ldm_record(payload);
    let mut bytes = b"AR2V0006.001-XYZWXYZWXYZW".to_vec();
    bytes.truncate(24);
    bytes.extend_from_slice(&frame);
    let records = split_ldm_records(&bytes).unwrap();
    assert_eq!(records.len(), 1);
    assert_eq!(records[0].offset, 24);
}

#[test]
fn split_multiple_records_preserves_order() {
    let mut bytes = Vec::new();
    bytes.extend_from_slice(&make_ldm_record(b"first"));
    let off1 = bytes.len();
    bytes.extend_from_slice(&make_ldm_record(b"second"));
    let off2 = bytes.len();
    bytes.extend_from_slice(&make_ldm_record(b"third"));
    let records = split_ldm_records(&bytes).unwrap();
    assert_eq!(records.len(), 3);
    assert_eq!(records[0].offset, 0);
    assert_eq!(records[1].offset, off1);
    assert_eq!(records[2].offset, off2);
}

#[test]
fn split_handles_negative_size_control_record() {
    let payload = b"control-record-payload";
    let mut compressed = Vec::new();
    let mut enc = BzEncoder::new(&mut compressed, Compression::default());
    enc.write_all(payload).unwrap();
    enc.finish().unwrap();
    let mut frame = Vec::with_capacity(4 + compressed.len());
    let signed_size = -(compressed.len() as i32);
    frame.extend_from_slice(&signed_size.to_be_bytes());
    frame.extend_from_slice(&compressed);
    let records = split_ldm_records(&frame).unwrap();
    assert_eq!(records.len(), 1);
    let out = decompress(&records[0]).unwrap();
    assert_eq!(out, payload);
}

#[test]
fn split_errors_on_truncated_payload() {
    let mut frame = make_ldm_record(b"hello");
    frame.truncate(frame.len() - 4);
    let err = split_ldm_records(&frame).unwrap_err();
    assert!(
        matches!(err, NexradDecodeError::UnexpectedEof { .. }),
        "expected UnexpectedEof, got {err:?}"
    );
}

#[test]
fn decompress_round_trips_payload() {
    let payload = b"the quick brown fox jumps over the lazy dog";
    let frame = make_ldm_record(payload);
    let records = split_ldm_records(&frame).unwrap();
    let out = decompress(&records[0]).unwrap();
    assert_eq!(out, payload);
}

#[test]
fn decompress_all_preserves_order() {
    let payloads: Vec<&[u8]> = vec![b"alpha", b"bravo", b"charlie", b"delta"];
    let mut bytes = Vec::new();
    for p in &payloads {
        bytes.extend_from_slice(&make_ldm_record(p));
    }
    let records = split_ldm_records(&bytes).unwrap();
    let outs = decompress_all(&records).unwrap();
    for (i, want) in payloads.iter().enumerate() {
        assert_eq!(&outs[i][..], *want, "record {i} order");
    }
}

#[test]
fn is_raw_archive2_detects_zero_size_prefix() {
    let mut bytes = b"AR2V0006.001-XYZWXYZWXYZW".to_vec();
    bytes.truncate(24);
    bytes.extend_from_slice(&[0u8; 4]);
    assert!(is_raw_archive2(&bytes));
}

#[test]
fn is_raw_archive2_rejects_ldm_size_prefix() {
    let mut bytes = b"AR2V0006.001-XYZWXYZWXYZW".to_vec();
    bytes.truncate(24);
    bytes.extend_from_slice(&123_456_i32.to_be_bytes());
    assert!(!is_raw_archive2(&bytes));
}

#[test]
fn is_raw_archive2_rejects_inputs_without_ar2v_magic() {
    let bytes = vec![0u8; 64];
    assert!(!is_raw_archive2(&bytes));
}

#[test]
fn is_raw_archive2_rejects_short_inputs() {
    let bytes = b"AR2V0006".to_vec();
    assert!(!is_raw_archive2(&bytes));
}

#[test]
fn raw_archive2_body_skips_volume_header() {
    let mut bytes = b"AR2V0006.001-XYZWXYZWXYZW".to_vec();
    bytes.truncate(24);
    bytes.extend(vec![0xAAu8; 100]);
    let body = raw_archive2_body(&bytes).unwrap();
    assert_eq!(body.len(), 100);
    assert!(body.iter().all(|&b| b == 0xAA));
}

#[test]
fn raw_archive2_body_errors_when_volume_header_missing() {
    let bytes = vec![0u8; 8];
    assert!(matches!(
        raw_archive2_body(&bytes).unwrap_err(),
        NexradDecodeError::UnexpectedEof { .. }
    ));
}

#[test]
fn decompress_errors_on_bad_bzip2_stream() {
    let bytes = {
        let payload = vec![0xFFu8; 32];
        let mut frame = Vec::with_capacity(4 + payload.len());
        frame.extend_from_slice(&(payload.len() as i32).to_be_bytes());
        frame.extend_from_slice(&payload);
        frame
    };
    let records = split_ldm_records(&bytes).unwrap();
    assert!(matches!(
        decompress(&records[0]).unwrap_err(),
        NexradDecodeError::Decompression { .. }
    ));
}
