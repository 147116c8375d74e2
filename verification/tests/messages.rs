use radish::backends::nexrad::decode::error::NexradDecodeError;
use radish::backends::nexrad::decode::header::{
    MessageType, LOGICAL_HEADER_SIZE, SEGMENT_FRAME_SIZE, SIZE as HEADER_SIZE, TCM_PREFIX_SIZE,
    VARIABLE_LENGTH_MESSAGE_SIZE,
};
use radish::backends::nexrad::decode::messages::{decode_messages, MessagePayload};


fn synthesize_msg31(declared_halfwords: u16) -> Vec<u8> {
    let logical_size = (declared_halfwords as usize) * 2;
    assert!(
        logical_size >= LOGICAL_HEADER_SIZE,
        "logical_size must accommodate the 16-byte Table II header"
    );
    let total = TCM_PREFIX_SIZE + logical_size;
    let mut buf = vec![0u8; total];
    buf[12..14].copy_from_slice(&declared_halfwords.to_be_bytes());
    buf[15] = 31;
    buf[24..26].copy_from_slice(&1u16.to_be_bytes());
    buf[26..28].copy_from_slice(&1u16.to_be_bytes());
    buf
}

fn synthesize_two_msg31(decl1: u16, decl2: u16) -> Vec<u8> {
    let mut buf = synthesize_msg31(decl1);
    buf.extend_from_slice(&synthesize_msg31(decl2));
    buf
}

fn check_second_message_offset(
    first_halfwords: u16,
    second_halfwords: u16,
    expected_second_offset: usize,
) {
    let bytes = synthesize_two_msg31(first_halfwords, second_halfwords);
    let messages = decode_messages(&bytes).expect("decode");
    assert_eq!(messages.len(), 2);
    assert_eq!(messages[0].offset, 0);
    assert_eq!(messages[1].offset, expected_second_offset);
    assert_eq!(
        messages[0].size,
        TCM_PREFIX_SIZE + (first_halfwords as usize) * 2
    );
    assert_eq!(
        messages[1].size,
        TCM_PREFIX_SIZE + (second_halfwords as usize) * 2
    );
}

#[test]
fn boundary_resync_pins_second_message_offset() {
    check_second_message_offset(32, 32, TCM_PREFIX_SIZE + 64);
    check_second_message_offset(40, 32, TCM_PREFIX_SIZE + 80);
    check_second_message_offset(32, 40, TCM_PREFIX_SIZE + 64);
}

#[test]
fn boundary_resync_target_past_buffer_returns_unexpected_eof() {
    let bytes = synthesize_msg31(100);
    let truncated = &bytes[..50];
    let err = decode_messages(truncated).expect_err("should fail");
    assert!(
        matches!(err, NexradDecodeError::UnexpectedEof { .. }),
        "got {err:?}"
    );
}

#[test]
fn empty_input_yields_empty_message_list() {
    assert!(decode_messages(&[]).unwrap().is_empty());
}

#[test]
fn input_smaller_than_header_terminates_cleanly() {
    let bytes = vec![0u8; 8];
    assert!(decode_messages(&bytes).unwrap().is_empty());
}

#[test]
fn skip_with_sentinel_advances_via_extended_size() {
    let logical_size: u32 = 64;
    let segment_count = ((logical_size >> 16) & 0xFFFF) as u16;
    let segment_number = (logical_size & 0xFFFF) as u16;
    let total_wire = TCM_PREFIX_SIZE + logical_size as usize;

    let mut buf = vec![0u8; total_wire];
    buf[12..14].copy_from_slice(&VARIABLE_LENGTH_MESSAGE_SIZE.to_be_bytes());
    buf[15] = 99;
    buf[24..26].copy_from_slice(&segment_count.to_be_bytes());
    buf[26..28].copy_from_slice(&segment_number.to_be_bytes());

    buf.extend_from_slice(&synthesize_msg31(32));

    let messages = decode_messages(&buf).expect("decode");
    assert_eq!(messages.len(), 2);
    assert_eq!(messages[0].header.message_type, MessageType::Skip(99));
    assert_eq!(messages[0].size, total_wire);
    assert_eq!(messages[1].offset, total_wire);
    assert_eq!(
        messages[1].header.message_type,
        MessageType::DigitalRadarDataGenericFormat
    );
}

fn synthesize_fixed_frame(
    type_byte: u8,
    seq_number: u16,
    size_halfwords: u16,
    segment_count: u16,
    segment_number: u16,
    marker: u8,
) -> Vec<u8> {
    let mut buf = vec![0u8; SEGMENT_FRAME_SIZE];
    buf[12..14].copy_from_slice(&size_halfwords.to_be_bytes());
    buf[15] = type_byte;
    buf[16..18].copy_from_slice(&seq_number.to_be_bytes());
    buf[24..26].copy_from_slice(&segment_count.to_be_bytes());
    buf[26..28].copy_from_slice(&segment_number.to_be_bytes());
    buf[HEADER_SIZE] = marker;
    buf
}

#[test]
fn segmented_message_reassembles_in_order() {
    let segment_size_hw: u16 = ((LOGICAL_HEADER_SIZE + 2400) / 2) as u16;
    let mut buf = synthesize_fixed_frame(5, 77, segment_size_hw, 2, 1, 0xAA);
    buf.extend_from_slice(&synthesize_fixed_frame(5, 77, segment_size_hw, 2, 2, 0xBB));

    let messages = decode_messages(&buf).expect("decode");
    assert_eq!(messages.len(), 1, "got {} messages", messages.len());
    let MessagePayload::Reassembled(p) = &messages[0].payload else {
        panic!("expected Reassembled, got {:?}", messages[0].payload);
    };
    assert_eq!(p.len(), 2400 + 2400, "two segments × 2400 byte payloads");
    assert_eq!(p[0], 0xAA, "segment 1 first byte preserved");
    assert_eq!(p[2400], 0xBB, "segment 2 starts at byte 2400 of reassembly");
}

#[test]
fn trailing_zero_padded_frames_are_walked_silently() {
    let segment_size_hw: u16 = ((LOGICAL_HEADER_SIZE + 100) / 2) as u16;
    let mut buf = synthesize_fixed_frame(5, 1, segment_size_hw, 1, 1, 0xAA);
    buf.extend(vec![0u8; SEGMENT_FRAME_SIZE * 3]);

    let messages = decode_messages(&buf).expect("decode");
    assert_eq!(
        messages.len(),
        1,
        "only the real MSG_5 should be yielded; zero-padded \
         trailers are walked silently"
    );
    assert_eq!(
        messages[0].header.message_type,
        MessageType::VolumeCoveragePattern
    );
}

/// A small deterministic generator of byte strings.
fn random_bytes(seed: u64, len: usize) -> Vec<u8> {
    let mut state = seed.wrapping_mul(0x9E37_79B9_7F4A_7C15).wrapping_add(1);
    (0..len)
        .map(|_| {
            state ^= state << 13;
            state ^= state >> 7;
            state ^= state << 17;
            (state >> 24) as u8
        })
        .collect()
}

#[test]
fn proptest_decode_messages_never_panics_on_random_input() {
    for seed in 0..256u64 {
        let bytes = random_bytes(seed, (seed as usize) * 32);
        let _ = decode_messages(&bytes);
    }
}
