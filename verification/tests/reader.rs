use radish::backends::nexrad::decode::error::NexradDecodeError;
use radish::backends::nexrad::decode::reader::SliceReader;

#[test]
fn position_starts_at_zero_and_advances_on_take() {
    let mut r = SliceReader::new(&[0x01, 0x02, 0x03, 0x04]);
    assert_eq!(r.position(), 0);
    assert_eq!(r.take_bytes(2).unwrap(), &[0x01, 0x02]);
    assert_eq!(r.position(), 2);
}

#[test]
fn take_bytes_errors_on_short_input() {
    let mut r = SliceReader::new(&[0x01]);
    let err = r.take_bytes(2).unwrap_err();
    assert_eq!(r.position(), 0);
    let NexradDecodeError::UnexpectedEof {
        offset,
        needed,
        available,
    } = err
    else {
        panic!("expected UnexpectedEof, got {err:?}")
    };
    assert_eq!((offset, needed, available), (0, 2, 1));
}

#[test]
fn read_u32_be_decodes_high_byte_first() {
    let mut r = SliceReader::new(&[0xDE, 0xAD, 0xBE, 0xEF]);
    assert_eq!(r.read_u32_be().unwrap(), 0xDEAD_BEEF);
    assert_eq!(r.position(), 4);
}

#[test]
fn read_f32_be_round_trip() {
    let bytes = std::f32::consts::PI.to_be_bytes();
    let mut r = SliceReader::new(&bytes);
    assert!((f32::from_bits(r.read_f32_be().unwrap()) - std::f32::consts::PI).abs() < 1e-6);
}

#[test]
fn try_skip_to_idempotent_when_already_past() {
    let mut r = SliceReader::new(&[0u8; 16]);
    r.advance(8).unwrap();
    r.try_skip_to(4).unwrap();
    assert_eq!(r.position(), 8);
}

#[test]
fn try_skip_to_advances_forward() {
    let mut r = SliceReader::new(&[0u8; 16]);
    r.advance(4).unwrap();
    r.try_skip_to(12).unwrap();
    assert_eq!(r.position(), 12);
}

#[test]
fn try_skip_to_errors_when_target_past_end() {
    let mut r = SliceReader::new(&[0u8; 8]);
    let err = r.try_skip_to(16).unwrap_err();
    assert!(
        matches!(err, NexradDecodeError::UnexpectedEof { .. }),
        "expected UnexpectedEof, got {err:?}"
    );
}

#[test]
fn advance_at_exact_end_succeeds_and_remaining_is_empty() {
    let mut r = SliceReader::new(&[0u8; 8]);
    r.advance(8).unwrap();
    assert!(r.remaining().is_empty());
}
