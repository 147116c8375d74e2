use radish::backends::nexrad::decode::messages::msg31::moment::{
    MomentBlock, MomentDescriptor, MomentValue, DESCRIPTOR_SIZE,
};
use radish::backends::nexrad::decode::reader::SliceReader;

fn physical(m: &MomentBlock<'_>, raw: u32) -> f32 {
    (raw as f32 - f32::from_bits(m.descriptor.offset)) / f32::from_bits(m.descriptor.scale)
}

fn descriptor_8bit(gate_count: u16) -> Vec<u8> {
    let mut buf = Vec::with_capacity(DESCRIPTOR_SIZE);
    buf.extend_from_slice(&0u32.to_be_bytes());
    buf.extend_from_slice(&gate_count.to_be_bytes());
    buf.extend_from_slice(&2_000u16.to_be_bytes());
    buf.extend_from_slice(&250u16.to_be_bytes());
    buf.extend_from_slice(&18u16.to_be_bytes());
    buf.extend_from_slice(&8_i16.to_be_bytes());
    buf.push(0);
    buf.push(8);
    buf.extend_from_slice(&2.0_f32.to_be_bytes());
    buf.extend_from_slice(&66.0_f32.to_be_bytes());
    assert_eq!(buf.len(), DESCRIPTOR_SIZE);
    buf
}

#[test]
fn descriptor_round_trips() {
    let bytes = descriptor_8bit(100);
    let mut r = SliceReader::new(&bytes);
    let d = MomentDescriptor::read(&mut r).unwrap();
    assert_eq!(d.gate_count, 100);
    assert!((f32::from(d.range_to_first_gate_m) / 1000.0 - 2.0).abs() < 1e-6);
    assert!((f32::from(d.gate_interval_m) / 1000.0 - 0.250).abs() < 1e-6);
    assert!((f32::from(d.tover_raw) / 10.0 - 1.8).abs() < 1e-3);
    assert!((f32::from(d.snr_threshold_raw) / 8.0 - 1.0).abs() < 1e-3);
    assert_eq!(d.data_word_size_bits, 8);
    assert!((f32::from_bits(d.scale) - 2.0).abs() < 1e-6);
    assert!((f32::from_bits(d.offset) - 66.0).abs() < 1e-6);
    assert_eq!(d.word_size_bytes(), 1);
    assert_eq!(d.gate_array_bytes(), 100);
}

#[test]
fn descriptor_rejects_bad_word_size() {
    let mut bytes = descriptor_8bit(0);
    bytes[15] = 4;
    let mut r = SliceReader::new(&bytes);
    assert!(MomentDescriptor::read(&mut r).is_err());
}

#[test]
fn moment_block_decodes_gates_with_sentinels() {
    let mut bytes = descriptor_8bit(4);
    bytes.extend_from_slice(&[0, 1, 130, 2]);
    let mut r = SliceReader::new(&bytes);
    let m = MomentBlock::read(&mut r).unwrap();
    let values: Vec<MomentValue> = m.values();
    assert_eq!(values.len(), 4);
    assert_eq!(values[0], MomentValue::BelowThreshold);
    assert_eq!(values[1], MomentValue::RangeFolded);
    match values[2] {
        MomentValue::Value(raw) => {
            let v = physical(&m, raw);
            assert!((v - 32.0).abs() < 1e-6, "got {v}")
        }
        _ => panic!("expected Value, got {:?}", values[2]),
    }
    match values[3] {
        MomentValue::Value(raw) => {
            let v = physical(&m, raw);
            assert!((v - (-32.0)).abs() < 1e-6, "got {v}")
        }
        _ => panic!("expected Value, got {:?}", values[3]),
    }
}

#[test]
fn moment_block_supports_16bit_gates() {
    let mut buf = Vec::new();
    buf.extend_from_slice(&0u32.to_be_bytes());
    buf.extend_from_slice(&2u16.to_be_bytes());
    buf.extend_from_slice(&0u16.to_be_bytes());
    buf.extend_from_slice(&250u16.to_be_bytes());
    buf.extend_from_slice(&0u16.to_be_bytes());
    buf.extend_from_slice(&0_i16.to_be_bytes());
    buf.push(0);
    buf.push(16);
    buf.extend_from_slice(&1.0_f32.to_be_bytes());
    buf.extend_from_slice(&0.0_f32.to_be_bytes());
    buf.extend_from_slice(&[0x12, 0x34, 0x56, 0x78]);

    let mut r = SliceReader::new(&buf);
    let m = MomentBlock::read(&mut r).unwrap();
    let values: Vec<MomentValue> = m.values();
    assert_eq!(values.len(), 2);
    match values[0] {
        MomentValue::Value(raw) => assert!((physical(&m, raw) - 0x1234 as f32).abs() < 1e-6),
        _ => panic!(),
    }
    match values[1] {
        MomentValue::Value(raw) => assert!((physical(&m, raw) - 0x5678 as f32).abs() < 1e-6),
        _ => panic!(),
    }
}
