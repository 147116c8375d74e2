use radish::backends::nexrad::decode::messages::msg31::cfp::{CfpBlock, CfpValue};
use radish::backends::nexrad::decode::reader::SliceReader;

fn cfp_bytes(gates: &[u8]) -> Vec<u8> {
    let mut buf = Vec::new();
    buf.extend_from_slice(&0u32.to_be_bytes());
    buf.extend_from_slice(&(gates.len() as u16).to_be_bytes());
    buf.extend_from_slice(&0u16.to_be_bytes());
    buf.extend_from_slice(&250u16.to_be_bytes());
    buf.extend_from_slice(&0u16.to_be_bytes());
    buf.extend_from_slice(&0_i16.to_be_bytes());
    buf.push(0);
    buf.push(8);
    buf.extend_from_slice(&2.0_f32.to_be_bytes());
    buf.extend_from_slice(&0.0_f32.to_be_bytes());
    buf.extend_from_slice(gates);
    buf
}

#[test]
fn cfp_decodes_status_codes_and_power_values() {
    let bytes = cfp_bytes(&[0, 1, 2, 4, 10]);
    let mut r = SliceReader::new(&bytes);
    let block = CfpBlock::read(&mut r).unwrap();
    let values: Vec<CfpValue> = block.values();
    let physical = |raw: u32| {
        (raw as f32 - f32::from_bits(block.descriptor.offset))
            / f32::from_bits(block.descriptor.scale)
    };
    assert_eq!(values.len(), 5);
    assert_eq!(values[0], CfpValue::FilterNotApplied);
    assert_eq!(values[1], CfpValue::PointClutterFilterApplied);
    assert_eq!(values[2], CfpValue::CensorPulsesApplied);
    match values[3] {
        CfpValue::PowerDb(raw) => assert!((physical(raw) - 2.0).abs() < 1e-6),
        _ => panic!("expected PowerDb, got {:?}", values[3]),
    }
    match values[4] {
        CfpValue::PowerDb(raw) => assert!((physical(raw) - 5.0).abs() < 1e-6),
        _ => panic!("expected PowerDb, got {:?}", values[4]),
    }
}
