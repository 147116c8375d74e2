use radish::backends::nexrad::decode::messages::msg31::header::{POINTER_COUNT, PTR_ELV, PTR_REF, TOTAL_HEADER_SIZE};
use radish::backends::nexrad::decode::messages::msg31::moment::MomentValue;
use radish::backends::nexrad::decode::messages::msg31::parse;
use radish::backends::nexrad::decode::reader::SliceReader;

fn synth_msg31_with_ref_only(num_gates: u16) -> Vec<u8> {
    let header_offset = 0usize;
    let ref_offset = TOTAL_HEADER_SIZE;
    let mut buf = Vec::new();

    buf.extend_from_slice(b"KLOT");
    buf.extend_from_slice(&0u32.to_be_bytes());
    buf.extend_from_slice(&20_405u16.to_be_bytes());
    buf.extend_from_slice(&1u16.to_be_bytes());
    buf.extend_from_slice(&0.5_f32.to_be_bytes());
    buf.push(0);
    buf.push(0);
    buf.extend_from_slice(
        &((TOTAL_HEADER_SIZE + 4 + 24 + num_gates as usize) as u16).to_be_bytes(),
    );
    buf.push(2);
    buf.push(1);
    buf.push(1);
    buf.push(0);
    buf.extend_from_slice(&0.5_f32.to_be_bytes());
    buf.push(0);
    buf.push(0);
    buf.extend_from_slice(&4u16.to_be_bytes());

    for idx in 0..POINTER_COUNT {
        let ptr = if idx == PTR_REF { ref_offset as u32 } else { 0 };
        buf.extend_from_slice(&ptr.to_be_bytes());
    }
    assert_eq!(buf.len(), TOTAL_HEADER_SIZE);

    buf.extend_from_slice(b"DREF");
    buf.extend_from_slice(&0u32.to_be_bytes());
    buf.extend_from_slice(&num_gates.to_be_bytes());
    buf.extend_from_slice(&2_000u16.to_be_bytes());
    buf.extend_from_slice(&250u16.to_be_bytes());
    buf.extend_from_slice(&0u16.to_be_bytes());
    buf.extend_from_slice(&0_i16.to_be_bytes());
    buf.push(0);
    buf.push(8);
    buf.extend_from_slice(&2.0_f32.to_be_bytes());
    buf.extend_from_slice(&66.0_f32.to_be_bytes());
    for n in 0..num_gates {
        buf.push((2 + n) as u8);
    }
    assert_eq!(buf.len(), TOTAL_HEADER_SIZE + 4 + 24 + num_gates as usize);
    let _ = header_offset;
    buf
}

#[test]
fn parse_msg31_with_ref_only_yields_no_other_blocks() {
    let bytes = synth_msg31_with_ref_only(8);
    let mut r = SliceReader::new(&bytes);
    let msg = parse(&mut r, 0).expect("parse");
    assert_eq!(&msg.header.radar_identifier, b"KLOT");
    assert!(msg.reflectivity.is_some());
    assert!(msg.velocity.is_none());
    assert!(msg.volume.is_none());
    assert!(msg.cfp.is_none());

    let ref_block = msg.reflectivity.unwrap();
    let scale = f32::from_bits(ref_block.descriptor.scale);
    let offset = f32::from_bits(ref_block.descriptor.offset);
    let values: Vec<_> = ref_block.values();
    assert_eq!(values.len(), 8);
    for (i, v) in values.iter().enumerate() {
        match v {
            MomentValue::Value(raw) => {
                let x = (*raw as f32 - offset) / scale;
                let expected = (2.0 + i as f32 - 66.0) / 2.0;
                assert!((x - expected).abs() < 1e-6, "gate {i}: {x} vs {expected}");
            }
            other => panic!("gate {i}: expected Value, got {other:?}"),
        }
    }
}

#[test]
fn parse_handles_pointers_in_arbitrary_order() {
    let header_offset = 0usize;

    let elv_offset = TOTAL_HEADER_SIZE;
    let ref_offset = elv_offset + 4 + 8;

    let mut buf = Vec::new();
    buf.extend_from_slice(b"KLOT");
    buf.extend_from_slice(&0u32.to_be_bytes());
    buf.extend_from_slice(&0u16.to_be_bytes());
    buf.extend_from_slice(&1u16.to_be_bytes());
    buf.extend_from_slice(&0_f32.to_be_bytes());
    buf.push(0);
    buf.push(0);
    buf.extend_from_slice(&500u16.to_be_bytes());
    buf.push(2);
    buf.push(1);
    buf.push(1);
    buf.push(0);
    buf.extend_from_slice(&0_f32.to_be_bytes());
    buf.push(0);
    buf.push(0);
    buf.extend_from_slice(&5u16.to_be_bytes());
    for idx in 0..POINTER_COUNT {
        let ptr = match idx {
            PTR_ELV => elv_offset as u32,
            PTR_REF => ref_offset as u32,
            _ => 0,
        };
        buf.extend_from_slice(&ptr.to_be_bytes());
    }

    buf.extend_from_slice(b"DELV");
    buf.extend_from_slice(&12u16.to_be_bytes());
    buf.extend_from_slice(&(-15_i16).to_be_bytes());
    buf.extend_from_slice(&36.0_f32.to_be_bytes());

    buf.extend_from_slice(b"DREF");
    buf.extend_from_slice(&0u32.to_be_bytes());
    buf.extend_from_slice(&4u16.to_be_bytes());
    buf.extend_from_slice(&2_000u16.to_be_bytes());
    buf.extend_from_slice(&250u16.to_be_bytes());
    buf.extend_from_slice(&0u16.to_be_bytes());
    buf.extend_from_slice(&0_i16.to_be_bytes());
    buf.push(0);
    buf.push(8);
    buf.extend_from_slice(&2.0_f32.to_be_bytes());
    buf.extend_from_slice(&66.0_f32.to_be_bytes());
    buf.extend_from_slice(&[2, 3, 4, 5]);

    let mut r = SliceReader::new(&buf);
    let msg = parse(&mut r, header_offset).expect("parse");
    assert!(msg.elevation.is_some(), "ELV pointer was non-zero");
    assert!(msg.reflectivity.is_some(), "REF pointer was non-zero");
    let e = msg.elevation.unwrap();
    assert_eq!(e.lrtup, 12);
    assert!((f32::from(e.atmospheric_attenuation_raw) / 1000.0 - (-0.015)).abs() < 1e-6);
}
