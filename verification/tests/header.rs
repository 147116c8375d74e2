use radish::backends::nexrad::decode::header::{
    MessageHeader, MessageType, SIZE, VARIABLE_LENGTH_MESSAGE_SIZE,
};
use radish::backends::nexrad::decode::reader::SliceReader;

fn synth(type_byte: u8, halfwords: u16, segment_count: u16, segment_number: u16) -> [u8; 28] {
    let mut bytes = [0u8; 28];
    bytes[12..14].copy_from_slice(&halfwords.to_be_bytes());
    bytes[14] = 0;
    bytes[15] = type_byte;
    bytes[24..26].copy_from_slice(&segment_count.to_be_bytes());
    bytes[26..28].copy_from_slice(&segment_number.to_be_bytes());
    bytes
}

#[test]
fn message_size_bytes_doubles_halfwords_on_normal_path() {
    let bytes = synth(31, 100, 0, 1);
    let mut r = SliceReader::new(&bytes);
    let h = MessageHeader::read(&mut r).unwrap();
    assert_eq!(h.message_size_bytes(), 200);
}

#[test]
fn message_size_bytes_uses_extended_encoding_at_sentinel() {
    let bytes = synth(31, VARIABLE_LENGTH_MESSAGE_SIZE, 0x0001, 0x2000);
    let mut r = SliceReader::new(&bytes);
    let h = MessageHeader::read(&mut r).unwrap();
    assert_eq!(h.message_size_bytes(), 0x00012000);
}

#[test]
fn message_type_dispatch_matches_icd_table_i() {
    let cases = [
        (1u8, MessageType::DigitalRadarDataLegacy),
        (2, MessageType::RdaStatusData),
        (5, MessageType::VolumeCoveragePattern),
        (15, MessageType::ClutterFilterMap),
        (18, MessageType::RdaAdaptationData),
        (31, MessageType::DigitalRadarDataGenericFormat),
        (0, MessageType::Skip(0)),
        (3, MessageType::Skip(3)),
        (255, MessageType::Skip(255)),
    ];
    for (code, expected) in cases {
        assert_eq!(MessageType::from_u8(code), expected, "code {code}");
    }
}

#[test]
fn segmented_distinguishes_msg31_and_sentinel() {
    let segmented_for = |type_byte: u8, halfwords: u16, sc: u16, sn: u16| {
        let bytes = synth(type_byte, halfwords, sc, sn);
        let mut r = SliceReader::new(&bytes);
        MessageHeader::read(&mut r).unwrap().segmented()
    };

    assert!(!segmented_for(31, 100, 0, 1));

    assert!(segmented_for(2, 100, 0, 1));
    assert!(!segmented_for(2, VARIABLE_LENGTH_MESSAGE_SIZE, 0, 100));
    assert!(segmented_for(5, 100, 0, 1));
    assert!(segmented_for(15, 100, 0, 1));

    assert!(segmented_for(99, 100, 0, 1));
    assert!(!segmented_for(99, VARIABLE_LENGTH_MESSAGE_SIZE, 0, 50));
}

#[test]
fn read_consumes_exactly_28_bytes() {
    let bytes = synth(31, 100, 0, 1);
    let mut r = SliceReader::new(&bytes);
    let _ = MessageHeader::read(&mut r).unwrap();
    assert_eq!(r.position(), SIZE);
}

#[test]
fn header_read_errors_on_short_input() {
    let bytes = synth(31, 100, 0, 1);
    let mut r = SliceReader::new(&bytes[..16]);
    assert!(MessageHeader::read(&mut r).is_err());
}

#[test]
fn read_decodes_klot_record_0_msg15_header() {
    let mut bytes = [0u8; 28];
    bytes[12..28].copy_from_slice(&[
        0x04, 0xB8, 0x08, 0x0F, 0x78, 0xA8, 0x4F, 0xD1, 0x00, 0x5C, 0x4F, 0x0A, 0x00, 0x05,
        0x00, 0x01,
    ]);
    let mut r = SliceReader::new(&bytes);
    let h = MessageHeader::read(&mut r).unwrap();
    assert_eq!(h.message_size_halfwords, 0x04B8);
    assert_eq!(h.message_size_bytes(), 0x04B8 * 2);
    assert_eq!(h.channel, 0x08);
    assert_eq!(h.message_type, MessageType::ClutterFilterMap);
    assert_eq!(h.segment_count, 5);
    assert_eq!(h.segment_number, 1);
    assert!(h.segmented(), "MSG_15 should be fixed-frame");
}
