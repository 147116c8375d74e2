//! NEXRAD message header: 28 bytes on the wire.
//!
//! A 12-byte TCM prefix (zero-filled in archive files) is followed by the
//! 16-byte logical header:
//!
//! | Offset | Bytes | Field                                          |
//! |-------:|------:|------------------------------------------------|
//! |     12 |     2 | Message Size (halfwords; `0xFFFF` = sentinel)  |
//! |     14 |     1 | RDA Redundant Channel                          |
//! |     15 |     1 | Message Type                                   |
//! |  16-17 |     2 | I.D. Sequence Number                           |
//! |  18-19 |     2 | Modified Julian Date                           |
//! |  20-23 |     4 | Milliseconds of Day                            |
//! |  24-25 |     2 | Number of Message Segments                     |
//! |  26-27 |     2 | Message Segment Number                         |
//!
//! When the size is the sentinel, the last two halfwords hold a 32-bit byte
//! count instead and the message is a single segment of variable length.

use crate::backends::nexrad::decode::error::{short_read, NexradDecodeError};
use crate::backends::nexrad::decode::reader::SliceReader;
use crate::text::{decimal, push_decimal, push_text};
use crate::wire::{be16, be32, integers_are_big_endian};
use vstd::prelude::*;

verus! {

/// Combined width of the TCM prefix and the logical header.
pub const SIZE: usize = 28;

/// Width of the TCM prefix.
pub const TCM_PREFIX_SIZE: usize = 12;

/// Width of the logical header.
pub const LOGICAL_HEADER_SIZE: usize = 16;

/// Width of the wire frame that holds one segment of a fixed-segment message,
/// padding counted.
pub const SEGMENT_FRAME_SIZE: usize = 2432;

/// Message Size value that announces the variable-length encoding.
pub const VARIABLE_LENGTH_MESSAGE_SIZE: u16 = 0xFFFF;

/// Message types by what the decoder does with them.
#[derive(Debug, Clone, Copy, PartialEq, Eq, Structural)]
pub enum MessageType {
    /// Type 1: legacy radial data.
    DigitalRadarDataLegacy,
    /// Type 2: RDA status data.
    RdaStatusData,
    /// Type 5: volume coverage pattern.
    VolumeCoveragePattern,
    /// Type 15: clutter filter map.
    ClutterFilterMap,
    /// Type 18: RDA adaptation data.
    RdaAdaptationData,
    /// Type 31: generic-format radial data, always variable-length.
    DigitalRadarDataGenericFormat,
    /// Anything else, walked past by its declared size.
    Skip(u8),
}

/// The message type of a type byte.
pub open spec fn message_type(code: u8) -> MessageType {
    if code == 1 {
        MessageType::DigitalRadarDataLegacy
    } else if code == 2 {
        MessageType::RdaStatusData
    } else if code == 5 {
        MessageType::VolumeCoveragePattern
    } else if code == 15 {
        MessageType::ClutterFilterMap
    } else if code == 18 {
        MessageType::RdaAdaptationData
    } else if code == 31 {
        MessageType::DigitalRadarDataGenericFormat
    } else {
        MessageType::Skip(code)
    }
}

impl MessageType {
    /// The message type of a type byte. Every byte has one.
    pub fn from_u8(code: u8) -> (t: Self)
        ensures
            t == message_type(code),
    {
        match code {
            1 => Self::DigitalRadarDataLegacy,
            2 => Self::RdaStatusData,
            5 => Self::VolumeCoveragePattern,
            15 => Self::ClutterFilterMap,
            18 => Self::RdaAdaptationData,
            31 => Self::DigitalRadarDataGenericFormat,
            other => Self::Skip(other),
        }
    }

    /// What the type is called in diagnostics.
    pub open spec fn label(self) -> Seq<char> {
        match self {
            MessageType::DigitalRadarDataLegacy => "MSG_1 (legacy radial)"@,
            MessageType::RdaStatusData => "MSG_2 (RDA status)"@,
            MessageType::VolumeCoveragePattern => "MSG_5 (VCP)"@,
            MessageType::ClutterFilterMap => "MSG_15 (clutter filter map)"@,
            MessageType::RdaAdaptationData => "MSG_18 (RDA adaptation)"@,
            MessageType::DigitalRadarDataGenericFormat => "MSG_31 (generic radial)"@,
            MessageType::Skip(code) => "MSG_"@ + decimal(code as nat) + " (skipped)"@,
        }
    }

    /// What the type is called in diagnostics.
    pub fn text(&self) -> (s: String)
        ensures
            s@ == self.label(),
    {
        match self {
            Self::DigitalRadarDataLegacy => "MSG_1 (legacy radial)".to_owned(),
            Self::RdaStatusData => "MSG_2 (RDA status)".to_owned(),
            Self::VolumeCoveragePattern => "MSG_5 (VCP)".to_owned(),
            Self::ClutterFilterMap => "MSG_15 (clutter filter map)".to_owned(),
            Self::RdaAdaptationData => "MSG_18 (RDA adaptation)".to_owned(),
            Self::DigitalRadarDataGenericFormat => "MSG_31 (generic radial)".to_owned(),
            Self::Skip(code) => {
                let mut s = "MSG_".to_owned();
                push_decimal(&mut s, *code as u64);
                push_text(&mut s, " (skipped)");
                s
            },
        }
    }
}

/// Decoded message header. The TCM prefix is read past and not kept.
#[derive(Debug, Clone, Copy, PartialEq, Eq, Structural)]
pub struct MessageHeader {
    /// Raw Message Size in halfwords; see [`MessageHeader::message_size_bytes`].
    pub message_size_halfwords: u16,
    pub channel: u8,
    pub message_type: MessageType,
    pub sequence_number: u16,
    pub julian_date: u16,
    pub milliseconds: u32,
    pub segment_count: u16,
    pub segment_number: u16,
}

/// The header whose 28 bytes start at `p`.
pub open spec fn header_at(d: Seq<u8>, p: int) -> MessageHeader {
    MessageHeader {
        message_size_halfwords: be16(d, p + 12),
        channel: d[p + 14],
        message_type: message_type(d[p + 15]),
        sequence_number: be16(d, p + 16),
        julian_date: be16(d, p + 18),
        milliseconds: be32(d, p + 20),
        segment_count: be16(d, p + 24),
        segment_number: be16(d, p + 26),
    }
}

/// Widths of the header's pieces in the order in which they are read.
pub open spec fn header_widths() -> Seq<int> {
    seq![12, 2, 1, 1, 2, 2, 4, 2, 2]
}

impl MessageHeader {
    /// The declared size of the message in bytes: logical header and payload,
    /// without the TCM prefix.
    pub open spec fn size_bytes(&self) -> int {
        if self.message_size_halfwords < VARIABLE_LENGTH_MESSAGE_SIZE {
            self.message_size_halfwords * 2
        } else {
            self.segment_count * 0x1_0000 + self.segment_number
        }
    }

    /// Whether the message is carried in fixed frames.
    pub open spec fn is_segmented(&self) -> bool {
        self.message_size_halfwords < VARIABLE_LENGTH_MESSAGE_SIZE && self.message_type
            != MessageType::DigitalRadarDataGenericFormat
    }

    /// Read one header and leave the cursor behind it.
    pub fn read(reader: &mut SliceReader<'_>) -> (r: Result<Self, NexradDecodeError>)
        requires
            old(reader).wf(),
        ensures
            final(reader).wf(),
            final(reader).data() == old(reader).data(),
            match r {
                Ok(h) => {
                    &&& old(reader).pos() + SIZE <= old(reader).data().len()
                    &&& h == header_at(old(reader).data(), old(reader).pos())
                    &&& final(reader).pos() == old(reader).pos() + SIZE
                },
                Err(e) => {
                    &&& old(reader).pos() + SIZE > old(reader).data().len()
                    &&& e == short_read(
                        header_widths(),
                        0,
                        old(reader).pos(),
                        old(reader).data().len() as int,
                    )
                },
            },
    {
        proof {
            reveal_with_fuel(short_read, 10);
        }
        reader.advance(TCM_PREFIX_SIZE)?;
        let message_size_halfwords: u16 = reader.read_u16_be()?;
        let channel: u8 = reader.read_u8()?;
        let type_byte: u8 = reader.read_u8()?;
        let message_type = MessageType::from_u8(type_byte);
        let sequence_number: u16 = reader.read_u16_be()?;
        let julian_date: u16 = reader.read_u16_be()?;
        let milliseconds: u32 = reader.read_u32_be()?;
        let segment_count: u16 = reader.read_u16_be()?;
        let segment_number: u16 = reader.read_u16_be()?;
        Ok(
            Self {
                message_size_halfwords,
                channel,
                message_type,
                sequence_number,
                julian_date,
                milliseconds,
                segment_count,
                segment_number,
            },
        )
    }

    /// Logical message size in bytes: the 16-byte logical header plus payload,
    /// not counting the TCM prefix. With the sentinel in the size field the
    /// segment count and number are the halves of a 32-bit byte count.
    pub fn message_size_bytes(&self) -> (n: usize)
        ensures
            n == self.size_bytes(),
            n <= u32::MAX,
    {
        if self.message_size_halfwords < VARIABLE_LENGTH_MESSAGE_SIZE {
            self.message_size_halfwords as usize * 2
        } else {
            let n: u32 = self.segment_count as u32 * 0x1_0000 + self.segment_number as u32;
            n as usize
        }
    }

    /// Whether this message uses fixed-segment framing. A generic-format
    /// radial never does, whatever its size field holds.
    pub fn segmented(&self) -> (b: bool)
        ensures
            b == self.is_segmented(),
    {
        self.message_size_halfwords < VARIABLE_LENGTH_MESSAGE_SIZE && self.message_type
            != MessageType::DigitalRadarDataGenericFormat
    }
}

/// The fields of a header stand behind a prefix of 12 bytes. Its size counts
/// halfwords, unless all bits of it are set: then the last four bytes count
/// bytes.
pub proof fn headers_stand_behind_the_prefix(d: Seq<u8>, p: int)
    ensures
        ({
            let h = header_at(d, p);
            &&& h.message_size_halfwords == be16(d, p + 12)
            &&& h.channel == d[p + 14]
            &&& h.sequence_number == be16(d, p + 16)
            &&& h.julian_date == be16(d, p + 18)
            &&& h.milliseconds == be32(d, p + 20)
            &&& h.segment_count == be16(d, p + 24)
            &&& h.segment_number == be16(d, p + 26)
            &&& be16(d, p + 12) == 65535 ==> h.size_bytes() == be32(d, p + 24)
            &&& be16(d, p + 12) != 65535 ==> h.size_bytes() == 2 * be16(d, p + 12)
            &&& h.is_segmented() <==> be16(d, p + 12) != 65535 && d[p + 15] != 31
        }),
{
    integers_are_big_endian(d, p + 24);
}

/// Types 1, 2, 5, 15, 18 and 31 are told apart, and every other one is skipped
/// under its number.
pub proof fn message_types_go_by_their_numbers(code: u8)
    ensures
        ({
            let t = message_type(code);
            &&& t == MessageType::DigitalRadarDataLegacy <==> code == 1
            &&& t == MessageType::RdaStatusData <==> code == 2
            &&& t == MessageType::VolumeCoveragePattern <==> code == 5
            &&& t == MessageType::ClutterFilterMap <==> code == 15
            &&& t == MessageType::RdaAdaptationData <==> code == 18
            &&& t == MessageType::DigitalRadarDataGenericFormat <==> code == 31
            &&& t matches MessageType::Skip(n) ==> n == code
        }),
{
}

/// A message is called by `MSG_` and its type number.
pub proof fn labels_begin_with_the_type_number(code: u8)
    ensures
        ({
            let head = "MSG_"@ + decimal(code as nat);
            let label = message_type(code).label();
            &&& label.len() > head.len()
            &&& label.take(head.len() as int) == head
            &&& label[head.len() as int] == ' '
        }),
{
    reveal_with_fuel(decimal, 3);
    reveal_strlit("MSG_");
    reveal_strlit("MSG_1 (legacy radial)");
    reveal_strlit("MSG_2 (RDA status)");
    reveal_strlit("MSG_5 (VCP)");
    reveal_strlit("MSG_15 (clutter filter map)");
    reveal_strlit("MSG_18 (RDA adaptation)");
    reveal_strlit("MSG_31 (generic radial)");
    reveal_strlit(" (skipped)");
    let head = "MSG_"@ + decimal(code as nat);
    let label = message_type(code).label();
    assert(label.take(head.len() as int) =~= head);
}

} // verus!
