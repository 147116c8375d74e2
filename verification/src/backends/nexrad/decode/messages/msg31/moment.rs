//! Generic data moment block: a 24-byte descriptor and its gate words.
//!
//! | Offset | Bytes | Field                                    |
//! |-------:|------:|------------------------------------------|
//! |      0 |     4 | Reserved                                 |
//! |      4 |     2 | Number of gates                          |
//! |      6 |     2 | Range to first gate (0.001 km)           |
//! |      8 |     2 | Sample interval (0.001 km)               |
//! |     10 |     2 | TOVER (0.1 dB)                           |
//! |     12 |     2 | SNR threshold (0.125 dB)                 |
//! |     14 |     1 | Control flags                            |
//! |     15 |     1 | Data word size (8 or 16)                 |
//! |     16 |     4 | Scale (IEEE-754 single)                  |
//! |     20 |     4 | Offset (IEEE-754 single)                 |
//! |     24 |   N*W | Gate words, W = word size in bytes       |
//!
//! A gate word means: `0` below threshold, `1` range folded, otherwise the
//! physical value `(raw - offset) / scale`.

use crate::backends::nexrad::decode::error::{eof, short_read, NexradDecodeError};
use crate::backends::nexrad::decode::reader::SliceReader;
use crate::wire::{be16, be16s, be32};
use vstd::prelude::*;

verus! {

/// Wire size of the descriptor.
pub const DESCRIPTOR_SIZE: usize = 24;

/// Decoded descriptor. Scaled integers are kept as transmitted; `scale` and
/// `offset` are bit patterns of IEEE-754 singles.
#[derive(Debug, Clone, Copy, PartialEq, Eq, Structural)]
pub struct MomentDescriptor {
    pub gate_count: u16,
    /// Range to the centre of the first gate, in metres.
    pub range_to_first_gate_m: u16,
    /// Gate spacing, in metres.
    pub gate_interval_m: u16,
    /// Tenths of a decibel.
    pub tover_raw: u16,
    /// Eighths of a decibel.
    pub snr_threshold_raw: i16,
    pub control_flags: u8,
    pub data_word_size_bits: u8,
    pub scale: u32,
    pub offset: u32,
}

/// The descriptor whose 24 bytes start at `p`.
pub open spec fn descriptor_at(d: Seq<u8>, p: int) -> MomentDescriptor {
    MomentDescriptor {
        gate_count: be16(d, p + 4),
        range_to_first_gate_m: be16(d, p + 6),
        gate_interval_m: be16(d, p + 8),
        tover_raw: be16(d, p + 10),
        snr_threshold_raw: be16s(d, p + 12),
        control_flags: d[p + 14],
        data_word_size_bits: d[p + 15],
        scale: be32(d, p + 16),
        offset: be32(d, p + 20),
    }
}

/// Widths of the descriptor's fields in wire order.
pub open spec fn descriptor_widths() -> Seq<int> {
    seq![4, 2, 2, 2, 2, 2, 1, 1, 4, 4]
}

/// The error that reading a descriptor at `p` gives, if it gives one.
pub open spec fn descriptor_error(d: Seq<u8>, p: int) -> Option<NexradDecodeError> {
    if p + DESCRIPTOR_SIZE > d.len() {
        Some(short_read(descriptor_widths(), 0, p, d.len() as int))
    } else if d[p + 15] != 8 && d[p + 15] != 16 {
        Some(
            NexradDecodeError::MalformedHeader {
                offset: 0,
                reason: "MSG_31 moment data_word_size must be 8 or 16",
            },
        )
    } else {
        None
    }
}

impl MomentDescriptor {
    /// Bytes per gate word.
    pub open spec fn word_bytes(&self) -> int {
        self.data_word_size_bits as int / 8
    }

    /// Bytes that all gates take.
    pub open spec fn array_bytes(&self) -> int {
        self.gate_count * self.word_bytes()
    }

    /// Gate words are one or two bytes wide.
    pub open spec fn wf(&self) -> bool {
        self.data_word_size_bits == 8 || self.data_word_size_bits == 16
    }

    /// Parse a descriptor; word sizes other than 8 and 16 bits are refused.
    #[verifier::rlimit(40)]
    pub fn read(reader: &mut SliceReader<'_>) -> (r: Result<Self, NexradDecodeError>)
        requires
            old(reader).wf(),
        ensures
            final(reader).wf(),
            final(reader).data() == old(reader).data(),
            match r {
                Ok(m) => {
                    &&& descriptor_error(old(reader).data(), old(reader).pos()) is None
                    &&& m == descriptor_at(old(reader).data(), old(reader).pos())
                    &&& m.wf()
                    &&& final(reader).pos() == old(reader).pos() + DESCRIPTOR_SIZE
                },
                Err(e) => descriptor_error(old(reader).data(), old(reader).pos()) == Some(e),
            },
    {
        proof {
            reveal_with_fuel(short_read, 11);
        }
        let _reserved: u32 = reader.read_u32_be()?;
        let gate_count: u16 = reader.read_u16_be()?;
        let range_to_first_gate_m: u16 = reader.read_u16_be()?;
        let gate_interval_m: u16 = reader.read_u16_be()?;
        let tover_raw: u16 = reader.read_u16_be()?;
        let snr_threshold_raw: i16 = reader.read_i16_be()?;
        let control_flags: u8 = reader.read_u8()?;
        let data_word_size_bits: u8 = reader.read_u8()?;
        let scale: u32 = reader.read_f32_be()?;
        let offset: u32 = reader.read_f32_be()?;
        if data_word_size_bits != 8 && data_word_size_bits != 16 {
            return Err(
                NexradDecodeError::MalformedHeader {
                    offset: 0,
                    reason: "MSG_31 moment data_word_size must be 8 or 16",
                },
            );
        }
        Ok(
            Self {
                gate_count,
                range_to_first_gate_m,
                gate_interval_m,
                tover_raw,
                snr_threshold_raw,
                control_flags,
                data_word_size_bits,
                scale,
                offset,
            },
        )
    }

    /// Width of one gate word in bytes.
    pub fn word_size_bytes(&self) -> (n: usize)
        ensures
            n == self.word_bytes(),
            self.wf() ==> n == 1 || n == 2,
    {
        self.data_word_size_bits as usize / 8
    }

    /// Size of all gates in bytes.
    pub fn gate_array_bytes(&self) -> (n: usize)
        ensures
            n == self.array_bytes(),
    {
        let w: usize = self.word_size_bytes();
        assert(self.gate_count * w <= 0xFFFF * 31) by (nonlinear_arith)
            requires
                self.gate_count <= 0xFFFF,
                0 <= w <= 31,
        ;
        self.gate_count as usize * w
    }
}

/// One gate of a moment. A measured value is kept as its raw word; it stands
/// for `(raw - offset) / scale` of the block's descriptor.
#[derive(Debug, Clone, Copy, PartialEq, Eq, Structural)]
pub enum MomentValue {
    /// Below detection threshold (raw word 0).
    BelowThreshold,
    /// Range folded; magnitude unreliable (raw word 1).
    RangeFolded,
    /// A measured raw word.
    Value(u32),
}

/// What a raw gate word means.
pub open spec fn moment_value(raw: int) -> MomentValue {
    if raw == 0 {
        MomentValue::BelowThreshold
    } else if raw == 1 {
        MomentValue::RangeFolded
    } else {
        MomentValue::Value(raw as u32)
    }
}

/// Raw word `i` of a gate array with `width`-byte words.
pub open spec fn gate_word(bytes: Seq<u8>, width: int, i: int) -> int {
    if width == 2 {
        be16(bytes, 2 * i) as int
    } else {
        bytes[i] as int
    }
}

/// Number of whole gate words in a gate array.
pub open spec fn gate_words(bytes: Seq<u8>, width: int) -> int {
    bytes.len() as int / width
}

/// Raw word `i` of a gate array.
pub fn read_gate_word(bytes: &[u8], width: usize, i: usize) -> (raw: u32)
    requires
        width == 1 || width == 2,
        i < gate_words(bytes@, width as int),
    ensures
        raw == gate_word(bytes@, width as int, i as int),
        raw <= 0xFFFF,
        width == 1 ==> raw <= 0xFF,
{
    let len: usize = bytes.len();
    if width == 2 {
        assert(i < len as int / 2);
        bytes[2 * i] as u32 * 0x100 + bytes[2 * i + 1] as u32
    } else {
        assert(i < len as int / 1);
        bytes[i] as u32
    }
}

/// Decoded moment block: descriptor and borrowed gate bytes.
#[derive(Debug, Clone, Copy)]
pub struct MomentBlock<'a> {
    pub descriptor: MomentDescriptor,
    pub gate_bytes: &'a [u8],
}

/// Outcome of reading a moment block at `p`: the offset behind it.
pub open spec fn moment_block_outcome(d: Seq<u8>, p: int) -> Result<int, NexradDecodeError> {
    let start = p + DESCRIPTOR_SIZE;
    match descriptor_error(d, p) {
        Some(e) => Err(e),
        None => if start + descriptor_at(d, p).array_bytes() > d.len() {
            Err(eof(start, descriptor_at(d, p).array_bytes(), d.len() as int))
        } else {
            Ok(start + descriptor_at(d, p).array_bytes())
        },
    }
}

/// Gate bytes of a moment block at `p`.
pub open spec fn gate_bytes_at(d: Seq<u8>, p: int) -> Seq<u8> {
    d.subrange(
        p + DESCRIPTOR_SIZE,
        p + DESCRIPTOR_SIZE + descriptor_at(d, p).array_bytes(),
    )
}

impl<'a> MomentBlock<'a> {
    /// `self` is what the bytes at `p` encode.
    pub open spec fn is_at(&self, d: Seq<u8>, p: int) -> bool {
        &&& self.descriptor == descriptor_at(d, p)
        &&& self.gate_bytes@ == gate_bytes_at(d, p)
    }

    /// Parse a descriptor and as many gates as it announces.
    pub fn read(reader: &mut SliceReader<'a>) -> (r: Result<Self, NexradDecodeError>)
        requires
            old(reader).wf(),
        ensures
            final(reader).wf(),
            final(reader).data() == old(reader).data(),
            match r {
                Ok(m) => {
                    &&& m.is_at(old(reader).data(), old(reader).pos())
                    &&& m.descriptor.wf()
                    &&& m.gate_bytes@.len() == m.descriptor.array_bytes()
                    &&& moment_block_outcome(old(reader).data(), old(reader).pos()) == Ok::<
                        int,
                        NexradDecodeError,
                    >(final(reader).pos())
                },
                Err(e) => moment_block_outcome(old(reader).data(), old(reader).pos()) == Err::<
                    int,
                    NexradDecodeError,
                >(e),
            },
    {
        let descriptor = MomentDescriptor::read(reader)?;
        let gate_bytes = reader.take_bytes(descriptor.gate_array_bytes())?;
        Ok(Self { descriptor, gate_bytes })
    }

    /// The decoded gates, in order.
    pub fn values(&self) -> (v: Vec<MomentValue>)
        requires
            self.descriptor.wf(),
        ensures
            v@ == moment_values(self.gate_bytes@, self.descriptor.word_bytes()),
    {
        decode_moment_values(self.gate_bytes, self.descriptor.word_size_bytes())
    }
}

/// The gates that a gate array encodes.
pub open spec fn moment_values(bytes: Seq<u8>, width: int) -> Seq<MomentValue> {
    Seq::new(gate_words(bytes, width) as nat, |i: int| moment_value(gate_word(bytes, width, i)))
}

/// Decode a whole gate array.
pub fn decode_moment_values(bytes: &[u8], width: usize) -> (v: Vec<MomentValue>)
    requires
        width == 1 || width == 2,
    ensures
        v@ == moment_values(bytes@, width as int),
{
    let n: usize = bytes.len() / width;
    let mut v: Vec<MomentValue> = Vec::with_capacity(n);
    let mut i: usize = 0;
    while i < n
        invariant
            i <= n,
            n == gate_words(bytes@, width as int),
            width == 1 || width == 2,
            v@.len() == i,
            forall|j: int|
                0 <= j < i ==> v@[j] == moment_value(gate_word(bytes@, width as int, j)),
        decreases n - i,
    {
        let raw: u32 = read_gate_word(bytes, width, i);
        v.push(
            match raw {
                0 => MomentValue::BelowThreshold,
                1 => MomentValue::RangeFolded,
                n => MomentValue::Value(n),
            },
        );
        i += 1;
    }
    assert(v@ =~= moment_values(bytes@, width as int));
    v
}

/// Gates come in the order of their range, one byte or two each, and of two the
/// first weighs 256.
pub proof fn gate_words_are_big_endian(bytes: Seq<u8>, i: int)
    requires
        i >= 0,
    ensures
        gate_words(bytes, 1) == bytes.len(),
        gate_word(bytes, 1, i) == bytes[i],
        2 * gate_words(bytes, 2) <= bytes.len() <= 2 * gate_words(bytes, 2) + 1,
        gate_word(bytes, 2, i) == bytes[2 * i] * 256 + bytes[2 * i + 1],
{
}

/// A word stands for a measurement unless it is 0, below threshold, or 1, range
/// folded.
pub proof fn words_from_two_on_are_measurements(raw: int)
    requires
        0 <= raw <= 0xFFFF,
    ensures
        moment_value(raw) is BelowThreshold <==> raw == 0,
        moment_value(raw) is RangeFolded <==> raw == 1,
        raw >= 2 <==> (moment_value(raw) matches MomentValue::Value(v) && v == raw),
{
}

/// The fields of a moment block stand at fixed places of its first 24 bytes.
pub proof fn descriptors_have_their_fields_in_order(d: Seq<u8>, p: int)
    ensures
        ({
            let m = descriptor_at(d, p);
            &&& m.gate_count == be16(d, p + 4)
            &&& m.range_to_first_gate_m == be16(d, p + 6)
            &&& m.gate_interval_m == be16(d, p + 8)
            &&& m.tover_raw == be16(d, p + 10)
            &&& m.snr_threshold_raw == be16s(d, p + 12)
            &&& m.control_flags == d[p + 14]
            &&& m.data_word_size_bits == d[p + 15]
            &&& m.scale == be32(d, p + 16)
            &&& m.offset == be32(d, p + 20)
        }),
{
}

/// A moment block is accepted if its words are 8 or 16 bits wide and all of its
/// gates are there; they end it.
pub proof fn moment_blocks_hold_all_their_gates(d: Seq<u8>, p: int)
    requires
        p >= 0,
    ensures
        ({
            let (count, bits) = (be16(d, p + 4) as int, d[p + 15]);
            let end = p + 24 + count * (bits as int / 8);
            let fits = p + 24 <= d.len() && (bits == 8 || bits == 16) && end <= d.len();
            &&& moment_block_outcome(d, p) is Ok <==> fits
            &&& fits ==> moment_block_outcome(d, p)->Ok_0 == end
            &&& fits ==> gate_bytes_at(d, p) == d.subrange(p + 24, end)
        }),
{
}

/// The values of a gate array are those of its words, gate for gate.
pub proof fn values_are_those_of_the_words(bytes: Seq<u8>, i: int)
    ensures
        moment_values(bytes, 1).len() == bytes.len(),
        moment_values(bytes, 2).len() == bytes.len() as int / 2,
        0 <= i < bytes.len() ==> (moment_values(bytes, 1)[i] matches MomentValue::Value(v) ==> v
            == bytes[i] && v >= 2),
        0 <= i < bytes.len() as int / 2 ==> (moment_values(bytes, 2)[i] matches MomentValue::Value(
            v,
        ) ==> v == bytes[2 * i] * 256 + bytes[2 * i + 1] && v >= 2),
        0 <= i < bytes.len() && bytes[i] >= 2 ==> moment_values(bytes, 1)[i] is Value,
{
}

} // verus!
