//! Clutter Filter Power block: the generic moment layout with values of its
//! own meaning.
//!
//! | Raw word | Meaning                                       |
//! |---------:|-----------------------------------------------|
//! |        0 | Filter not applied                            |
//! |        1 | Point clutter filter applied                  |
//! |        2 | Censor pulses applied                         |
//! |       3+ | Power level, `(raw - offset) / scale` (dB)    |

use crate::backends::nexrad::decode::error::NexradDecodeError;
use crate::backends::nexrad::decode::messages::msg31::moment::{
    descriptor_at, gate_bytes_at, gate_word, gate_words, moment_block_outcome, read_gate_word,
    MomentBlock, MomentDescriptor,
};
use crate::backends::nexrad::decode::reader::SliceReader;
use vstd::prelude::*;

verus! {

/// One gate of a clutter filter power block. A power level is kept as its raw
/// word; it stands for `(raw - offset) / scale` of the block's descriptor.
#[derive(Debug, Clone, Copy, PartialEq, Eq, Structural)]
pub enum CfpValue {
    /// Raw word 0.
    FilterNotApplied,
    /// Raw word 1.
    PointClutterFilterApplied,
    /// Raw word 2.
    CensorPulsesApplied,
    /// Raw word 3 or more.
    PowerDb(u32),
}

/// What a raw clutter filter word means.
pub open spec fn cfp_value(raw: int) -> CfpValue {
    if raw == 0 {
        CfpValue::FilterNotApplied
    } else if raw == 1 {
        CfpValue::PointClutterFilterApplied
    } else if raw == 2 {
        CfpValue::CensorPulsesApplied
    } else {
        CfpValue::PowerDb(raw as u32)
    }
}

/// The gates that a clutter filter array encodes.
pub open spec fn cfp_values(bytes: Seq<u8>, width: int) -> Seq<CfpValue> {
    Seq::new(gate_words(bytes, width) as nat, |i: int| cfp_value(gate_word(bytes, width, i)))
}

/// Decoded clutter filter power block.
#[derive(Debug, Clone, Copy)]
pub struct CfpBlock<'a> {
    pub descriptor: MomentDescriptor,
    pub gate_bytes: &'a [u8],
}

impl<'a> CfpBlock<'a> {
    /// `self` is what the bytes at `p` encode.
    pub open spec fn is_at(&self, d: Seq<u8>, p: int) -> bool {
        &&& self.descriptor == descriptor_at(d, p)
        &&& self.gate_bytes@ == gate_bytes_at(d, p)
    }

    /// Parse a block; the layout is that of a moment block.
    pub fn read(reader: &mut SliceReader<'a>) -> (r: Result<Self, NexradDecodeError>)
        requires
            old(reader).wf(),
        ensures
            final(reader).wf(),
            final(reader).data() == old(reader).data(),
            match r {
                Ok(m) => {
                    &&& m.is_at(old(reader).data(), old(reader).pos())
                    &&& m.descriptor.wf()
                    &&& m.gate_bytes@.len() == m.descriptor.array_bytes()
                    &&& moment_block_outcome(old(reader).data(), old(reader).pos()) == Ok::<
                        int,
                        NexradDecodeError,
                    >(final(reader).pos())
                },
                Err(e) => moment_block_outcome(old(reader).data(), old(reader).pos()) == Err::<
                    int,
                    NexradDecodeError,
                >(e),
            },
    {
        let inner = MomentBlock::read(reader)?;
        Ok(Self { descriptor: inner.descriptor, gate_bytes: inner.gate_bytes })
    }

    /// The decoded gates, in order.
    pub fn values(&self) -> (v: Vec<CfpValue>)
        requires
            self.descriptor.wf(),
        ensures
            v@ == cfp_values(self.gate_bytes@, self.descriptor.word_bytes()),
    {
        decode_cfp_values(self.gate_bytes, self.descriptor.word_size_bytes())
    }
}

/// Decode a whole clutter filter array.
pub fn decode_cfp_values(bytes: &[u8], width: usize) -> (v: Vec<CfpValue>)
    requires
        width == 1 || width == 2,
    ensures
        v@ == cfp_values(bytes@, width as int),
{
    let n: usize = bytes.len() / width;
    let mut v: Vec<CfpValue> = Vec::with_capacity(n);
    let mut i: usize = 0;
    while i < n
        invariant
            i <= n,
            n == gate_words(bytes@, width as int),
            width == 1 || width == 2,
            v@.len() == i,
            forall|j: int| 0 <= j < i ==> v@[j] == cfp_value(gate_word(bytes@, width as int, j)),
        decreases n - i,
    {
        let raw: u32 = read_gate_word(bytes, width, i);
        v.push(
            match raw {
                0 => CfpValue::FilterNotApplied,
                1 => CfpValue::PointClutterFilterApplied,
                2 => CfpValue::CensorPulsesApplied,
                n => CfpValue::PowerDb(n),
            },
        );
        i += 1;
    }
    assert(v@ =~= cfp_values(bytes@, width as int));
    v
}

/// A clutter filter word stands for a power level unless it is one of the three
/// states: 0, no filter; 1, a point clutter filter; 2, censored pulses.
pub proof fn words_from_three_on_are_power_levels(raw: int)
    requires
        0 <= raw <= 0xFFFF,
    ensures
        cfp_value(raw) is FilterNotApplied <==> raw == 0,
        cfp_value(raw) is PointClutterFilterApplied <==> raw == 1,
        cfp_value(raw) is CensorPulsesApplied <==> raw == 2,
        raw >= 3 <==> (cfp_value(raw) matches CfpValue::PowerDb(v) && v == raw),
{
}

/// The values of a clutter filter array are those of its words, gate for gate.
pub proof fn power_levels_are_those_of_the_words(bytes: Seq<u8>, i: int)
    ensures
        cfp_values(bytes, 1).len() == bytes.len(),
        cfp_values(bytes, 2).len() == bytes.len() as int / 2,
        0 <= i < bytes.len() ==> (cfp_values(bytes, 1)[i] matches CfpValue::PowerDb(v) ==> v
            == bytes[i] && v >= 3),
        0 <= i < bytes.len() as int / 2 ==> (cfp_values(bytes, 2)[i] matches CfpValue::PowerDb(
            v,
        ) ==> v == bytes[2 * i] * 256 + bytes[2 * i + 1] && v >= 3),
        0 <= i < bytes.len() && bytes[i] >= 3 ==> cfp_values(bytes, 1)[i] is PowerDb,
{
}

} // verus!
