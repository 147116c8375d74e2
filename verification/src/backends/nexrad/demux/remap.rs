//! How the words of a block move to the output grid.

use crate::backends::nexrad::decode::messages::msg31::moment::MomentDescriptor;
use crate::backends::nexrad::demux::options::DemuxOptions;
use crate::backends::nexrad::grid::{
    bias_is_unique, exact_bias, exact_ratio, is_bias, is_ratio, is_usable_scale, ratio_is_unique,
    usable_scale,
};
use crate::errors::{EncodingKey, MomentEncodingError, MomentSelector, TargetEncoding};
use crate::float32::{finite, scaled};
use vstd::arithmetic::power2::pow2;
use vstd::prelude::*;

verus! {

/// The significant bits of a moment's words of a given width; as a number, the
/// largest value that they can take.
pub open spec fn word_mask(moment: MomentSelector, word_size: u8) -> u32 {
    if word_size == 16 {
        match moment {
            MomentSelector::Phi => 0x03FF,
            MomentSelector::Zdr => 0x07FF,
            _ => 0xFFFF,
        }
    } else {
        0x00FF
    }
}

/// See [`word_mask`].
pub fn mask_for(moment: MomentSelector, word_size: u8) -> (m: u32)
    ensures
        m == word_mask(moment, word_size),
{
    if word_size == 16 {
        match moment {
            MomentSelector::Phi => 0x03FF,
            MomentSelector::Zdr => 0x07FF,
            _ => 0xFFFF,
        }
    } else {
        0x00FF
    }
}

/// A word that has only significant bits keeps all of them.
pub(crate) proof fn lemma_significant_bits(moment: MomentSelector, word_size: u8, raw: u32)
    requires
        raw <= word_mask(moment, word_size),
    ensures
        raw & word_mask(moment, word_size) == raw,
{
    assert(raw <= 0x00FF ==> raw & 0x00FF == raw) by (bit_vector);
    assert(raw <= 0x03FF ==> raw & 0x03FF == raw) by (bit_vector);
    assert(raw <= 0x07FF ==> raw & 0x07FF == raw) by (bit_vector);
    assert(raw <= 0xFFFF ==> raw & 0xFFFF == raw) by (bit_vector);
}

/// How the words of a block move to the output grid: the bits under `mask`
/// times `ratio` plus `bias`.
#[derive(Debug, Clone, Copy, PartialEq, Eq, Structural)]
pub struct Remap {
    pub mask: u32,
    pub ratio: u32,
    pub bias: u32,
}

impl Remap {
    /// Where a raw word moves to.
    pub open spec fn moved(&self, raw: int) -> int {
        ((raw as u32) & self.mask) * self.ratio + self.bias
    }

    /// The largest value that a word can move to.
    pub open spec fn widest(&self) -> int {
        self.mask * self.ratio + self.bias
    }

    /// Where a raw word moves to.
    pub fn apply(&self, raw: u32) -> (v: u32)
        requires
            self.widest() <= u32::MAX,
        ensures
            v == self.moved(raw as int),
            v <= self.widest(),
    {
        let significant: u32 = raw & self.mask;
        proof {
            let mask = self.mask;
            assert(raw & mask <= mask) by (bit_vector);
            assert(significant * self.ratio <= self.mask * self.ratio) by (nonlinear_arith)
                requires
                    0 <= significant <= self.mask,
                    self.ratio >= 0,
            ;
            assert(significant * self.ratio >= 0) by (nonlinear_arith)
                requires
                    significant >= 0,
                    self.ratio >= 0,
            ;
        }
        significant * self.ratio + self.bias
    }
}

/// The encoding of a block.
pub open spec fn block_key(d: MomentDescriptor) -> EncodingKey {
    EncodingKey { word_size: d.data_word_size_bits, scale: d.scale, offset: d.offset }
}

/// See [`block_key`].
pub fn encoding_key(d: &MomentDescriptor) -> (k: EncodingKey)
    ensures
        k == block_key(*d),
{
    EncodingKey { word_size: d.data_word_size_bits, scale: d.scale, offset: d.offset }
}

/// The change from a source grid to a target grid: its ratio and bias, if both
/// are whole numbers.
pub open spec fn grid_ratio(source: EncodingKey, target: TargetEncoding) -> Option<int> {
    if exists|r: int| is_ratio(source.scale, target.scale, r) {
        Some(choose|r: int| is_ratio(source.scale, target.scale, r))
    } else {
        None
    }
}

/// The bias that goes with a ratio, if it is a whole number.
pub open spec fn grid_bias(source: EncodingKey, target: TargetEncoding, r: int) -> Option<int> {
    if exists|b: int| is_bias(source.offset, target.offset, r, b) {
        Some(choose|b: int| is_bias(source.offset, target.offset, r, b))
    } else {
        None
    }
}

/// How the words of a block of this encoding move to the output grid, or why
/// they cannot.
pub open spec fn remap_outcome(source: EncodingKey, o: DemuxOptions) -> Result<
    Remap,
    MomentEncodingError,
> {
    let mask = word_mask(o.moment, source.word_size);
    let word_size = o.word.width();
    match o.target {
        None => if source.word_size != word_size {
            Err(
                MomentEncodingError::WordSizeMismatch { moment: o.moment, source, word_size },
            )
        } else {
            Ok(Remap { mask, ratio: 1, bias: 0 })
        },
        Some(target) => if !usable_scale(source.scale) || !usable_scale(target.scale) {
            Err(MomentEncodingError::DegenerateScale { moment: o.moment, source, target })
        } else {
            match grid_ratio(source, target) {
                None => Err(
                    MomentEncodingError::InexactRatio {
                        moment: o.moment,
                        source,
                        target,
                        word_size,
                    },
                ),
                Some(r) => match grid_bias(source, target, r) {
                    None => Err(
                        MomentEncodingError::InexactBias {
                            moment: o.moment,
                            source,
                            target,
                            word_size,
                        },
                    ),
                    Some(b) => if mask * r + b > word_mask(o.moment, word_size) {
                        Err(
                            MomentEncodingError::GridOverflow {
                                moment: o.moment,
                                source,
                                target,
                                word_size,
                                widest: (mask * r + b) as u64,
                                max: word_mask(o.moment, word_size),
                            },
                        )
                    } else {
                        Ok(Remap { mask, ratio: r as u32, bias: b as u32 })
                    },
                },
            }
        },
    }
}

impl Remap {
    /// Resolve how the words of a block move to the output grid.
    pub fn resolve(d: &MomentDescriptor, o: &DemuxOptions) -> (r: Result<Self, MomentEncodingError>)
        requires
            d.wf(),
        ensures
            r == remap_outcome(block_key(*d), *o),
    {
        let source = encoding_key(d);
        let mask: u32 = mask_for(o.moment, source.word_size);
        let word_size: u8 = o.word.bits();
        let target = match o.target {
            None => {
                if source.word_size != word_size {
                    return Err(
                        MomentEncodingError::WordSizeMismatch {
                            moment: o.moment,
                            source,
                            word_size,
                        },
                    );
                }
                return Ok(Remap { mask, ratio: 1, bias: 0 });
            },
            Some(t) => t,
        };
        if !is_usable_scale(source.scale) || !is_usable_scale(target.scale) {
            return Err(
                MomentEncodingError::DegenerateScale { moment: o.moment, source, target },
            );
        }
        let ratio: u32 = match exact_ratio(source.scale, target.scale) {
            Some(r) => r,
            None => {
                return Err(
                    MomentEncodingError::InexactRatio {
                        moment: o.moment,
                        source,
                        target,
                        word_size,
                    },
                );
            },
        };
        proof {
            assert(is_ratio(source.scale, target.scale, ratio as int));
            ratio_is_unique(
                source.scale,
                target.scale,
                ratio as int,
                grid_ratio(source, target)->0,
            );
        }
        let bias: u32 = match exact_bias(source.offset, target.offset, ratio) {
            Some(b) => b,
            None => {
                return Err(
                    MomentEncodingError::InexactBias {
                        moment: o.moment,
                        source,
                        target,
                        word_size,
                    },
                );
            },
        };
        proof {
            assert(is_bias(source.offset, target.offset, ratio as int, bias as int));
            bias_is_unique(
                source.offset,
                target.offset,
                ratio as int,
                bias as int,
                grid_bias(source, target, ratio as int)->0,
            );
        }
        let max: u32 = mask_for(o.moment, word_size);
        proof {
            assert(0 <= mask * ratio <= 0xFFFF * 0xFFFF_FFFF) by (nonlinear_arith)
                requires
                    0 <= mask <= 0xFFFF,
                    0 <= ratio <= 0xFFFF_FFFF,
            ;
        }
        let widest: u64 = mask as u64 * ratio as u64 + bias as u64;
        if widest > max as u64 {
            return Err(
                MomentEncodingError::GridOverflow {
                    moment: o.moment,
                    source,
                    target,
                    word_size,
                    widest,
                    max,
                },
            );
        }
        Ok(Remap { mask, ratio, bias })
    }
}

/// A remap that resolves stays within the output width.
pub proof fn remap_fits_the_output(source: EncodingKey, o: DemuxOptions)
    requires
        remap_outcome(source, o) is Ok,
    ensures
        remap_outcome(source, o)->Ok_0.widest() <= word_mask(o.moment, o.word.width()) <= o.word.largest(),
        remap_outcome(source, o)->Ok_0.mask == word_mask(o.moment, source.word_size),
{
    if let Some(target) = o.target {
        let r = grid_ratio(source, target)->0;
        let b = grid_bias(source, target, r)->0;
        assert(is_ratio(source.scale, target.scale, r));
        assert(is_bias(source.offset, target.offset, r, b));
    }
}

/// Moving to a target grid keeps the physical value: `(raw_t - offset_t) /
/// scale_t` equals `(raw_s - offset_s) / scale_s`, here with the denominators
/// cleared and every number in units of 2^-149.
pub proof fn remap_keeps_physical_values(
    source: EncodingKey,
    target: TargetEncoding,
    o: DemuxOptions,
    raw: int,
)
    requires
        o.target == Some(target),
        remap_outcome(source, o) is Ok,
        0 <= raw <= word_mask(o.moment, source.word_size),
    ensures
        (remap_outcome(source, o)->Ok_0.moved(raw) * pow2(149) - scaled(target.offset)) * scaled(
            source.scale,
        ) == (raw * pow2(149) - scaled(source.offset)) * scaled(target.scale),
{
    let m = remap_outcome(source, o)->Ok_0;
    let r = grid_ratio(source, target)->0;
    let b = grid_bias(source, target, r)->0;
    assert(is_ratio(source.scale, target.scale, r));
    assert(is_bias(source.offset, target.offset, r, b));
    lemma_significant_bits(o.moment, source.word_size, raw as u32);
    let (u, ss, st, os, ot) = (
        pow2(149) as int,
        scaled(source.scale),
        scaled(target.scale),
        scaled(source.offset),
        scaled(target.offset),
    );
    assert(((raw * r + b) * u - ot) * ss == (raw * u - os) * st) by (nonlinear_arith)
        requires
            st == r * ss,
            ot == os * r + b * u,
    ;
}

/// Grids that match exactly are accepted: if the target scale is `r` times the
/// source scale and the offsets differ by `b` steps of the target grid, words
/// move as `raw * r + b`, provided that the widest word stays within the bits
/// that the output's words have.
pub proof fn exact_grids_are_accepted(
    source: EncodingKey,
    target: TargetEncoding,
    o: DemuxOptions,
    r: int,
    b: int,
    raw: int,
)
    requires
        o.target == Some(target),
        finite(source.scale) && scaled(source.scale) != 0,
        finite(target.scale) && scaled(target.scale) != 0,
        finite(source.offset),
        finite(target.offset),
        1 <= r <= u32::MAX,
        0 <= b <= u32::MAX,
        scaled(target.scale) == r * scaled(source.scale),
        scaled(target.offset) == r * scaled(source.offset) + b * pow2(149),
        source.word_size == 8 || source.word_size == 16,
        0 <= raw < significant_values(o.moment, source.word_size),
        (significant_values(o.moment, source.word_size) - 1) * r + b < significant_values(
            o.moment,
            o.word.width(),
        ),
    ensures
        remap_outcome(source, o) is Ok,
        remap_outcome(source, o)->Ok_0.moved(raw) == raw * r + b,
{
    assert(scaled(source.offset) * r == r * scaled(source.offset)) by (nonlinear_arith);
    assert(is_ratio(source.scale, target.scale, r));
    assert(is_bias(source.offset, target.offset, r, b));
    ratio_is_unique(source.scale, target.scale, r, grid_ratio(source, target)->0);
    bias_is_unique(
        source.offset,
        target.offset,
        r,
        b,
        grid_bias(source, target, r)->0,
    );
    lemma_significant_bits(o.moment, source.word_size, raw as u32);
}

/// How many values a moment's words of a given width have: 2^10 for 16-bit
/// differential phase, 2^11 for 16-bit differential reflectivity, else 2^16 or
/// 2^8.
pub open spec fn significant_values(moment: MomentSelector, word_size: u8) -> int {
    if word_size != 16 {
        256
    } else if moment == MomentSelector::Phi {
        1024
    } else if moment == MomentSelector::Zdr {
        2048
    } else {
        65536
    }
}

/// Without a target grid a block is accepted if its words are as wide as the
/// output's, and refused for nothing else.
pub proof fn without_a_target_the_width_decides(source: EncodingKey, o: DemuxOptions)
    requires
        o.target is None,
    ensures
        remap_outcome(source, o) is Ok <==> source.word_size == o.word.width(),
        remap_outcome(source, o) matches Err(e) ==> e == (MomentEncodingError::WordSizeMismatch {
            moment: o.moment,
            source,
            word_size: o.word.width(),
        }),
{
}

/// With a target grid a block is refused for a scale that is zero or not a
/// finite number, else for a ratio of the scales that is not a whole number from
/// one on, else for offsets that do not differ by whole steps of the target
/// grid, from zero on, and else for a widest word that the output's bits cannot
/// hold.
#[verifier::rlimit(50)]
pub proof fn grids_are_refused_for_cause(source: EncodingKey, target: TargetEncoding, o: DemuxOptions)
    requires
        o.target == Some(target),
        source.word_size == 8 || source.word_size == 16,
    ensures
        ({
            let usable = finite(source.scale) && finite(target.scale) && scaled(source.scale) != 0
                && scaled(target.scale) != 0;
            match remap_outcome(source, o) {
                Ok(_) => usable,
                Err(MomentEncodingError::DegenerateScale { .. }) => !usable,
                Err(MomentEncodingError::InexactRatio { .. }) => usable && forall|r: int|
                    1 <= r <= u32::MAX ==> scaled(target.scale) != #[trigger] (r * scaled(
                        source.scale,
                    )),
                Err(MomentEncodingError::InexactBias { .. }) => usable && exists|r: int|
                    {
                        &&& 1 <= r <= u32::MAX
                        &&& scaled(target.scale) == #[trigger] (r * scaled(source.scale))
                        &&& finite(source.offset) && finite(target.offset) ==> forall|b: int|
                            0 <= b <= u32::MAX ==> scaled(target.offset) != scaled(source.offset)
                                * r + #[trigger] (b * pow2(149))
                    },
                Err(MomentEncodingError::GridOverflow { widest, max, .. }) => usable && exists|
                    r: int,
                    b: int,
                |
                    {
                        &&& scaled(target.scale) == #[trigger] (r * scaled(source.scale))
                        &&& scaled(target.offset) == scaled(source.offset) * r + #[trigger] (b
                            * pow2(149))
                        &&& widest == (significant_values(o.moment, source.word_size) - 1) * r + b
                        &&& max == significant_values(o.moment, o.word.width()) - 1
                        &&& widest > max
                    },
                Err(_) => false,
            }
        }),
{
    if usable_scale(source.scale) && usable_scale(target.scale) {
        if let Some(r) = grid_ratio(source, target) {
            assert(is_ratio(source.scale, target.scale, r));
            assert(scaled(target.scale) == r * scaled(source.scale));
            match grid_bias(source, target, r) {
                Some(b) => {
                    assert(is_bias(source.offset, target.offset, r, b));
                    assert(scaled(target.offset) == scaled(source.offset) * r + b * pow2(149));
                    let mask = word_mask(o.moment, source.word_size) as int;
                    assert(mask == significant_values(o.moment, source.word_size) - 1);
                    assert(mask * r + b <= u64::MAX) by (nonlinear_arith)
                        requires
                            0 <= mask <= 0xFFFF,
                            1 <= r <= 0xFFFF_FFFF,
                            0 <= b <= 0xFFFF_FFFF,
                    ;
                    assert(mask * r + b >= 0) by (nonlinear_arith)
                        requires
                            0 <= mask <= 0xFFFF,
                            1 <= r <= 0xFFFF_FFFF,
                            0 <= b <= 0xFFFF_FFFF,
                    ;
                },
                None => {
                    if finite(source.offset) && finite(target.offset) {
                        assert forall|b: int| 0 <= b <= u32::MAX implies scaled(target.offset)
                            != scaled(source.offset) * r + #[trigger] (b * pow2(149)) by {
                            assert(!is_bias(source.offset, target.offset, r, b));
                        }
                    }
                },
            }
        } else {
            assert forall|r: int| 1 <= r <= u32::MAX implies scaled(target.scale) != #[trigger] (r
                * scaled(source.scale)) by {
                assert(!is_ratio(source.scale, target.scale, r));
            }
        }
    }
}

/// The encoding of a block is the word size, the scale and the offset of its
/// descriptor.
pub proof fn encodings_are_those_of_the_descriptor(d: MomentDescriptor)
    ensures
        block_key(d).word_size == d.data_word_size_bits,
        block_key(d).scale == d.scale,
        block_key(d).offset == d.offset,
{
}

/// With a target grid every value that the moment's bits can take keeps its
/// physical value, `(raw - offset) / scale` on either grid, here with the
/// denominators cleared and every number in units of 2^-149.
pub proof fn moved_words_keep_their_physical_value(
    d: MomentDescriptor,
    target: TargetEncoding,
    o: DemuxOptions,
    raw: int,
)
    requires
        o.target == Some(target),
        d.data_word_size_bits == 8 || d.data_word_size_bits == 16,
        remap_outcome(block_key(d), o) is Ok,
        0 <= raw < significant_values(o.moment, d.data_word_size_bits),
    ensures
        ({
            let out = remap_outcome(block_key(d), o)->Ok_0.moved(raw);
            &&& (out * pow2(149) - scaled(target.offset)) * scaled(d.scale) == (raw * pow2(149)
                - scaled(d.offset)) * scaled(target.scale)
            &&& 0 <= out < significant_values(o.moment, o.word.width())
        }),
{
    let key = block_key(d);
    remap_keeps_physical_values(key, target, o, raw);
    remap_fits_the_output(key, o);
    let m = remap_outcome(key, o)->Ok_0;
    lemma_significant_bits(o.moment, key.word_size, raw as u32);
    assert(raw * m.ratio <= m.mask * m.ratio) by (nonlinear_arith)
        requires
            0 <= raw <= m.mask,
            0 <= m.ratio,
    ;
    assert(raw * m.ratio >= 0) by (nonlinear_arith)
        requires
            0 <= raw,
            0 <= m.ratio,
    ;
}

} // verus!
