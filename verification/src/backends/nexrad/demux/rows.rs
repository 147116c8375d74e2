//! The rows of an output array.

use crate::backends::nexrad::decode::messages::msg31::moment::{
    gate_word, gate_words, read_gate_word,
};
use crate::backends::nexrad::decode::model::MomentModel;
use crate::backends::nexrad::demux::options::{DemuxOptions, RawMoment};
use crate::backends::nexrad::demux::remap::{block_key, remap_outcome, Remap};
use crate::errors::{EncodingKey, MomentEncodingError};
use vstd::prelude::*;

verus! {

/// What one radial contributes: its azimuth, as the bit pattern of an IEEE-754
/// single, and the block of the moment, if it has one.
pub ghost struct RowModel {
    pub azimuth: u32,
    pub block: Option<MomentModel>,
}

/// The number of gates in a block.
pub open spec fn gates_present(b: MomentModel) -> int {
    gate_words(b.gates, b.descriptor.word_bytes())
}

/// The words of a row as they stand in the output array.
pub open spec fn row_cell(row: RowModel, o: DemuxOptions, g: int) -> int {
    match row.block {
        None => o.fill_value as int,
        Some(b) => {
            let remap = remap_outcome(block_key(b.descriptor), o)->Ok_0;
            if g < gates_present(b) {
                remap.moved(gate_word(b.gates, b.descriptor.word_bytes(), g))
            } else {
                remap.moved(0)
            }
        },
    }
}

/// An array of `n` rows, of which the first are given and the rest holds the
/// fill value.
pub open spec fn cells(rows: Seq<RowModel>, n: int, o: DemuxOptions) -> Seq<int> {
    Seq::new(
        (n * o.gates) as nat,
        |c: int|
            if (c / (o.gates as int)) < rows.len() {
                row_cell(rows[c / o.gates as int], o, c % o.gates as int)
            } else {
                o.fill_value as int
            },
    )
}

/// Outcome of writing rows from the `k`-th on: the encoding of the last block,
/// or what is wrong with the first row that cannot be written.
///
/// `pinned` is the encoding of the blocks so far. Without a target grid no
/// other may follow.
pub open spec fn rows_outcome(
    rows: Seq<RowModel>,
    k: int,
    pinned: Option<EncodingKey>,
    o: DemuxOptions,
) -> Result<Option<EncodingKey>, MomentEncodingError>
    decreases rows.len() - k,
{
    if k >= rows.len() {
        Ok(pinned)
    } else {
        match rows[k].block {
            None => rows_outcome(rows, k + 1, pinned, o),
            Some(b) => {
                let key = block_key(b.descriptor);
                if pinned is Some && pinned->0 != key && o.target is None {
                    Err(
                        MomentEncodingError::MixedEncodings {
                            moment: o.moment,
                            first: pinned->0,
                            next: key,
                        },
                    )
                } else {
                    match remap_outcome(key, o) {
                        Err(e) => Err(e),
                        Ok(_) => if gates_present(b) > o.gates {
                            Err(
                                MomentEncodingError::TooManyGates {
                                    present: gates_present(b) as usize,
                                    gates: o.gates,
                                },
                            )
                        } else {
                            rows_outcome(rows, k + 1, Some(key), o)
                        },
                    }
                }
            },
        }
    }
}

pub(crate) proof fn lemma_cell_index(row: int, gates: int, g: int)
    requires
        gates > 0,
        0 <= g < gates,
        row >= 0,
    ensures
        (row * gates + g) / gates == row,
        (row * gates + g) % gates == g,
{
    vstd::arithmetic::div_mod::lemma_fundamental_div_mod_converse(row * gates + g, gates, row, g);
}

pub(crate) proof fn lemma_row_end(row: int, gates: int, n: int)
    requires
        0 <= row < n,
        gates > 0,
    ensures
        0 <= row * gates,
        row * gates + gates <= n * gates,
{
    assert(row * gates + gates <= n * gates) by (nonlinear_arith)
        requires
            row + 1 <= n,
            gates > 0,
    ;
    assert(0 <= row * gates) by (nonlinear_arith)
        requires
            row >= 0,
            gates > 0,
    ;
}

/// Write one row of the output array: the block's words, moved to the output
/// grid, and behind them what raw `0` becomes.
pub fn write_row(
    dst: &mut RawMoment,
    row: usize,
    gates: usize,
    gate_bytes: &[u8],
    word_bytes: usize,
    remap: Remap,
) -> (r: Result<(), MomentEncodingError>)
    requires
        word_bytes == 1 || word_bytes == 2,
        row * gates + gates <= old(dst).words().len() <= usize::MAX,
        remap.widest() <= old(dst).word().largest(),
    ensures
        final(dst).word() == old(dst).word(),
        match r {
            Ok(_) => {
                &&& gate_words(gate_bytes@, word_bytes as int) <= gates
                &&& final(dst).words() == Seq::new(
                    old(dst).words().len(),
                    |c: int|
                        if row * gates <= c < row * gates + gates {
                            if c - row * gates < gate_words(gate_bytes@, word_bytes as int) {
                                remap.moved(
                                    gate_word(gate_bytes@, word_bytes as int, c - row * gates),
                                )
                            } else {
                                remap.moved(0)
                            }
                        } else {
                            old(dst).words()[c]
                        },
                )
            },
            Err(e) => {
                &&& gate_words(gate_bytes@, word_bytes as int) > gates
                &&& e == (MomentEncodingError::TooManyGates {
                    present: gate_words(gate_bytes@, word_bytes as int) as usize,
                    gates,
                })
                &&& final(dst).words() == old(dst).words()
            },
        },
{
    let present: usize = gate_bytes.len() / word_bytes;
    if present > gates {
        return Err(MomentEncodingError::TooManyGates { present, gates });
    }
    proof {
        assert(0 <= row * gates) by (nonlinear_arith);
    }
    let base: usize = row * gates;
    let pad: u32 = remap.apply(0);
    let ghost before = dst.words();
    let mut g: usize = 0;
    while g < gates
        invariant
            g <= gates,
            base == row * gates,
            base + gates <= before.len() <= usize::MAX,
            word_bytes == 1 || word_bytes == 2,
            present == gate_words(gate_bytes@, word_bytes as int),
            pad == remap.moved(0),
            pad <= dst.word().largest(),
            remap.widest() <= dst.word().largest(),
            dst.word() == old(dst).word(),
            dst.words().len() == before.len(),
            forall|c: int|
                0 <= c < before.len() && !(base <= c < base + g) ==> (#[trigger] dst.words()[c])
                    == before[c],
            forall|j: int|
                base <= j < base + g ==> (#[trigger] dst.words()[j]) == (if j - base < present {
                    remap.moved(gate_word(gate_bytes@, word_bytes as int, j - base))
                } else {
                    remap.moved(0)
                }),
        decreases gates - g,
    {
        let value: u32 = if g < present {
            remap.apply(read_gate_word(gate_bytes, word_bytes, g))
        } else {
            pad
        };
        dst.set(base + g, value);
        g += 1;
    }
    proof {
        let after = dst.words();
        let expected = Seq::new(
            before.len(),
            |c: int|
                if row * gates <= c < row * gates + gates {
                    if c - row * gates < gate_words(gate_bytes@, word_bytes as int) {
                        remap.moved(gate_word(gate_bytes@, word_bytes as int, c - row * gates))
                    } else {
                        remap.moved(0)
                    }
                } else {
                    before[c]
                },
        );
        assert(after =~= expected);
    }
    Ok(())
}

/// Row `i` can be written: it lacks the moment, or its block is of an encoding
/// that the output can hold and has no more gates than the output has columns.
pub open spec fn row_is_writable(row: RowModel, o: DemuxOptions) -> bool {
    row.block matches Some(b) ==> remap_outcome(block_key(b.descriptor), o) is Ok && gates_present(b)
        <= o.gates
}

/// Two rows carry the moment in different encodings.
pub open spec fn rows_differ(a: RowModel, b: RowModel) -> bool {
    a.block is Some && b.block is Some && block_key(a.block->0.descriptor) != block_key(
        b.block->0.descriptor,
    )
}

/// Rows are written if each can be and, without a target grid, no two of them
/// carry the moment in different encodings.
pub proof fn rows_are_written_if_each_can_be(rows: Seq<RowModel>, o: DemuxOptions)
    ensures
        rows_outcome(rows, 0, None, o) is Ok <==> {
            &&& forall|i: int| 0 <= i < rows.len() ==> row_is_writable(#[trigger] rows[i], o)
            &&& o.target is None ==> forall|i: int, j: int|
                0 <= i < rows.len() && 0 <= j < rows.len() ==> !rows_differ(
                    #[trigger] rows[i],
                    #[trigger] rows[j],
                )
        },
{
    lemma_rows_outcome(rows, 0, None, o);
}

#[verifier::rlimit(50)]
proof fn lemma_rows_outcome(
    rows: Seq<RowModel>,
    k: int,
    pinned: Option<EncodingKey>,
    o: DemuxOptions,
)
    requires
        0 <= k <= rows.len(),
    ensures
        rows_outcome(rows, k, pinned, o) is Ok <==> {
            &&& forall|i: int| k <= i < rows.len() ==> row_is_writable(#[trigger] rows[i], o)
            &&& o.target is None ==> forall|i: int, j: int|
                k <= i < rows.len() && k <= j < rows.len() ==> !rows_differ(
                    #[trigger] rows[i],
                    #[trigger] rows[j],
                )
            &&& o.target is None && pinned is Some ==> forall|i: int|
                k <= i < rows.len() && (#[trigger] rows[i]).block is Some ==> block_key(
                    rows[i].block->0.descriptor,
                ) == pinned->0
        },
    decreases rows.len() - k,
{
    if k < rows.len() {
        let next = match rows[k].block {
            Some(b) => Some(block_key(b.descriptor)),
            None => pinned,
        };
        lemma_rows_outcome(rows, k + 1, next, o);
    }
}

/// A refusal names what it is for: two encodings that differ, each of a row and the
/// first of them of an earlier one, or the number of gates of a row that has more
/// than there are columns.
#[verifier::rlimit(50)]
pub proof fn refusals_name_the_rows_at_fault(
    rows: Seq<RowModel>,
    k: int,
    pinned: Option<EncodingKey>,
    o: DemuxOptions,
)
    requires
        0 <= k <= rows.len(),
        forall|i: int|
            0 <= i < rows.len() && (#[trigger] rows[i]).block is Some ==> gates_present(
                rows[i].block->0,
            ) <= usize::MAX,
    ensures
        match rows_outcome(rows, k, pinned, o) {
            Err(MomentEncodingError::MixedEncodings { moment, first, next }) => {
                &&& moment == o.moment && first != next && o.target is None
                &&& exists|j: int|
                    {
                        &&& k <= j < rows.len()
                        &&& has_key(#[trigger] rows[j], next)
                        &&& pinned == Some(first) || exists|i: int|
                            k <= i < j && has_key(#[trigger] rows[i], first)
                    }
            },
            Err(MomentEncodingError::TooManyGates { present, gates }) => {
                &&& gates == o.gates && gates < present
                &&& exists|i: int|
                    k <= i < rows.len() && (#[trigger] rows[i]).block is Some && gates_present(
                        rows[i].block->0,
                    ) == present
            },
            Err(_) => exists|i: int|
                k <= i < rows.len() && (#[trigger] rows[i]).block is Some && remap_outcome(
                    block_key(rows[i].block->0.descriptor),
                    o,
                ) is Err,
            Ok(_) => true,
        },
    decreases rows.len() - k,
{
    if k < rows.len() {
        let next = match rows[k].block {
            Some(b) => Some(block_key(b.descriptor)),
            None => pinned,
        };
        refusals_name_the_rows_at_fault(rows, k + 1, next, o);
        if rows[k].block is Some {
            assert(has_key(rows[k], block_key(rows[k].block->0.descriptor)));
        }
    }
}

/// The row carries the moment in this encoding.
pub open spec fn has_key(row: RowModel, key: EncodingKey) -> bool {
    row.block is Some && block_key(row.block->0.descriptor) == key
}

} // verus!
