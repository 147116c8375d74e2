//! Generic-format radial message.
//!
//! A data header is followed by data blocks at the offsets that its pointers
//! give. The pointers come in no particular order and are visited by ascending
//! offset, so that the cursor only moves forward. Every block starts with a
//! 4-byte identifier. Its name tells what the block is; a block with a name of
//! none of the ten kinds is what the slot of its pointer stands for.

pub mod cfp;
pub mod header;
pub mod info_blocks;
pub mod moment;

use crate::backends::nexrad::decode::error::{eof, NexradDecodeError};
use crate::backends::nexrad::decode::messages::msg31::cfp::CfpBlock;
use crate::backends::nexrad::decode::messages::msg31::header::{
    data_header_outcome, pointers_at, DataHeader, POINTER_COUNT, PTR_CFP, PTR_ELV, PTR_PHI,
    PTR_RAD, PTR_REF, PTR_RHO, PTR_SW, PTR_VEL, PTR_VOL, PTR_ZDR,
};
use crate::backends::nexrad::decode::messages::msg31::info_blocks::{
    elevation_block_at, elevation_block_outcome, radial_block_at, radial_block_outcome,
    volume_block_at, volume_block_outcome, DataBlockId, ElevationBlock, RadialBlock, VolumeBlock,
    DATA_BLOCK_ID_SIZE,
};
use crate::backends::nexrad::decode::messages::msg31::moment::{moment_block_outcome, MomentBlock};
use crate::backends::nexrad::decode::reader::SliceReader;
use vstd::prelude::*;

verus! {

/// One decoded radial. Gate bytes are borrowed from the input.
#[derive(Debug)]
pub struct Msg31<'a> {
    pub header: DataHeader,
    pub volume: Option<VolumeBlock>,
    pub elevation: Option<ElevationBlock>,
    pub radial: Option<RadialBlock>,
    pub reflectivity: Option<MomentBlock<'a>>,
    pub velocity: Option<MomentBlock<'a>>,
    pub spectrum_width: Option<MomentBlock<'a>>,
    pub zdr: Option<MomentBlock<'a>>,
    pub phi: Option<MomentBlock<'a>>,
    pub rho: Option<MomentBlock<'a>>,
    pub cfp: Option<CfpBlock<'a>>,
}

/// Name of a pointer slot.
pub open spec fn slot_label(idx: int) -> &'static str {
    if idx == PTR_VOL {
        "VOL"
    } else if idx == PTR_ELV {
        "ELV"
    } else if idx == PTR_RAD {
        "RAD"
    } else if idx == PTR_REF {
        "REF"
    } else if idx == PTR_VEL {
        "VEL"
    } else if idx == PTR_SW {
        "SW"
    } else if idx == PTR_ZDR {
        "ZDR"
    } else if idx == PTR_PHI {
        "PHI"
    } else if idx == PTR_RHO {
        "RHO"
    } else if idx == PTR_CFP {
        "CFP"
    } else {
        "?"
    }
}

/// Name of a pointer slot.
pub fn pointer_label(idx: usize) -> (s: &'static str)
    ensures
        s == slot_label(idx as int),
{
    match idx {
        PTR_VOL => "VOL",
        PTR_ELV => "ELV",
        PTR_RAD => "RAD",
        PTR_REF => "REF",
        PTR_VEL => "VEL",
        PTR_SW => "SW",
        PTR_ZDR => "ZDR",
        PTR_PHI => "PHI",
        PTR_RHO => "RHO",
        PTR_CFP => "CFP",
        _ => "?",
    }
}

/// The slot that a block name stands for, if it is one of the ten.
pub open spec fn named_slot(name: Seq<u8>) -> Option<int> {
    if name == seq![0x56u8, 0x4F, 0x4C] {
        Some(PTR_VOL as int)
    } else if name == seq![0x45u8, 0x4C, 0x56] {
        Some(PTR_ELV as int)
    } else if name == seq![0x52u8, 0x41, 0x44] {
        Some(PTR_RAD as int)
    } else if name == seq![0x52u8, 0x45, 0x46] {
        Some(PTR_REF as int)
    } else if name == seq![0x56u8, 0x45, 0x4C] {
        Some(PTR_VEL as int)
    } else if name == seq![0x53u8, 0x57, 0x20] {
        Some(PTR_SW as int)
    } else if name == seq![0x5Au8, 0x44, 0x52] {
        Some(PTR_ZDR as int)
    } else if name == seq![0x50u8, 0x48, 0x49] {
        Some(PTR_PHI as int)
    } else if name == seq![0x52u8, 0x48, 0x4F] {
        Some(PTR_RHO as int)
    } else if name == seq![0x43u8, 0x46, 0x50] {
        Some(PTR_CFP as int)
    } else {
        None
    }
}

/// The kind of a block: the slot that its name stands for, else the slot of
/// the pointer that led to it.
pub open spec fn block_kind(name: Seq<u8>, idx: int) -> int {
    match named_slot(name) {
        Some(slot) => slot,
        None => idx,
    }
}

fn name_is(name: [u8; 3], a: u8, b: u8, c: u8) -> (r: bool)
    ensures
        r == (name@ == seq![a, b, c]),
{
    let r: bool = name[0] == a && name[1] == b && name[2] == c;
    assert(r ==> name@ =~= seq![a, b, c]);
    assert(seq![a, b, c][0] == a && seq![a, b, c][1] == b && seq![a, b, c][2] == c);
    r
}

/// The kind of a block; see [`block_kind`].
pub fn route_block(id: &DataBlockId, idx: usize) -> (kind: usize)
    ensures
        kind == block_kind(id.name@, idx as int),
{
    let n = id.name;
    if name_is(n, 0x56, 0x4F, 0x4C) {
        PTR_VOL
    } else if name_is(n, 0x45, 0x4C, 0x56) {
        PTR_ELV
    } else if name_is(n, 0x52, 0x41, 0x44) {
        PTR_RAD
    } else if name_is(n, 0x52, 0x45, 0x46) {
        PTR_REF
    } else if name_is(n, 0x56, 0x45, 0x4C) {
        PTR_VEL
    } else if name_is(n, 0x53, 0x57, 0x20) {
        PTR_SW
    } else if name_is(n, 0x5A, 0x44, 0x52) {
        PTR_ZDR
    } else if name_is(n, 0x50, 0x48, 0x49) {
        PTR_PHI
    } else if name_is(n, 0x52, 0x48, 0x4F) {
        PTR_RHO
    } else if name_is(n, 0x43, 0x46, 0x50) {
        PTR_CFP
    } else {
        idx
    }
}

/// `order` with one slot more, behind every slot whose pointer is no larger.
pub open spec fn insert_slot(order: Seq<(usize, u32)>, slot: (usize, u32)) -> Seq<(usize, u32)>
    decreases order.len(),
{
    if order.len() == 0 || order.last().1 <= slot.1 {
        order.push(slot)
    } else {
        insert_slot(order.drop_last(), slot).push(order.last())
    }
}

/// The first `n` slots whose pointers are set, by ascending pointer and, among
/// equal pointers, by slot.
pub open spec fn visit_order(pointers: Seq<u32>, n: int) -> Seq<(usize, u32)>
    decreases n,
{
    if n <= 0 {
        Seq::empty()
    } else if pointers[n - 1] == 0 {
        visit_order(pointers, n - 1)
    } else {
        insert_slot(visit_order(pointers, n - 1), ((n - 1) as usize, pointers[n - 1]))
    }
}

proof fn lemma_insert_slot(order: Seq<(usize, u32)>, slot: (usize, u32), at: int)
    requires
        0 <= at <= order.len(),
        at > 0 ==> order[at - 1].1 <= slot.1,
        forall|j: int| at <= j < order.len() ==> order[j].1 > slot.1,
    ensures
        insert_slot(order, slot) == order.insert(at, slot),
    decreases order.len(),
{
    if at == order.len() {
        assert(order.insert(at, slot) =~= order.push(slot));
    } else {
        let rest = order.drop_last();
        assert(order.last() == order[order.len() - 1]);
        lemma_insert_slot(rest, slot, at);
        assert(rest.insert(at, slot).push(order.last()) =~= order.insert(at, slot));
    }
}

/// The slots whose pointers are set, in the order of [`visit_order`].
fn sorted_slots(pointers: &[u32; 10]) -> (order: Vec<(usize, u32)>)
    ensures
        order@ == visit_order(pointers@, POINTER_COUNT as int),
        forall|j: int| 0 <= j < order@.len() ==> (#[trigger] order@[j]).0 < POINTER_COUNT,
{
    let mut order: Vec<(usize, u32)> = Vec::new();
    let mut n: usize = 0;
    while n < POINTER_COUNT
        invariant
            n <= POINTER_COUNT,
            order@ == visit_order(pointers@, n as int),
            order@.len() <= n,
            forall|j: int| 0 <= j < order@.len() ==> (#[trigger] order@[j]).0 < POINTER_COUNT,
        decreases POINTER_COUNT - n,
    {
        let ptr: u32 = pointers[n];
        if ptr != 0 {
            let mut at: usize = order.len();
            while at > 0 && order[at - 1].1 > ptr
                invariant
                    at <= order@.len(),
                    forall|j: int| at <= j < order@.len() ==> (#[trigger] order@[j]).1 > ptr,
                decreases at,
            {
                at -= 1;
            }
            proof {
                lemma_insert_slot(order@, (n, ptr), at as int);
            }
            order.insert(at, (n, ptr));
        }
        n += 1;
    }
    order
}

/// Outcome of reading a block of a given kind at `p`: the offset behind it.
pub open spec fn block_outcome(d: Seq<u8>, kind: int, p: int) -> Result<int, NexradDecodeError> {
    if kind == PTR_VOL {
        volume_block_outcome(d, p)
    } else if kind == PTR_ELV {
        elevation_block_outcome(d, p)
    } else if kind == PTR_RAD {
        radial_block_outcome(d, p)
    } else {
        moment_block_outcome(d, p)
    }
}

/// Outcome of visiting the slots of `order` from the `k`-th on: for each kind
/// the offset of its block behind the identifier, and the offset behind the
/// last block.
///
/// `c` is the offset behind what has been read and `found` the blocks so far.
/// A later block replaces an earlier one of the same kind. A pointer to before
/// `c` leads to `c`.
pub open spec fn walk_blocks(
    d: Seq<u8>,
    base: int,
    order: Seq<(usize, u32)>,
    k: int,
    c: int,
    found: Map<int, int>,
) -> Result<(Map<int, int>, int), NexradDecodeError>
    decreases order.len() - k,
{
    if k >= order.len() {
        Ok((found, c))
    } else {
        let len = d.len() as int;
        let (idx, ptr) = order[k];
        let target = base + ptr;
        let start = if target > c {
            target
        } else {
            c
        };
        if target > usize::MAX {
            Err(
                NexradDecodeError::InvalidPointerOffset {
                    block: slot_label(idx as int),
                    offset: ptr,
                    message_size: 0,
                },
            )
        } else if target > len {
            Err(eof(c, target - c, len))
        } else if start + DATA_BLOCK_ID_SIZE > len {
            Err(eof(start, DATA_BLOCK_ID_SIZE as int, len))
        } else {
            let kind = block_kind(d.subrange(start + 1, start + 4), idx as int);
            match block_outcome(d, kind, start + DATA_BLOCK_ID_SIZE) {
                Err(e) => Err(e),
                Ok(end) => walk_blocks(
                    d,
                    base,
                    order,
                    k + 1,
                    end,
                    found.insert(kind, start + DATA_BLOCK_ID_SIZE),
                ),
            }
        }
    }
}

/// Outcome of reading a radial whose data header starts at `p` and whose
/// pointers count from `base`.
pub open spec fn msg31_outcome(d: Seq<u8>, p: int, base: int) -> Result<
    (Map<int, int>, int),
    NexradDecodeError,
> {
    match data_header_outcome(d, p) {
        Err(e) => Err(e),
        Ok(c) => walk_blocks(
            d,
            base,
            visit_order(pointers_at(d, p), POINTER_COUNT as int),
            0,
            c,
            Map::empty(),
        ),
    }
}

/// `order` visits slots by ascending pointer.
pub open spec fn ascends(order: Seq<(usize, u32)>) -> bool {
    forall|i: int, j: int|
        0 <= i < j < order.len() ==> (#[trigger] order[i]).1 <= (#[trigger] order[j]).1
}

proof fn lemma_inserted_slot(order: Seq<(usize, u32)>, slot: (usize, u32))
    requires
        ascends(order),
    ensures
        ascends(insert_slot(order, slot)),
        insert_slot(order, slot).len() == order.len() + 1,
        forall|x: (usize, u32)| #[trigger]
            insert_slot(order, slot).contains(x) <==> order.contains(x) || x == slot,
        order.len() > 0 ==> insert_slot(order, slot).last().1 == (if order.last().1 <= slot.1 {
            slot.1
        } else {
            order.last().1
        }),
    decreases order.len(),
{
    let out = insert_slot(order, slot);
    if order.len() == 0 || order.last().1 <= slot.1 {
        assert(out == order.push(slot));
        assert forall|x: (usize, u32)| #[trigger] out.contains(x) <==> order.contains(x) || x
            == slot by {
            if order.contains(x) {
                let i = choose|i: int| 0 <= i < order.len() && order[i] == x;
                assert(out[i] == x);
            }
            if x == slot {
                assert(out[order.len() as int] == x);
            }
        }
        assert(ascends(out)) by {
            assert forall|i: int, j: int| 0 <= i < j < out.len() implies (#[trigger] out[i]).1 <= (
            #[trigger] out[j]).1 by {
                if j == order.len() && i < order.len() - 1 {
                    assert(order[i].1 <= order[order.len() - 1].1);
                }
            }
        }
    } else {
        let rest = order.drop_last();
        let inner = insert_slot(rest, slot);
        lemma_inserted_slot(rest, slot);
        assert(out == inner.push(order.last()));
        assert forall|x: (usize, u32)| #[trigger] out.contains(x) <==> order.contains(x) || x
            == slot by {
            if out.contains(x) {
                let i = choose|i: int| 0 <= i < out.len() && out[i] == x;
                if i < inner.len() {
                    assert(inner[i] == x);
                    assert(inner.contains(x));
                    if rest.contains(x) {
                        let k = choose|k: int| 0 <= k < rest.len() && rest[k] == x;
                        assert(order[k] == x);
                    }
                } else {
                    assert(order[order.len() - 1] == x);
                }
            }
            if order.contains(x) || x == slot {
                if x != slot {
                    let k = choose|k: int| 0 <= k < order.len() && order[k] == x;
                    if k < rest.len() {
                        assert(rest[k] == x);
                        assert(inner.contains(x));
                    } else {
                        assert(out[inner.len() as int] == x);
                    }
                } else {
                    assert(inner.contains(x));
                }
                if inner.contains(x) {
                    let k = choose|k: int| 0 <= k < inner.len() && inner[k] == x;
                    assert(out[k] == x);
                }
            }
        }
        assert(ascends(out)) by {
            assert forall|i: int, j: int| 0 <= i < j < out.len() implies (#[trigger] out[i]).1 <= (
            #[trigger] out[j]).1 by {
                if j < inner.len() {
                    assert(inner[i].1 <= inner[j].1);
                } else {
                    assert(inner.contains(inner[i]));
                    if inner[i] != slot {
                        let k = choose|k: int| 0 <= k < rest.len() && rest[k] == inner[i];
                        assert(order[k].1 <= order[order.len() - 1].1);
                    }
                }
            }
        }
    }
}

proof fn lemma_visit_order(pointers: Seq<u32>, n: int)
    requires
        0 <= n <= pointers.len() <= usize::MAX,
    ensures
        ascends(visit_order(pointers, n)),
        forall|x: (usize, u32)| #[trigger]
            visit_order(pointers, n).contains(x) <==> x.0 < n && x.1 == pointers[x.0 as int]
                && x.1 != 0,
    decreases n,
{
    if n > 0 {
        lemma_visit_order(pointers, n - 1);
        let before = visit_order(pointers, n - 1);
        let slot = ((n - 1) as usize, pointers[n - 1]);
        if pointers[n - 1] != 0 {
            lemma_inserted_slot(before, slot);
        }
        assert forall|x: (usize, u32)| #[trigger]
            visit_order(pointers, n).contains(x) <==> x.0 < n && x.1 == pointers[x.0 as int] && x.1
                != 0 by {
            assert(before.contains(x) <==> x.0 < n - 1 && x.1 == pointers[x.0 as int] && x.1 != 0);
        }
    }
}

/// The pointers of a data header may come in any order: exactly those that are
/// set are visited, by ascending offset.
pub proof fn set_pointers_are_visited_by_ascending_offset(pointers: Seq<u32>)
    requires
        pointers.len() == POINTER_COUNT,
    ensures
        ascends(visit_order(pointers, POINTER_COUNT as int)),
        forall|x: (usize, u32)| #[trigger]
            visit_order(pointers, POINTER_COUNT as int).contains(x) <==> x.0 < POINTER_COUNT && x.1
                == pointers[x.0 as int] && x.1 != 0,
{
    lemma_visit_order(pointers, POINTER_COUNT as int);
}

/// Every block that is listed can be read where it is listed.
pub open spec fn blocks_readable(d: Seq<u8>, found: Map<int, int>) -> bool {
    forall|kind: int|
        #[trigger] found.contains_key(kind) ==> found[kind] >= 0 && block_outcome(
            d,
            kind,
            found[kind],
        ) is Ok
}

proof fn lemma_walk_blocks_readable(
    d: Seq<u8>,
    base: int,
    order: Seq<(usize, u32)>,
    k: int,
    c: int,
    found: Map<int, int>,
)
    requires
        base >= 0,
        c >= 0,
        k >= 0,
        blocks_readable(d, found),
        walk_blocks(d, base, order, k, c, found) is Ok,
    ensures
        blocks_readable(d, walk_blocks(d, base, order, k, c, found)->Ok_0.0),
    decreases order.len() - k,
{
    if k < order.len() {
        let (idx, ptr) = order[k];
        let target = base + ptr;
        let start = if target > c {
            target
        } else {
            c
        };
        let kind = block_kind(d.subrange(start + 1, start + 4), idx as int);
        let end = block_outcome(d, kind, start + DATA_BLOCK_ID_SIZE)->Ok_0;
        let next = found.insert(kind, start + DATA_BLOCK_ID_SIZE);
        assert(blocks_readable(d, next)) by {
            assert forall|x: int| #[trigger] next.contains_key(x) implies next[x] >= 0
                && block_outcome(d, x, next[x]) is Ok by {
                if x != kind {
                    assert(found.contains_key(x));
                }
            }
        }
        lemma_walk_blocks_readable(d, base, order, k + 1, end, next);
    }
}

/// Every block of a radial lies inside the message and is complete.
pub proof fn blocks_of_a_radial_are_complete(d: Seq<u8>, p: int, base: int)
    requires
        p >= 0,
        base >= 0,
        msg31_outcome(d, p, base) is Ok,
    ensures
        blocks_readable(d, msg31_outcome(d, p, base)->Ok_0.0),
{
    let c = data_header_outcome(d, p)->Ok_0;
    lemma_walk_blocks_readable(
        d,
        base,
        visit_order(pointers_at(d, p), POINTER_COUNT as int),
        0,
        c,
        Map::empty(),
    );
}

/// `b` is the moment block that `found` lists for `kind`.
pub open spec fn moment_found(
    b: Option<MomentBlock<'_>>,
    d: Seq<u8>,
    found: Map<int, int>,
    kind: int,
) -> bool {
    match b {
        Some(m) => {
            &&& found.contains_key(kind)
            &&& m.is_at(d, found[kind])
            &&& m.descriptor.wf()
            &&& m.gate_bytes@.len() == m.descriptor.array_bytes()
        },
        None => !found.contains_key(kind),
    }
}

impl<'a> Msg31<'a> {
    /// The blocks of `self` are those that `found` lists.
    pub open spec fn has_blocks(&self, d: Seq<u8>, found: Map<int, int>) -> bool {
        &&& match self.volume {
            Some(b) => found.contains_key(PTR_VOL as int) && b == volume_block_at(
                d,
                found[PTR_VOL as int],
            ),
            None => !found.contains_key(PTR_VOL as int),
        }
        &&& match self.elevation {
            Some(b) => found.contains_key(PTR_ELV as int) && b == elevation_block_at(
                d,
                found[PTR_ELV as int],
            ),
            None => !found.contains_key(PTR_ELV as int),
        }
        &&& match self.radial {
            Some(b) => found.contains_key(PTR_RAD as int) && b == radial_block_at(
                d,
                found[PTR_RAD as int],
            ),
            None => !found.contains_key(PTR_RAD as int),
        }
        &&& moment_found(self.reflectivity, d, found, PTR_REF as int)
        &&& moment_found(self.velocity, d, found, PTR_VEL as int)
        &&& moment_found(self.spectrum_width, d, found, PTR_SW as int)
        &&& moment_found(self.zdr, d, found, PTR_ZDR as int)
        &&& moment_found(self.phi, d, found, PTR_PHI as int)
        &&& moment_found(self.rho, d, found, PTR_RHO as int)
        &&& match self.cfp {
            Some(m) => {
                &&& found.contains_key(PTR_CFP as int)
                &&& m.is_at(d, found[PTR_CFP as int])
                &&& m.descriptor.wf()
                &&& m.gate_bytes@.len() == m.descriptor.array_bytes()
            },
            None => !found.contains_key(PTR_CFP as int),
        }
    }

    /// Read one block of the given kind into `self`.
    fn read_block(&mut self, reader: &mut SliceReader<'a>, kind: usize) -> (r: Result<
        (),
        NexradDecodeError,
    >)
        requires
            old(reader).wf(),
            kind < POINTER_COUNT,
        ensures
            final(reader).wf(),
            final(reader).data() == old(reader).data(),
            final(self).header == old(self).header,
            match r {
                Ok(_) => {
                    &&& block_outcome(old(reader).data(), kind as int, old(reader).pos()) == Ok::<
                        int,
                        NexradDecodeError,
                    >(final(reader).pos())
                    &&& forall|found: Map<int, int>|
                        old(self).has_blocks(old(reader).data(), found) ==> final(self).has_blocks(
                            old(reader).data(),
                            #[trigger] found.insert(kind as int, old(reader).pos()),
                        )
                },
                Err(e) => block_outcome(old(reader).data(), kind as int, old(reader).pos())
                    == Err::<int, NexradDecodeError>(e),
            },
    {
        match kind {
            PTR_VOL => {
                let b = VolumeBlock::read(reader)?;
                self.volume = Some(b);
            },
            PTR_ELV => {
                let b = ElevationBlock::read(reader)?;
                self.elevation = Some(b);
            },
            PTR_RAD => {
                let b = RadialBlock::read(reader)?;
                self.radial = Some(b);
            },
            PTR_REF => {
                let b = MomentBlock::read(reader)?;
                self.reflectivity = Some(b);
            },
            PTR_VEL => {
                let b = MomentBlock::read(reader)?;
                self.velocity = Some(b);
            },
            PTR_SW => {
                let b = MomentBlock::read(reader)?;
                self.spectrum_width = Some(b);
            },
            PTR_ZDR => {
                let b = MomentBlock::read(reader)?;
                self.zdr = Some(b);
            },
            PTR_PHI => {
                let b = MomentBlock::read(reader)?;
                self.phi = Some(b);
            },
            PTR_RHO => {
                let b = MomentBlock::read(reader)?;
                self.rho = Some(b);
            },
            _ => {
                let b = CfpBlock::read(reader)?;
                self.cfp = Some(b);
            },
        }
        Ok(())
    }
}

/// Parse one radial. The reader stands at the first byte of the data header;
/// `message_start_offset` is the offset from which the pointers count.
pub fn parse<'a>(reader: &mut SliceReader<'a>, message_start_offset: usize) -> (r: Result<
    Msg31<'a>,
    NexradDecodeError,
>)
    requires
        old(reader).wf(),
        message_start_offset <= old(reader).pos(),
    ensures
        final(reader).wf(),
        final(reader).data() == old(reader).data(),
        match r {
            Ok(m) => {
                let outcome = msg31_outcome(
                    old(reader).data(),
                    old(reader).pos(),
                    message_start_offset as int,
                );
                &&& outcome is Ok
                &&& outcome->Ok_0.1 == final(reader).pos()
                &&& m.header.is_at(old(reader).data(), old(reader).pos())
                &&& m.has_blocks(old(reader).data(), outcome->Ok_0.0)
            },
            Err(e) => msg31_outcome(
                old(reader).data(),
                old(reader).pos(),
                message_start_offset as int,
            ) == Err::<(Map<int, int>, int), NexradDecodeError>(e),
        },
{
    let ghost d = reader.data();
    let ghost p = reader.pos();
    let ghost base = message_start_offset as int;
    let header = DataHeader::read(reader)?;
    let order = sorted_slots(&header.pointers);
    let mut msg = Msg31 {
        header,
        volume: None,
        elevation: None,
        radial: None,
        reflectivity: None,
        velocity: None,
        spectrum_width: None,
        zdr: None,
        phi: None,
        rho: None,
        cfp: None,
    };
    let ghost mut found: Map<int, int> = Map::empty();
    let mut k: usize = 0;
    while k < order.len()
        invariant
            k <= order@.len(),
            reader.wf(),
            reader.data() == d,
            d == old(reader).data(),
            p == old(reader).pos(),
            base == message_start_offset,
            msg.header.is_at(d, p),
            msg.has_blocks(d, found),
            order@ == visit_order(pointers_at(d, p), POINTER_COUNT as int),
            forall|j: int| 0 <= j < order@.len() ==> (#[trigger] order@[j]).0 < POINTER_COUNT,
            msg31_outcome(d, p, base) == walk_blocks(d, base, order@, k as int, reader.pos(), found),
        decreases order@.len() - k,
    {
        let (idx, ptr): (usize, u32) = order[k];
        assert(order@[k as int].0 < POINTER_COUNT);
        let target: usize = match message_start_offset.checked_add(ptr as usize) {
            Some(t) => t,
            None => {
                return Err(
                    NexradDecodeError::InvalidPointerOffset {
                        block: pointer_label(idx),
                        offset: ptr,
                        message_size: 0,
                    },
                );
            },
        };
        reader.try_skip_to(target)?;
        let id = DataBlockId::read(reader)?;
        let kind: usize = route_block(&id, idx);
        let ghost start = reader.pos();
        msg.read_block(reader, kind)?;
        proof {
            found = found.insert(kind as int, start);
        }
        k += 1;
    }
    Ok(msg)
}

/// The name of a block of a kind, three characters long.
pub open spec fn block_text(kind: int) -> Seq<char> {
    if slot_label(kind)@.len() < 3 {
        slot_label(kind)@.push(' ')
    } else {
        slot_label(kind)@
    }
}

/// Bytes as characters.
pub open spec fn as_text(bytes: Seq<u8>) -> Seq<char> {
    bytes.map_values(|b: u8| b as char)
}

/// A block name stands for the slot whose label it spells, padded to three
/// characters, and for no other.
#[verifier::rlimit(50)]
pub proof fn block_names_spell_the_slot_labels(name: Seq<u8>, slot: int)
    requires
        name.len() == 3,
        0 <= slot < 10,
    ensures
        block_text(slot).len() == 3,
        named_slot(name) == Some(slot) <==> as_text(name) == block_text(slot),
{
    lemma_slot_labels();
    let t = as_text(name);
    let s = block_text(slot);
    assert(t[0] == name[0] as char && t[1] == name[1] as char && t[2] == name[2] as char);
    if name[0] as char == s[0] && name[1] as char == s[1] && name[2] as char == s[2] {
        assert(t =~= s);
    }
    assert(name =~= seq![name[0], name[1], name[2]]);
    assert(seq![0x56u8, 0x4F, 0x4C][0] == 0x56 && seq![0x56u8, 0x4F, 0x4C][1] == 0x4F
        && seq![0x56u8, 0x4F, 0x4C][2] == 0x4C);
    assert(seq![0x45u8, 0x4C, 0x56][0] == 0x45 && seq![0x45u8, 0x4C, 0x56][1] == 0x4C
        && seq![0x45u8, 0x4C, 0x56][2] == 0x56);
    assert(seq![0x52u8, 0x41, 0x44][0] == 0x52 && seq![0x52u8, 0x41, 0x44][1] == 0x41
        && seq![0x52u8, 0x41, 0x44][2] == 0x44);
    assert(seq![0x52u8, 0x45, 0x46][0] == 0x52 && seq![0x52u8, 0x45, 0x46][1] == 0x45
        && seq![0x52u8, 0x45, 0x46][2] == 0x46);
    assert(seq![0x56u8, 0x45, 0x4C][0] == 0x56 && seq![0x56u8, 0x45, 0x4C][1] == 0x45
        && seq![0x56u8, 0x45, 0x4C][2] == 0x4C);
    assert(seq![0x53u8, 0x57, 0x20][0] == 0x53 && seq![0x53u8, 0x57, 0x20][1] == 0x57
        && seq![0x53u8, 0x57, 0x20][2] == 0x20);
    assert(seq![0x5Au8, 0x44, 0x52][0] == 0x5A && seq![0x5Au8, 0x44, 0x52][1] == 0x44
        && seq![0x5Au8, 0x44, 0x52][2] == 0x52);
    assert(seq![0x50u8, 0x48, 0x49][0] == 0x50 && seq![0x50u8, 0x48, 0x49][1] == 0x48
        && seq![0x50u8, 0x48, 0x49][2] == 0x49);
    assert(seq![0x52u8, 0x48, 0x4F][0] == 0x52 && seq![0x52u8, 0x48, 0x4F][1] == 0x48
        && seq![0x52u8, 0x48, 0x4F][2] == 0x4F);
    assert(seq![0x43u8, 0x46, 0x50][0] == 0x43 && seq![0x43u8, 0x46, 0x50][1] == 0x46
        && seq![0x43u8, 0x46, 0x50][2] == 0x50);
}

proof fn lemma_slot_labels()
    ensures
        block_text(PTR_VOL as int) =~= seq!['V', 'O', 'L'],
        block_text(PTR_ELV as int) =~= seq!['E', 'L', 'V'],
        block_text(PTR_RAD as int) =~= seq!['R', 'A', 'D'],
        block_text(PTR_REF as int) =~= seq!['R', 'E', 'F'],
        block_text(PTR_VEL as int) =~= seq!['V', 'E', 'L'],
        block_text(PTR_SW as int) =~= seq!['S', 'W', ' '],
        block_text(PTR_ZDR as int) =~= seq!['Z', 'D', 'R'],
        block_text(PTR_PHI as int) =~= seq!['P', 'H', 'I'],
        block_text(PTR_RHO as int) =~= seq!['R', 'H', 'O'],
        block_text(PTR_CFP as int) =~= seq!['C', 'F', 'P'],
{
    reveal_strlit("VOL");
    reveal_strlit("ELV");
    reveal_strlit("RAD");
    reveal_strlit("REF");
    reveal_strlit("VEL");
    reveal_strlit("SW");
    reveal_strlit("ZDR");
    reveal_strlit("PHI");
    reveal_strlit("RHO");
    reveal_strlit("CFP");
}

/// What stands at `p` is a block of this kind: the three bytes before it name
/// the kind, or they name none and the pointer in the kind's own slot is set.
pub open spec fn is_block_of_kind(d: Seq<u8>, pointers: Seq<u32>, kind: int, p: int) -> bool {
    &&& 4 <= p <= d.len()
    &&& {
        ||| as_text(d.subrange(p - 3, p)) == block_text(kind)
        ||| pointers[kind] != 0 && forall|other: int|
            0 <= other < 10 ==> as_text(d.subrange(p - 3, p)) != #[trigger] block_text(other)
    }
}

spec fn blocks_are_of_their_kinds(d: Seq<u8>, pointers: Seq<u32>, found: Map<int, int>) -> bool {
    forall|kind: int| #[trigger]
        found.contains_key(kind) ==> 0 <= kind < 10 && is_block_of_kind(
            d,
            pointers,
            kind,
            found[kind],
        )
}

#[verifier::rlimit(50)]
proof fn lemma_walk_blocks_of_kinds(
    d: Seq<u8>,
    base: int,
    pointers: Seq<u32>,
    order: Seq<(usize, u32)>,
    k: int,
    c: int,
    found: Map<int, int>,
)
    requires
        c >= 0,
        k >= 0,
        forall|j: int|
            0 <= j < order.len() ==> (#[trigger] order[j]).0 < 10 && pointers[order[j].0 as int]
                != 0,
        blocks_are_of_their_kinds(d, pointers, found),
        walk_blocks(d, base, order, k, c, found) is Ok,
    ensures
        blocks_are_of_their_kinds(
            d,
            pointers,
            walk_blocks(d, base, order, k, c, found)->Ok_0.0,
        ),
    decreases order.len() - k,
{
    if k < order.len() {
        let (idx, ptr) = order[k];
        let target = base + ptr;
        let start = if target > c {
            target
        } else {
            c
        };
        let name = d.subrange(start + 1, start + 4);
        let kind = block_kind(name, idx as int);
        let p = start + 4;
        assert(d.subrange(p - 3, p) == name);
        assert forall|other: int| 0 <= other < 10 implies (named_slot(name) == Some(other))
            == (as_text(name) == #[trigger] block_text(other)) by {
            block_names_spell_the_slot_labels(name, other);
        }
        assert(is_block_of_kind(d, pointers, kind, p));
        let end = block_outcome(d, kind, p)->Ok_0;
        lemma_walk_blocks_of_kinds(
            d,
            base,
            pointers,
            order,
            k + 1,
            end,
            found.insert(kind, p),
        );
    }
}

/// Every block of a radial is of the kind that it is listed under.
pub proof fn blocks_are_told_by_name(d: Seq<u8>, p: int, base: int, kind: int)
    requires
        p >= 0,
        msg31_outcome(d, p, base) is Ok,
        msg31_outcome(d, p, base)->Ok_0.0.contains_key(kind),
    ensures
        0 <= kind < 10,
        is_block_of_kind(d, pointers_at(d, p), kind, msg31_outcome(d, p, base)->Ok_0.0[kind]),
{
    let pointers = pointers_at(d, p);
    let order = visit_order(pointers, POINTER_COUNT as int);
    set_pointers_are_visited_by_ascending_offset(pointers);
    assert forall|j: int| 0 <= j < order.len() implies (#[trigger] order[j]).0 < 10
        && pointers[order[j].0 as int] != 0 by {
        assert(order.contains(order[j]));
    }
    lemma_walk_blocks_of_kinds(
        d,
        base,
        pointers,
        order,
        0,
        data_header_outcome(d, p)->Ok_0,
        Map::empty(),
    );
}

/// The block that is visited last stands in the list of blocks, whatever came
/// before it, at its pointer or behind what was read until then; the blocks of
/// other kinds stay as they were.
#[verifier::rlimit(50)]
pub proof fn the_last_block_of_a_kind_counts(
    d: Seq<u8>,
    base: int,
    order: Seq<(usize, u32)>,
    k: int,
    c: int,
    found: Map<int, int>,
)
    requires
        0 <= k < order.len(),
        walk_blocks(d, base, order, k, c, found) is Ok,
    ensures
        walk_blocks(d, base, order.drop_last(), k, c, found) is Ok,
        ({
            let before = walk_blocks(d, base, order.drop_last(), k, c, found)->Ok_0;
            let (idx, ptr) = order.last();
            let start = if base + ptr > before.1 {
                base + ptr
            } else {
                before.1
            };
            let after = walk_blocks(d, base, order, k, c, found)->Ok_0;
            let kind = block_kind(d.subrange(start + 1, start + 4), idx as int);
            &&& after.0.contains_key(kind)
            &&& after.0[kind] == start + 4
            &&& forall|other: int|
                other != kind ==> #[trigger] after.0.contains_key(other)
                    == before.0.contains_key(other) && (after.0.contains_key(other) ==> after.0[other]
                    == before.0[other])
            &&& block_outcome(d, kind, start + 4) == Ok::<int, NexradDecodeError>(after.1)
        }),
    decreases order.len() - k,
{
    let rest = order.drop_last();
    let (idx, ptr) = order[k];
    let target = base + ptr;
    let start = if target > c {
        target
    } else {
        c
    };
    let kind = block_kind(d.subrange(start + 1, start + 4), idx as int);
    let end = block_outcome(d, kind, start + 4)->Ok_0;
    let more = found.insert(kind, start + 4);
    if k == order.len() - 1 {
        reveal_with_fuel(walk_blocks, 2);
        assert(walk_blocks(d, base, rest, k, c, found) == Ok::<
            (Map<int, int>, int),
            NexradDecodeError,
        >((found, c)));
        assert(walk_blocks(d, base, order, k + 1, end, more) == Ok::<
            (Map<int, int>, int),
            NexradDecodeError,
        >((more, end)));
    } else {
        assert(rest[k] == order[k]);
        the_last_block_of_a_kind_counts(d, base, order, k + 1, end, more);
    }
}

} // verus!
