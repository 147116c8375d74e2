//! Geometry of a moment, taken from the first ray that carries it.
//!
//! The range axis of a sweep is that of the moment with the most gates; the
//! others are padded to it.

use vstd::prelude::*;

verus! {

/// Geometry of one moment of a sweep.
#[derive(Debug, Clone, Copy, PartialEq, Eq, Structural)]
pub struct MomentGeometry {
    /// Distance to the centre of the first gate, in metres.
    pub first_gate_m: u16,
    /// Spacing of gate centres, in metres.
    pub gate_interval_m: u16,
    /// Number of gates.
    pub gate_count: u16,
}

/// Distances of gate centres, in metres.
pub open spec fn range_axis(geom: MomentGeometry) -> Seq<u32> {
    Seq::new(
        geom.gate_count as nat,
        |i: int| (geom.first_gate_m + i * geom.gate_interval_m) as u32,
    )
}

/// Distances of gate centres, in metres.
pub fn build_range_axis(geom: &MomentGeometry) -> (axis: Vec<u32>)
    ensures
        axis@ == range_axis(*geom),
        forall|i: int|
            0 <= i < axis@.len() ==> #[trigger] axis@[i] == geom.first_gate_m + i
                * geom.gate_interval_m,
{
    let mut axis: Vec<u32> = Vec::with_capacity(geom.gate_count as usize);
    let mut i: u16 = 0;
    while i < geom.gate_count
        invariant
            i <= geom.gate_count,
            axis@.len() == i,
            forall|j: int|
                0 <= j < i ==> #[trigger] axis@[j] == geom.first_gate_m + j * geom.gate_interval_m,
        decreases geom.gate_count - i,
    {
        assert(0 <= i * geom.gate_interval_m <= 0xFFFE * 0xFFFF) by (nonlinear_arith)
            requires
                0 <= i <= 0xFFFE,
                0 <= geom.gate_interval_m <= 0xFFFF,
        ;
        axis.push(geom.first_gate_m as u32 + i as u32 * geom.gate_interval_m as u32);
        i += 1;
    }
    assert(axis@ =~= range_axis(*geom));
    axis
}

} // verus!
