//! Per-sweep coordinates in a given ray order.

use crate::time::Timestamp;
use vstd::prelude::*;

verus! {

/// Coordinates of a sweep. Angles are bit patterns of IEEE-754 singles, in
/// degrees; ranges are in metres.
#[derive(Debug, Clone, PartialEq, Eq)]
pub struct Coordinates {
    pub time: Vec<Option<Timestamp>>,
    pub range: Vec<u32>,
    pub azimuth: Vec<u32>,
    pub elevation: Vec<u32>,
}

/// What `f` gives for the items in the order given.
pub fn project<T, U, F: Fn(&T) -> U>(items: &[T], order: &[usize], f: F) -> (out: Vec<U>)
    requires
        forall|i: int| 0 <= i < order@.len() ==> (#[trigger] order@[i]) < items@.len(),
        forall|i: int| 0 <= i < items@.len() ==> call_requires(f, (&#[trigger] items@[i],)),
    ensures
        out@.len() == order@.len(),
        forall|i: int|
            0 <= i < order@.len() ==> call_ensures(
                f,
                (&items@[order@[i] as int],),
                #[trigger] out@[i],
            ),
{
    let mut out: Vec<U> = Vec::with_capacity(order.len());
    let mut i: usize = 0;
    while i < order.len()
        invariant
            i <= order@.len(),
            forall|i: int| 0 <= i < order@.len() ==> (#[trigger] order@[i]) < items@.len(),
            forall|i: int| 0 <= i < items@.len() ==> call_requires(f, (&#[trigger] items@[i],)),
            out@.len() == i,
            forall|j: int|
                0 <= j < i ==> call_ensures(f, (&items@[order@[j] as int],), #[trigger] out@[j]),
        decreases order@.len() - i,
    {
        let item: usize = order[i];
        assert(order@[i as int] < items@.len());
        out.push(f(&items[item]));
        i += 1;
    }
    out
}

/// Coordinates of the rays `items`, in the order given, on a range axis. The
/// functions give a ray's azimuth, elevation and time.
pub fn assemble_ppi_coordinates<
    T,
    FAz: Fn(&T) -> u32,
    FEl: Fn(&T) -> u32,
    FTime: Fn(&T) -> Option<Timestamp>,
>(
    items: &[T],
    order: &[usize],
    range_axis: Vec<u32>,
    azimuth_deg: FAz,
    elevation_deg: FEl,
    time: FTime,
) -> (c: Coordinates)
    requires
        forall|i: int| 0 <= i < order@.len() ==> (#[trigger] order@[i]) < items@.len(),
        forall|i: int|
            0 <= i < items@.len() ==> call_requires(azimuth_deg, (&#[trigger] items@[i],)),
        forall|i: int|
            0 <= i < items@.len() ==> call_requires(elevation_deg, (&#[trigger] items@[i],)),
        forall|i: int| 0 <= i < items@.len() ==> call_requires(time, (&#[trigger] items@[i],)),
    ensures
        c.range@ == range_axis@,
        c.azimuth@.len() == order@.len(),
        c.elevation@.len() == order@.len(),
        c.time@.len() == order@.len(),
        forall|i: int|
            0 <= i < order@.len() ==> call_ensures(
                azimuth_deg,
                (&items@[order@[i] as int],),
                #[trigger] c.azimuth@[i],
            ),
        forall|i: int|
            0 <= i < order@.len() ==> call_ensures(
                elevation_deg,
                (&items@[order@[i] as int],),
                #[trigger] c.elevation@[i],
            ),
        forall|i: int|
            0 <= i < order@.len() ==> call_ensures(
                time,
                (&items@[order@[i] as int],),
                #[trigger] c.time@[i],
            ),
{
    let azimuth = project(items, order, azimuth_deg);
    let elevation = project(items, order, elevation_deg);
    let time = project(items, order, time);
    Coordinates { time, range: range_axis, azimuth, elevation }
}

} // verus!
