//! Per-radial headers and per-moment encodings of a record or a span.

use crate::backends::common::parallel::par_map;
use crate::backends::common::sort::{angle_keys, is_stable_order, stable_order_is_unique};
use crate::backends::nexrad::decode::messages::msg31::moment::{
    descriptor_error, moment_block_outcome, MomentDescriptor,
};
use crate::backends::nexrad::decode::messages::msg31::{
    block_outcome, blocks_of_a_radial_are_complete, msg31_outcome, Msg31,
};
use crate::backends::nexrad::decode::messages::{decode_messages, message_frames, Frame};
use crate::backends::nexrad::decode::model::radial_at_msg31;
use crate::backends::nexrad::demux::options::{validation_error, DemuxOptions};
use crate::backends::nexrad::demux::record::{
    block_in, decode_err, demuxed, is_stream_error, parse_radials, radial_bodies, radial_is, radials_are,
    record_admitted, record_demuxes, row_in, rows_in, select_block, stream_bodies,
};
use crate::backends::nexrad::demux::remap::block_key;
use crate::backends::nexrad::demux::rows::{gates_present, rows_outcome, RowModel};
use crate::backends::nexrad::demux::sweep::{
    azimuths_in, byte_strings, cross_error, decompress_span, is_span_error, is_sweep_output,
    joined_bodies, reordered, span_decompresses, span_streams, stream_demuxes, stream_fits,
    stream_key, streams_demux, sweep_demuxes,
};
use crate::errors::{EncodingKey, MomentSelector, RadishError};
use crate::float32::{
    finite, is_nan, nan, order_key, order_key_of, order_key_orders_numbers, scaled,
};
use crate::time::day_instant_counts_milliseconds;
use crate::wire::{be16, be32};
use vstd::prelude::*;

verus! {

/// Source encoding of one moment. `scale` and `offset` are bit patterns of
/// IEEE-754 singles.
#[derive(Debug, Clone, Copy, PartialEq, Eq, Structural)]
#[non_exhaustive]
pub struct MomentEncoding {
    /// Word size in the first radial that carries the moment.
    pub word_size: u8,
    /// Scale in the first radial that carries the moment.
    pub scale: u32,
    /// Offset in the first radial that carries the moment.
    pub offset: u32,
    /// Gate count in the first radial that carries the moment.
    pub gate_count: u16,
    /// Largest gate count of all radials.
    pub max_gate_count: u16,
    /// Range to the centre of the first gate, in metres.
    pub first_gate_m: u16,
    /// Gate spacing, in metres.
    pub gate_interval_m: u16,
    /// How many radials carry the moment.
    pub radials_present: usize,
    /// Whether all radials agree in word size, scale and offset.
    pub uniform: bool,
}

/// The patterns stand for equal numbers; NaN equals nothing.
pub open spec fn same_number(a: u32, b: u32) -> bool {
    !nan(a) && !nan(b) && order_key(a) == order_key(b)
}

fn is_same_number(a: u32, b: u32) -> (r: bool)
    ensures
        r == same_number(a, b),
{
    !is_nan(a) && !is_nan(b) && order_key_of(a) == order_key_of(b)
}

/// Two descriptors agree in word size, scale and offset.
pub open spec fn same_encoding(a: MomentDescriptor, b: MomentDescriptor) -> bool {
    &&& a.data_word_size_bits == b.data_word_size_bits
    &&& same_number(a.scale, b.scale)
    &&& same_number(a.offset, b.offset)
}

/// The largest gate count among descriptors.
pub open spec fn max_gates(ds: Seq<MomentDescriptor>) -> u16
    decreases ds.len(),
{
    if ds.len() == 0 {
        0
    } else if ds.last().gate_count > max_gates(ds.drop_last()) {
        ds.last().gate_count
    } else {
        max_gates(ds.drop_last())
    }
}

/// The encoding of a moment from its descriptors, one per radial that carries
/// it; `None` if no radial does.
pub open spec fn encoding_of(ds: Seq<MomentDescriptor>) -> Option<MomentEncoding> {
    if ds.len() == 0 {
        None
    } else {
        Some(
            MomentEncoding {
                word_size: ds[0].data_word_size_bits,
                scale: ds[0].scale,
                offset: ds[0].offset,
                gate_count: ds[0].gate_count,
                max_gate_count: max_gates(ds),
                first_gate_m: ds[0].range_to_first_gate_m,
                gate_interval_m: ds[0].gate_interval_m,
                radials_present: ds.len() as usize,
                uniform: forall|i: int| 0 < i < ds.len() ==> same_encoding(ds[0], #[trigger] ds[i]),
            },
        )
    }
}

proof fn lemma_max_gates_joined(a: Seq<MomentDescriptor>, b: Seq<MomentDescriptor>)
    ensures
        max_gates(a + b) == (if max_gates(a) > max_gates(b) {
            max_gates(a)
        } else {
            max_gates(b)
        }),
    decreases b.len(),
{
    if b.len() == 0 {
        assert(a + b =~= a);
    } else {
        lemma_max_gates_joined(a, b.drop_last());
        assert((a + b).drop_last() =~= a + b.drop_last());
        assert((a + b).last() == b.last());
    }
}

/// Joining two runs of radials merges their encodings: the first run's
/// first-seen values stand, the counts add up, and the whole is uniform if
/// both are and their first radials agree.
pub proof fn encodings_merge(a: Seq<MomentDescriptor>, b: Seq<MomentDescriptor>)
    requires
        a.len() > 0,
        b.len() > 0,
        a.len() + b.len() <= usize::MAX,
    ensures
        ({
            let (ea, eb) = (encoding_of(a)->0, encoding_of(b)->0);
            encoding_of(a + b) == Some(
                MomentEncoding {
                    max_gate_count: if ea.max_gate_count > eb.max_gate_count {
                        ea.max_gate_count
                    } else {
                        eb.max_gate_count
                    },
                    radials_present: (ea.radials_present + eb.radials_present) as usize,
                    uniform: ea.uniform && eb.uniform && same_encoding(a[0], b[0]),
                    ..ea
                },
            )
        }),
{
    let ab = a + b;
    lemma_max_gates_joined(a, b);
    let (ea, eb) = (encoding_of(a)->0, encoding_of(b)->0);
    let both = ea.uniform && eb.uniform && same_encoding(a[0], b[0]);
    if both {
        assert forall|i: int| 0 < i < ab.len() implies same_encoding(ab[0], #[trigger] ab[i]) by {
            if i >= a.len() {
                assert(ab[i] == b[i - a.len()]);
            } else {
                assert(ab[i] == a[i]);
            }
        }
    }
    if encoding_of(ab)->0.uniform {
        assert(same_encoding(ab[0], ab[a.len() as int]));
        assert forall|i: int| 0 < i < a.len() implies same_encoding(a[0], #[trigger] a[i]) by {
            assert(ab[i] == a[i]);
        }
        assert forall|i: int| 0 < i < b.len() implies same_encoding(b[0], #[trigger] b[i]) by {
            assert(ab[a.len() + i] == b[i]);
            assert(same_encoding(ab[0], ab[a.len() + i]));
        }
    }
}

impl MomentEncoding {
    /// The encoding of a moment that one radial carries.
    pub fn from_descriptor(d: &MomentDescriptor) -> (e: Self)
        ensures
            e == (MomentEncoding {
                word_size: d.data_word_size_bits,
                scale: d.scale,
                offset: d.offset,
                gate_count: d.gate_count,
                max_gate_count: d.gate_count,
                first_gate_m: d.range_to_first_gate_m,
                gate_interval_m: d.gate_interval_m,
                radials_present: 1,
                uniform: true,
            }),
            encoding_of(seq![*d]) == Some(e),
    {
        proof {
            reveal_with_fuel(max_gates, 2);
            assert(seq![*d].drop_last() =~= Seq::empty());
        }
        MomentEncoding {
            word_size: d.data_word_size_bits,
            scale: d.scale,
            offset: d.offset,
            gate_count: d.gate_count,
            max_gate_count: d.gate_count,
            first_gate_m: d.range_to_first_gate_m,
            gate_interval_m: d.gate_interval_m,
            radials_present: 1,
            uniform: true,
        }
    }

    /// This encoding with that of radials that follow: what was seen first
    /// stands, the counts add up, the larger of the largest gate counts is
    /// kept, and the whole is uniform if both are and they agree in word size,
    /// scale and offset.
    pub open spec fn with(self, other: MomentEncoding) -> MomentEncoding {
        MomentEncoding {
            max_gate_count: if other.max_gate_count > self.max_gate_count {
                other.max_gate_count
            } else {
                self.max_gate_count
            },
            radials_present: (self.radials_present + other.radials_present) as usize,
            uniform: self.uniform && other.uniform && other.word_size == self.word_size
                && same_number(other.scale, self.scale) && same_number(other.offset, self.offset),
            ..self
        }
    }

    /// Merge the encoding of radials that follow.
    pub fn merge(&mut self, other: &MomentEncoding)
        requires
            old(self).radials_present + other.radials_present <= usize::MAX,
        ensures
            *final(self) == old(self).with(*other),
            forall|a: Seq<MomentDescriptor>, b: Seq<MomentDescriptor>|
                a.len() + b.len() <= usize::MAX && encoding_of(a) == Some(*old(self))
                    && encoding_of(b) == Some(*other) ==> #[trigger] encoding_of(a + b) == Some(
                    *final(self),
                ),
    {
        let ghost before = *self;
        self.radials_present = self.radials_present + other.radials_present;
        if other.max_gate_count > self.max_gate_count {
            self.max_gate_count = other.max_gate_count;
        }
        if !other.uniform || other.word_size != self.word_size || !is_same_number(
            other.scale,
            self.scale,
        ) || !is_same_number(other.offset, self.offset) {
            self.uniform = false;
        }
        proof {
            assert forall|a: Seq<MomentDescriptor>, b: Seq<MomentDescriptor>|
                a.len() + b.len() <= usize::MAX && encoding_of(a) == Some(before) && encoding_of(b)
                    == Some(*other) implies #[trigger] encoding_of(a + b) == Some(*self) by {
                encodings_merge(a, b);
            }
        }
    }
}

/// The descriptors of a moment in the radials that carry it.
pub open spec fn descriptors_in(bodies: Seq<Seq<u8>>, moment: MomentSelector) -> Seq<
    MomentDescriptor,
>
    decreases bodies.len(),
{
    if bodies.len() == 0 {
        Seq::empty()
    } else {
        match block_in(bodies.last(), moment) {
            Some(b) => descriptors_in(bodies.drop_last(), moment).push(b.descriptor),
            None => descriptors_in(bodies.drop_last(), moment),
        }
    }
}

proof fn lemma_descriptors_joined(a: Seq<Seq<u8>>, b: Seq<Seq<u8>>, moment: MomentSelector)
    ensures
        descriptors_in(a + b, moment) == descriptors_in(a, moment) + descriptors_in(b, moment),
        descriptors_in(b, moment).len() <= b.len(),
    decreases b.len(),
{
    if b.len() == 0 {
        assert(a + b =~= a);
        assert(descriptors_in(a, moment) + Seq::empty() =~= descriptors_in(a, moment));
    } else {
        lemma_descriptors_joined(a, b.drop_last(), moment);
        assert((a + b).drop_last() =~= a + b.drop_last());
        assert((a + b).last() == b.last());
        let (da, db) = (descriptors_in(a, moment), descriptors_in(b.drop_last(), moment));
        match block_in(b.last(), moment) {
            Some(x) => {
                assert((da + db).push(x.descriptor) =~= da + db.push(x.descriptor));
            },
            None => {},
        }
    }
}

proof fn lemma_one_descriptor(body: Seq<u8>, moment: MomentSelector)
    ensures
        descriptors_in(seq![body], moment) == (match block_in(body, moment) {
            Some(b) => seq![b.descriptor],
            None => Seq::empty(),
        }),
{
    assert(seq![body].drop_last() =~= Seq::empty());
    reveal_with_fuel(descriptors_in, 2);
    if let Some(b) = block_in(body, moment) {
        assert(Seq::empty().push(b.descriptor) =~= seq![b.descriptor]);
    }
}

/// The encodings of the moments that are present, by moment.
#[derive(Debug, Clone, Copy, PartialEq, Eq)]
pub struct MomentTable {
    slots: [Option<MomentEncoding>; 7],
}

/// Position of a moment in the table.
pub open spec fn table_index(m: MomentSelector) -> int {
    match m {
        MomentSelector::Ref => 0,
        MomentSelector::Vel => 1,
        MomentSelector::Sw => 2,
        MomentSelector::Zdr => 3,
        MomentSelector::Phi => 4,
        MomentSelector::Rho => 5,
        MomentSelector::Cfp => 6,
    }
}

fn table_position(m: MomentSelector) -> (i: usize)
    ensures
        i == table_index(m),
{
    match m {
        MomentSelector::Ref => 0,
        MomentSelector::Vel => 1,
        MomentSelector::Sw => 2,
        MomentSelector::Zdr => 3,
        MomentSelector::Phi => 4,
        MomentSelector::Rho => 5,
        MomentSelector::Cfp => 6,
    }
}

impl MomentTable {
    /// The encoding of a moment, if it is present.
    pub closed spec fn entry(&self, m: MomentSelector) -> Option<MomentEncoding> {
        self.slots@[table_index(m)]
    }

    /// An empty table.
    pub fn new() -> (t: Self)
        ensures
            forall|m: MomentSelector| #[trigger] t.entry(m) is None,
    {
        MomentTable { slots: [None, None, None, None, None, None, None] }
    }

    /// The encoding of a moment, if it is present.
    pub fn get(&self, m: MomentSelector) -> (e: Option<MomentEncoding>)
        ensures
            e == self.entry(m),
    {
        self.slots[table_position(m)]
    }

    /// Whether a moment is present.
    pub fn contains_key(&self, m: MomentSelector) -> (b: bool)
        ensures
            b == (self.entry(m) is Some),
    {
        self.slots[table_position(m)].is_some()
    }

    /// One if the moment is present, else zero.
    pub open spec fn one_if(&self, m: MomentSelector) -> int {
        if self.entry(m) is Some {
            1
        } else {
            0
        }
    }

    /// Number of moments that are present.
    pub open spec fn count(&self) -> int {
        self.one_if(MomentSelector::Ref) + self.one_if(MomentSelector::Vel) + self.one_if(
            MomentSelector::Sw,
        ) + self.one_if(MomentSelector::Zdr) + self.one_if(MomentSelector::Phi) + self.one_if(
            MomentSelector::Rho,
        ) + self.one_if(MomentSelector::Cfp)
    }

    fn one_or_zero(&self, m: MomentSelector) -> (n: usize)
        ensures
            n == self.one_if(m),
    {
        if self.contains_key(m) {
            1
        } else {
            0
        }
    }

    /// Number of moments that are present.
    pub fn len(&self) -> (n: usize)
        ensures
            n == self.count(),
    {
        self.one_or_zero(MomentSelector::Ref) + self.one_or_zero(MomentSelector::Vel)
            + self.one_or_zero(MomentSelector::Sw) + self.one_or_zero(MomentSelector::Zdr)
            + self.one_or_zero(MomentSelector::Phi) + self.one_or_zero(MomentSelector::Rho)
            + self.one_or_zero(MomentSelector::Cfp)
    }

    /// Replace the encoding of a moment.
    fn put(&mut self, m: MomentSelector, e: MomentEncoding)
        ensures
            final(self).entry(m) == Some(e),
            forall|other: MomentSelector|
                other != m ==> #[trigger] final(self).entry(other) == old(self).entry(other),
    {
        let i: usize = table_position(m);
        self.slots[i] = Some(e);
    }
}

/// Per-radial headers, in record order, and per-moment encodings. Angles are
/// bit patterns of IEEE-754 singles, in degrees.
#[derive(Debug, Clone, PartialEq, Eq)]
#[non_exhaustive]
pub struct RecordInventory {
    /// Number of radials, and of rows that a demux produces.
    pub radial_count: usize,
    pub azimuth: Vec<u32>,
    pub elevation: Vec<u32>,
    pub azimuth_number: Vec<u16>,
    pub elevation_number: Vec<u8>,
    /// Milliseconds past midnight.
    pub collection_time_ms: Vec<u32>,
    pub modified_julian_date: Vec<u16>,
    /// Encodings of the moments that are present.
    pub moments: MomentTable,
}

impl RecordInventory {
    /// `self` describes the radials that these bodies encode.
    #[verifier::opaque]
    pub open spec fn is_of(&self, bodies: Seq<Seq<u8>>) -> bool {
        &&& self.radial_count == bodies.len()
        &&& self.azimuth@ == azimuths_in(bodies)
        &&& self.elevation@ == bodies.map_values(|b: Seq<u8>| be32(b, 24))
        &&& self.azimuth_number@ == bodies.map_values(|b: Seq<u8>| be16(b, 10))
        &&& self.elevation_number@ == bodies.map_values(|b: Seq<u8>| b[22])
        &&& self.collection_time_ms@ == bodies.map_values(|b: Seq<u8>| be32(b, 4))
        &&& self.modified_julian_date@ == bodies.map_values(|b: Seq<u8>| be16(b, 8))
        &&& forall|m: MomentSelector|
            #[trigger] self.moments.entry(m) == encoding_of(descriptors_in(bodies, m))
    }

    /// An inventory of no radials.
    pub fn empty() -> (inv: Self)
        ensures
            inv.is_of(Seq::empty()),
    {
        let inv = RecordInventory {
            radial_count: 0,
            azimuth: Vec::new(),
            elevation: Vec::new(),
            azimuth_number: Vec::new(),
            elevation_number: Vec::new(),
            collection_time_ms: Vec::new(),
            modified_julian_date: Vec::new(),
            moments: MomentTable::new(),
        };
        proof {
            reveal(RecordInventory::is_of);
            let none = Seq::<Seq<u8>>::empty();
            assert(inv.azimuth@ =~= azimuths_in(none));
            assert(inv.elevation@ =~= none.map_values(|b: Seq<u8>| be32(b, 24)));
            assert(inv.azimuth_number@ =~= none.map_values(|b: Seq<u8>| be16(b, 10)));
            assert(inv.elevation_number@ =~= none.map_values(|b: Seq<u8>| b[22]));
            assert(inv.collection_time_ms@ =~= none.map_values(|b: Seq<u8>| be32(b, 4)));
            assert(inv.modified_julian_date@ =~= none.map_values(|b: Seq<u8>| be16(b, 8)));
        }
        inv
    }

    /// Merge the encoding of one moment in radials that follow.
    fn merge_moment(
        &mut self,
        m: MomentSelector,
        seen: Option<MomentEncoding>,
        Ghost(a): Ghost<Seq<MomentDescriptor>>,
        Ghost(b): Ghost<Seq<MomentDescriptor>>,
    )
        requires
            a.len() + b.len() <= usize::MAX,
            old(self).moments.entry(m) == encoding_of(a),
            seen == encoding_of(b),
        ensures
            final(self).moments.entry(m) == encoding_of(a + b),
            forall|other: MomentSelector|
                other != m ==> #[trigger] final(self).moments.entry(other) == old(
                    self,
                ).moments.entry(other),
            final(self).radial_count == old(self).radial_count,
            final(self).azimuth == old(self).azimuth,
            final(self).elevation == old(self).elevation,
            final(self).azimuth_number == old(self).azimuth_number,
            final(self).elevation_number == old(self).elevation_number,
            final(self).collection_time_ms == old(self).collection_time_ms,
            final(self).modified_julian_date == old(self).modified_julian_date,
    {
        match (self.moments.get(m), seen) {
            (Some(mine), Some(theirs)) => {
                let mut merged = mine;
                merged.merge(&theirs);
                self.moments.put(m, merged);
            },
            (None, Some(theirs)) => {
                assert(a + b =~= b);
                self.moments.put(m, theirs);
            },
            _ => {
                assert(a + b =~= a);
            },
        }
    }

    /// Merge the moments of radials that follow.
    fn merge_moments(
        &mut self,
        seen: &MomentTable,
        Ghost(a): Ghost<Seq<Seq<u8>>>,
        Ghost(b): Ghost<Seq<Seq<u8>>>,
    )
        requires
            a.len() + b.len() <= usize::MAX,
            forall|m: MomentSelector|
                #[trigger] old(self).moments.entry(m) == encoding_of(descriptors_in(a, m)),
            forall|m: MomentSelector|
                #[trigger] seen.entry(m) == encoding_of(descriptors_in(b, m)),
        ensures
            forall|m: MomentSelector|
                #[trigger] final(self).moments.entry(m) == encoding_of(descriptors_in(a + b, m)),
            final(self).radial_count == old(self).radial_count,
            final(self).azimuth == old(self).azimuth,
            final(self).elevation == old(self).elevation,
            final(self).azimuth_number == old(self).azimuth_number,
            final(self).elevation_number == old(self).elevation_number,
            final(self).collection_time_ms == old(self).collection_time_ms,
            final(self).modified_julian_date == old(self).modified_julian_date,
    {
        let all = MomentSelector::all();
        let mut i: usize = 0;
        while i < 7
            invariant
                i <= 7,
                a.len() + b.len() <= usize::MAX,
                all@ == seq![
                    MomentSelector::Ref,
                    MomentSelector::Vel,
                    MomentSelector::Sw,
                    MomentSelector::Zdr,
                    MomentSelector::Phi,
                    MomentSelector::Rho,
                    MomentSelector::Cfp,
                ],
                forall|m: MomentSelector|
                    #[trigger] seen.entry(m) == encoding_of(descriptors_in(b, m)),
                forall|m: MomentSelector|
                    #[trigger] self.moments.entry(m) == (if table_index(m) < i {
                        encoding_of(descriptors_in(a + b, m))
                    } else {
                        encoding_of(descriptors_in(a, m))
                    }),
                self.radial_count == old(self).radial_count,
                self.azimuth == old(self).azimuth,
                self.elevation == old(self).elevation,
                self.azimuth_number == old(self).azimuth_number,
                self.elevation_number == old(self).elevation_number,
                self.collection_time_ms == old(self).collection_time_ms,
                self.modified_julian_date == old(self).modified_julian_date,
            decreases 7 - i,
        {
            let m = all[i];
            assert(table_index(m) == i);
            proof {
                lemma_descriptors_joined(a, b, m);
                lemma_descriptors_joined(Seq::empty(), a, m);
            }
            self.merge_moment(
                m,
                seen.get(m),
                Ghost(descriptors_in(a, m)),
                Ghost(descriptors_in(b, m)),
            );
            i += 1;
        }
    }

    /// Add one radial.
    fn push_radial(
        &mut self,
        msg: &Msg31<'_>,
        Ghost(bodies): Ghost<Seq<Seq<u8>>>,
        Ghost(body): Ghost<Seq<u8>>,
    )
        requires
            old(self).is_of(bodies),
            radial_is(*msg, body),
        ensures
            final(self).is_of(bodies.push(body)),
    {
        let ghost before = *self;
        let mut seen = MomentTable::new();
        let all = MomentSelector::all();
        let mut i: usize = 0;
        while i < 7
            invariant
                i <= 7,
                radial_is(*msg, body),
                all@ == seq![
                    MomentSelector::Ref,
                    MomentSelector::Vel,
                    MomentSelector::Sw,
                    MomentSelector::Zdr,
                    MomentSelector::Phi,
                    MomentSelector::Rho,
                    MomentSelector::Cfp,
                ],
                forall|m: MomentSelector|
                    #[trigger] seen.entry(m) == (if table_index(m) < i {
                        encoding_of(descriptors_in(seq![body], m))
                    } else {
                        None
                    }),
            decreases 7 - i,
        {
            let m = all[i];
            assert(table_index(m) == i);
            proof {
                lemma_one_descriptor(body, m);
            }
            if let Some((descriptor, _)) = select_block(msg, m) {
                seen.put(m, MomentEncoding::from_descriptor(descriptor));
            }
            i += 1;
        }
        proof {
            reveal(RecordInventory::is_of);
        }
        self.azimuth.push(msg.header.azimuth_angle_degrees);
        self.radial_count = self.azimuth.len();
        self.elevation.push(msg.header.elevation_angle_degrees);
        self.azimuth_number.push(msg.header.azimuth_number);
        self.elevation_number.push(msg.header.elevation_number);
        self.collection_time_ms.push(msg.header.collection_time_ms);
        self.modified_julian_date.push(msg.header.modified_julian_date);
        let ghost one = seq![body];
        self.merge_moments(&seen, Ghost(bodies), Ghost(one));
        proof {
            let longer = bodies.push(body);
            assert(bodies + seq![body] =~= longer);
            assert(self.azimuth@ =~= azimuths_in(longer));
            assert(self.elevation@ =~= longer.map_values(|b: Seq<u8>| be32(b, 24)));
            assert(self.azimuth_number@ =~= longer.map_values(|b: Seq<u8>| be16(b, 10)));
            assert(self.elevation_number@ =~= longer.map_values(|b: Seq<u8>| b[22]));
            assert(self.collection_time_ms@ =~= longer.map_values(|b: Seq<u8>| be32(b, 4)));
            assert(self.modified_julian_date@ =~= longer.map_values(|b: Seq<u8>| be16(b, 8)));
        }
    }

    /// Add the radials of another inventory behind these.
    fn append(
        &mut self,
        other: RecordInventory,
        Ghost(a): Ghost<Seq<Seq<u8>>>,
        Ghost(b): Ghost<Seq<Seq<u8>>>,
    )
        requires
            old(self).is_of(a),
            other.is_of(b),
        ensures
            final(self).is_of(a + b),
    {
        proof {
            reveal(RecordInventory::is_of);
        }
        let mut other = other;
        self.azimuth.append(&mut other.azimuth);
        self.radial_count = self.azimuth.len();
        self.elevation.append(&mut other.elevation);
        self.azimuth_number.append(&mut other.azimuth_number);
        self.elevation_number.append(&mut other.elevation_number);
        self.collection_time_ms.append(&mut other.collection_time_ms);
        self.modified_julian_date.append(&mut other.modified_julian_date);
        self.merge_moments(&other.moments, Ghost(a), Ghost(b));
        proof {
            let ab = a + b;
            assert(self.azimuth@ =~= azimuths_in(ab));
            assert(self.elevation@ =~= ab.map_values(|b: Seq<u8>| be32(b, 24)));
            assert(self.azimuth_number@ =~= ab.map_values(|b: Seq<u8>| be16(b, 10)));
            assert(self.elevation_number@ =~= ab.map_values(|b: Seq<u8>| b[22]));
            assert(self.collection_time_ms@ =~= ab.map_values(|b: Seq<u8>| be32(b, 4)));
            assert(self.modified_julian_date@ =~= ab.map_values(|b: Seq<u8>| be16(b, 8)));
        }
    }
}

/// `r` is what taking the inventory of a stream gives.
pub open spec fn is_inventory_result(r: Result<RecordInventory, RadishError>, d: Seq<u8>) -> bool {
    match r {
        Ok(inv) => stream_bodies(d) is Ok && inv.is_of(stream_bodies(d)->Ok_0),
        Err(e) => stream_bodies(d) is Err && is_stream_error(e, stream_bodies(d)->Err_0),
    }
}

/// Inspect a single decompressed record.
pub fn record_moment_encoding(record: &[u8]) -> (r: Result<RecordInventory, RadishError>)
    ensures
        is_inventory_result(r, record@),
{
    let messages = match decode_messages(record) {
        Ok(m) => m,
        Err(e) => {
            return Err(decode_err(e));
        },
    };
    let ghost frames = message_frames(record@)->Ok_0;
    let radials = parse_radials(messages.as_slice(), Ghost(frames))?;
    let ghost bodies = radial_bodies(frames, frames.len() as int);
    let mut inventory = RecordInventory::empty();
    let mut i: usize = 0;
    assert(bodies.take(0) =~= Seq::empty());
    while i < radials.len()
        invariant
            i <= radials@.len(),
            radials_are(radials@, bodies),
            inventory.is_of(bodies.take(i as int)),
        decreases radials@.len() - i,
    {
        assert(radial_is(*radials@[i as int], bodies[i as int]));
        assert(bodies.take(i as int).push(bodies[i as int]) =~= bodies.take(i + 1));
        inventory.push_radial(
            radials[i],
            Ghost(bodies.take(i as int)),
            Ghost(bodies[i as int]),
        );
        i += 1;
    }
    assert(bodies.take(bodies.len() as int) =~= bodies);
    Ok(inventory)
}

fn stream_inventory(stream: &Vec<u8>) -> (r: Result<RecordInventory, RadishError>)
    ensures
        is_inventory_result(r, stream@),
{
    record_moment_encoding(stream.as_slice())
}

/// All streams hold radials that can be demultiplexed, or none at all.
pub open spec fn streams_readable(streams: Seq<Seq<u8>>) -> bool {
    forall|i: int| 0 <= i < streams.len() ==> stream_bodies(#[trigger] streams[i]) is Ok
}

/// `e` is what is wrong with one of the streams.
pub open spec fn is_some_stream_error(e: RadishError, streams: Seq<Seq<u8>>) -> bool {
    exists|i: int|
        0 <= i < streams.len() && stream_bodies(#[trigger] streams[i]) is Err && is_stream_error(
            e,
            stream_bodies(streams[i])->Err_0,
        )
}

/// Inspect a span of compressed records: the inventories of its streams, one
/// behind the other. Of several faults any one may be reported.
pub fn sweep_moment_encoding(span: &[u8]) -> (r: Result<RecordInventory, RadishError>)
    ensures
        ({
            let streams = span_streams(span@);
            match r {
                Ok(inv) => is_span_inventory(inv, span@),
                Err(e) => if !span_decompresses(span@) {
                    is_span_error(e, span@)
                } else {
                    is_some_stream_error(e, streams)
                },
            }
        }),
{
    let texts = decompress_span(span)?;
    let ghost streams = span_streams(span@);
    proof {
        assert forall|i: int| 0 <= i < streams.len() implies #[trigger] streams[i] == texts@[i]@ by {
            assert(byte_strings(texts@)[i] == texts@[i]@);
        }
    }
    let parts = match par_map(texts.as_slice(), stream_inventory) {
        Ok(parts) => parts,
        Err(e) => {
            proof {
                let i = choose|i: int|
                    0 <= i < texts@.len() && is_inventory_result(Err(e), (#[trigger] texts@[i])@);
                assert(streams[i] == texts@[i]@);
            }
            return Err(e);
        },
    };
    proof {
        assert forall|i: int| 0 <= i < streams.len() implies is_inventory_result(
            Ok(#[trigger] parts@[i]),
            streams[i],
        ) by {
            assert(streams[i] == texts@[i]@);
        }
    }
    Ok(merge_inventories(parts, Ghost(streams)))
}

/// Put the inventories of streams one behind the other.
fn merge_inventories(parts: Vec<RecordInventory>, Ghost(streams): Ghost<Seq<Seq<u8>>>) -> (r:
    RecordInventory)
    requires
        parts@.len() == streams.len(),
        forall|i: int|
            0 <= i < streams.len() ==> is_inventory_result(Ok(#[trigger] parts@[i]), streams[i]),
    ensures
        streams_readable(streams),
        r.is_of(joined_bodies(streams, streams.len() as int)),
{
    let ghost all = parts@;
    let mut merged = RecordInventory::empty();
    for part in it: parts.into_iter()
        invariant
            all == it.seq(),
            all.len() == streams.len(),
            forall|i: int|
                0 <= i < streams.len() ==> is_inventory_result(Ok(#[trigger] all[i]), streams[i]),
            merged.is_of(joined_bodies(streams, it.index() as int)),
    {
        let ghost k = it.index() as int;
        assert(is_inventory_result(Ok(all[k]), streams[k]));
        merged.append(
            part,
            Ghost(joined_bodies(streams, k)),
            Ghost(stream_bodies(streams[k])->Ok_0),
        );
    }
    proof {
        assert forall|i: int| 0 <= i < streams.len() implies stream_bodies(
            #[trigger] streams[i],
        ) is Ok by {
            assert(is_inventory_result(Ok(all[i]), streams[i]));
        }
    }
    merged
}

proof fn lemma_bodies_parse(frames: Seq<Frame>, n: int, i: int)
    requires
        0 <= n <= frames.len(),
        0 <= i < radial_bodies(frames, n).len(),
    ensures
        msg31_outcome(radial_bodies(frames, n)[i], 0, 0) is Ok,
    decreases n,
{
    if n > 0 {
        let before = radial_bodies(frames, n - 1);
        if i < before.len() {
            lemma_bodies_parse(frames, n - 1, i);
        }
    }
}

proof fn lemma_gates_present(body: Seq<u8>, moment: MomentSelector)
    requires
        msg31_outcome(body, 0, 0) is Ok,
        block_in(body, moment) is Some,
    ensures
        gates_present(block_in(body, moment)->0) == block_in(body, moment)->0.descriptor.gate_count,
{
    blocks_of_a_radial_are_complete(body, 0, 0);
    let found = msg31_outcome(body, 0, 0)->Ok_0.0;
    let kind = moment.slot();
    assert(found.contains_key(kind));
    let p = found[kind];
    assert(block_outcome(body, kind, p) == moment_block_outcome(body, p));
    let b = block_in(body, moment)->0;
    let (count, width) = (b.descriptor.gate_count as int, b.descriptor.word_bytes());
    assert(descriptor_error(body, p) is None);
    assert(width == 1 || width == 2);
    assert(b.gates.len() == count * width) by {
        assert(count * width >= 0) by (nonlinear_arith)
            requires
                count >= 0,
                width >= 0,
        ;
    }
    vstd::arithmetic::div_mod::lemma_div_multiples_vanish(count, width);
    assert(width * count == count * width) by (nonlinear_arith);
}

proof fn lemma_max_gates_bounds(ds: Seq<MomentDescriptor>, j: int)
    requires
        0 <= j < ds.len(),
    ensures
        ds[j].gate_count <= max_gates(ds),
    decreases ds.len(),
{
    if j < ds.len() - 1 {
        lemma_max_gates_bounds(ds.drop_last(), j);
    }
}

/// Position among the descriptors of the one that radial `i` carries.
proof fn lemma_descriptor_listed(bodies: Seq<Seq<u8>>, moment: MomentSelector, i: int) -> (j: int)
    requires
        0 <= i < bodies.len(),
        block_in(bodies[i], moment) is Some,
    ensures
        0 <= j < descriptors_in(bodies, moment).len(),
        descriptors_in(bodies, moment)[j] == block_in(bodies[i], moment)->0.descriptor,
    decreases bodies.len(),
{
    let before = bodies.drop_last();
    let block = block_in(bodies[i], moment);
    if i == bodies.len() - 1 {
        assert(bodies.last() == bodies[i]);
        assert(descriptors_in(bodies, moment) == descriptors_in(before, moment).push(
            block->0.descriptor,
        ));
        descriptors_in(before, moment).len() as int
    } else {
        assert(before[i] == bodies[i]);
        let j = lemma_descriptor_listed(before, moment, i);
        match block_in(bodies.last(), moment) {
            Some(last) => {
                assert(descriptors_in(bodies, moment) == descriptors_in(before, moment).push(
                    last.descriptor,
                ));
            },
            None => {},
        }
        j
    }
}

/// A radial that carries descriptor `j`.
proof fn lemma_descriptor_carried(bodies: Seq<Seq<u8>>, moment: MomentSelector, j: int) -> (i: int)
    requires
        0 <= j < descriptors_in(bodies, moment).len(),
    ensures
        0 <= i < bodies.len(),
        block_in(bodies[i], moment) is Some,
        descriptors_in(bodies, moment)[j] == block_in(bodies[i], moment)->0.descriptor,
    decreases bodies.len(),
{
    let rest = bodies.drop_last();
    let before = descriptors_in(rest, moment);
    let last = block_in(bodies.last(), moment);
    assert(bodies.len() > 0);
    assert(bodies.last() == bodies[bodies.len() - 1]);
    if last is Some {
        assert(descriptors_in(bodies, moment) == before.push(last->0.descriptor));
    } else {
        assert(descriptors_in(bodies, moment) == before);
    }
    if j == before.len() {
        bodies.len() - 1
    } else {
        let i = lemma_descriptor_carried(rest, moment, j);
        assert(rest[i] == bodies[i]);
        i
    }
}

proof fn lemma_rows_fit(rows: Seq<RowModel>, k: int, pinned: Option<EncodingKey>, o: DemuxOptions)
    requires
        forall|i: int|
            0 <= i < rows.len() && (#[trigger] rows[i]).block is Some ==> gates_present(
                rows[i].block->0,
            ) <= o.gates,
        0 <= k,
    ensures
        rows_outcome(rows, k, pinned, o) matches Err(e) ==> !(e is TooManyGates),
    decreases rows.len() - k,
{
    if k < rows.len() {
        match rows[k].block {
            None => {
                lemma_rows_fit(rows, k + 1, pinned, o);
            },
            Some(b) => {
                lemma_rows_fit(rows, k + 1, Some(block_key(b.descriptor)), o);
            },
        }
    }
}

/// An array that is sized by the inventory of a record holds what the record
/// carries: with a row for every radial and a column for every gate of the
/// widest radial, a request on that record is refused neither for its radials
/// nor for its gates.
pub proof fn inventory_sizes_suffice(d: Seq<u8>, inv: RecordInventory, o: DemuxOptions)
    requires
        is_inventory_result(Ok(inv), d),
        validation_error(o) is None,
        inv.radial_count <= o.rays,
        inv.moments.entry(o.moment) matches Some(e) ==> e.max_gate_count <= o.gates,
    ensures
        record_admitted(d, o),
        rows_outcome(rows_in(stream_bodies(d)->Ok_0, o.moment), 0, None, o) matches Err(e)
            ==> !(e is TooManyGates),
{
    reveal(RecordInventory::is_of);
    let bodies = stream_bodies(d)->Ok_0;
    let rows = rows_in(bodies, o.moment);
    let frames = message_frames(d)->Ok_0;
    assert forall|i: int| 0 <= i < rows.len() && (#[trigger] rows[i]).block is Some implies
        gates_present(rows[i].block->0) <= o.gates by {
        assert(rows[i] == row_in(bodies[i], o.moment));
        lemma_bodies_parse(frames, frames.len() as int, i);
        lemma_gates_present(bodies[i], o.moment);
        let j = lemma_descriptor_listed(bodies, o.moment, i);
        lemma_max_gates_bounds(descriptors_in(bodies, o.moment), j);
        assert(inv.moments.entry(o.moment) == encoding_of(descriptors_in(bodies, o.moment)));
    }
    lemma_rows_fit(rows, 0, None, o);
}

proof fn lemma_rows_share_key(
    rows: Seq<RowModel>,
    k: int,
    pinned: Option<EncodingKey>,
    key: EncodingKey,
    o: DemuxOptions,
)
    requires
        0 <= k,
        o.target is None,
        key.word_size == o.word.width(),
        pinned is None || pinned == Some(key),
        forall|i: int|
            0 <= i < rows.len() && (#[trigger] rows[i]).block is Some ==> {
                &&& block_key(rows[i].block->0.descriptor) == key
                &&& gates_present(rows[i].block->0) <= o.gates
            },
    ensures
        rows_outcome(rows, k, pinned, o) is Ok,
        rows_outcome(rows, k, pinned, o)->Ok_0 is Some ==> rows_outcome(rows, k, pinned, o)->Ok_0
            == Some(key),
    decreases rows.len() - k,
{
    if k < rows.len() {
        let next = if rows[k].block is Some {
            Some(key)
        } else {
            pinned
        };
        lemma_rows_share_key(rows, k + 1, next, key, o);
    }
}

/// No two of the descriptors hold zeros that differ in sign.
pub open spec fn zeros_agree(ds: Seq<MomentDescriptor>) -> bool {
    forall|i: int, j: int|
        0 <= i < ds.len() && 0 <= j < ds.len() ==> {
            &&& same_number((#[trigger] ds[i]).scale, (#[trigger] ds[j]).scale) ==> ds[i].scale
                == ds[j].scale
            &&& same_number(ds[i].offset, ds[j].offset) ==> ds[i].offset == ds[j].offset
        }
}

/// A moment that is uniform needs no target grid: in an array that is sized by
/// the inventory, of the width that the inventory reports, it is delivered as
/// it was transmitted, if the memory is to be had.
pub proof fn uniform_moments_need_no_target(d: Seq<u8>, inv: RecordInventory, o: DemuxOptions)
    requires
        is_inventory_result(Ok(inv), d),
        validation_error(o) is None,
        o.target is None,
        inv.radial_count <= o.rays,
        inv.moments.entry(o.moment) matches Some(e) ==> {
            &&& e.uniform
            &&& e.max_gate_count <= o.gates
            &&& e.word_size == o.word.width()
        },
        zeros_agree(descriptors_in(stream_bodies(d)->Ok_0, o.moment)),
    ensures
        record_demuxes(d, o),
{
    inventory_sizes_suffice(d, inv, o);
    reveal(RecordInventory::is_of);
    let bodies = stream_bodies(d)->Ok_0;
    let rows = rows_in(bodies, o.moment);
    let frames = message_frames(d)->Ok_0;
    let ds = descriptors_in(bodies, o.moment);
    assert(inv.moments.entry(o.moment) == encoding_of(ds));
    let key = if ds.len() > 0 {
        block_key(ds[0])
    } else {
        EncodingKey { word_size: o.word.width(), scale: 0, offset: 0 }
    };
    assert forall|i: int| 0 <= i < rows.len() && (#[trigger] rows[i]).block is Some implies {
        &&& block_key(rows[i].block->0.descriptor) == key
        &&& gates_present(rows[i].block->0) <= o.gates
    } by {
        assert(rows[i] == row_in(bodies[i], o.moment));
        lemma_bodies_parse(frames, frames.len() as int, i);
        lemma_gates_present(bodies[i], o.moment);
        let j = lemma_descriptor_listed(bodies, o.moment, i);
        lemma_max_gates_bounds(ds, j);
        if j > 0 {
            assert(same_encoding(ds[0], ds[j]));
        }
    }
    lemma_rows_share_key(rows, 0, None, key, o);
}

proof fn lemma_written_rows_share_key(
    rows: Seq<RowModel>,
    k: int,
    pinned: Option<EncodingKey>,
    o: DemuxOptions,
    i: int,
)
    requires
        0 <= k <= i < rows.len(),
        o.target is None,
        rows_outcome(rows, k, pinned, o) is Ok,
        rows[i].block is Some,
        pinned is Some,
    ensures
        block_key(rows[i].block->0.descriptor) == pinned->0,
    decreases rows.len() - k,
{
    if k < i {
        lemma_written_rows_share_key(rows, k + 1, pinned, o, i);
    }
}

proof fn lemma_two_rows_share_key(
    rows: Seq<RowModel>,
    k: int,
    o: DemuxOptions,
    i: int,
    j: int,
)
    requires
        0 <= k <= i < j < rows.len(),
        o.target is None,
        rows_outcome(rows, k, None, o) is Ok,
        rows[i].block is Some,
        rows[j].block is Some,
    ensures
        block_key(rows[i].block->0.descriptor) == block_key(rows[j].block->0.descriptor),
    decreases rows.len() - k,
{
    match rows[k].block {
        Some(b) => {
            let key = block_key(b.descriptor);
            lemma_written_rows_share_key(rows, k + 1, Some(key), o, j);
            if k < i {
                lemma_written_rows_share_key(rows, k + 1, Some(key), o, i);
            }
        },
        None => {
            lemma_two_rows_share_key(rows, k + 1, o, i, j);
        },
    }
}

/// No scale or offset is NaN.
pub open spec fn are_numbers(ds: Seq<MomentDescriptor>) -> bool {
    forall|i: int| 0 <= i < ds.len() ==> !nan((#[trigger] ds[i]).scale) && !nan(ds[i].offset)
}

/// A moment that is not uniform needs a target grid: without one no request on
/// it succeeds.
pub proof fn mixed_moments_need_a_target(d: Seq<u8>, inv: RecordInventory, o: DemuxOptions)
    requires
        is_inventory_result(Ok(inv), d),
        o.target is None,
        inv.moments.entry(o.moment) matches Some(e) && !e.uniform,
        are_numbers(descriptors_in(stream_bodies(d)->Ok_0, o.moment)),
    ensures
        !record_demuxes(d, o),
{
    reveal(RecordInventory::is_of);
    let bodies = stream_bodies(d)->Ok_0;
    let rows = rows_in(bodies, o.moment);
    let ds = descriptors_in(bodies, o.moment);
    assert(inv.moments.entry(o.moment) == encoding_of(ds));
    let j = choose|j: int| 0 < j < ds.len() && !same_encoding(ds[0], #[trigger] ds[j]);
    let a = lemma_descriptor_carried(bodies, o.moment, 0);
    let b = lemma_descriptor_carried(bodies, o.moment, j);
    assert(block_key(ds[0]) != block_key(ds[j]));
    assert(rows[a] == row_in(bodies[a], o.moment));
    assert(rows[b] == row_in(bodies[b], o.moment));
    if rows_outcome(rows, 0, None, o) is Ok {
        if a < b {
            lemma_two_rows_share_key(rows, 0, o, a, b);
        } else if b < a {
            lemma_two_rows_share_key(rows, 0, o, b, a);
        }
    }
}

/// `inv` is the inventory of a span.
pub open spec fn is_span_inventory(inv: RecordInventory, span: Seq<u8>) -> bool {
    let streams = span_streams(span);
    &&& span_decompresses(span)
    &&& streams_readable(streams)
    &&& inv.is_of(joined_bodies(streams, streams.len() as int))
}

/// The radials of stream `i` among those of the first `n`.
proof fn lemma_stream_among_joined(streams: Seq<Seq<u8>>, i: int, n: int)
    requires
        0 <= i < n <= streams.len(),
    ensures
        ({
            let bodies = stream_bodies(streams[i])->Ok_0;
            let before = joined_bodies(streams, i).len() as int;
            let all = joined_bodies(streams, n);
            &&& before + bodies.len() <= all.len()
            &&& forall|k: int| 0 <= k < bodies.len() ==> #[trigger] bodies[k] == all[before + k]
        }),
    decreases n,
{
    if i < n - 1 {
        lemma_stream_among_joined(streams, i, n - 1);
    }
}

/// The stream that radial `j` of the first `n` streams comes from, and its
/// position there.
proof fn lemma_joined_from_stream(streams: Seq<Seq<u8>>, n: int, j: int) -> (r: (int, int))
    requires
        0 <= n <= streams.len(),
        0 <= j < joined_bodies(streams, n).len(),
    ensures
        0 <= r.0 < n,
        0 <= r.1 < stream_bodies(streams[r.0])->Ok_0.len(),
        j == joined_bodies(streams, r.0).len() + r.1,
        joined_bodies(streams, n)[j] == stream_bodies(streams[r.0])->Ok_0[r.1],
    decreases n,
{
    let before = joined_bodies(streams, n - 1);
    if j >= before.len() {
        (n - 1, j - before.len())
    } else {
        lemma_joined_from_stream(streams, n - 1, j)
    }
}

/// What the rows of stream `i` of a span hold.
proof fn lemma_span_row(
    streams: Seq<Seq<u8>>,
    i: int,
    k: int,
    o: DemuxOptions,
) -> (j: int)
    requires
        0 <= i < streams.len(),
        streams_readable(streams),
        0 <= k < stream_bodies(streams[i])->Ok_0.len(),
        block_in(stream_bodies(streams[i])->Ok_0[k], o.moment) is Some,
    ensures
        ({
            let ds = descriptors_in(joined_bodies(streams, streams.len() as int), o.moment);
            let b = block_in(stream_bodies(streams[i])->Ok_0[k], o.moment)->0;
            &&& 0 <= j < ds.len()
            &&& ds[j] == b.descriptor
            &&& gates_present(b) == b.descriptor.gate_count
            &&& b.descriptor.gate_count <= max_gates(ds)
        }),
{
    let n = streams.len() as int;
    let bodies = stream_bodies(streams[i])->Ok_0;
    let before = joined_bodies(streams, i).len() as int;
    let all = joined_bodies(streams, n);
    lemma_stream_among_joined(streams, i, n);
    assert(bodies[k] == all[before + k]);
    assert(stream_bodies(streams[i]) is Ok);
    let frames = message_frames(streams[i])->Ok_0;
    lemma_bodies_parse(frames, frames.len() as int, k);
    lemma_gates_present(bodies[k], o.moment);
    let j = lemma_descriptor_listed(all, o.moment, before + k);
    lemma_max_gates_bounds(descriptors_in(all, o.moment), j);
    j
}

/// An array that is sized by the inventory of a span holds what the span
/// carries: a request on that span is refused neither for its radials nor, in
/// any of its streams, for its gates.
pub proof fn span_inventory_sizes_suffice(
    span: Seq<u8>,
    inv: RecordInventory,
    o: DemuxOptions,
    i: int,
)
    requires
        is_span_inventory(inv, span),
        inv.radial_count <= o.rays,
        inv.moments.entry(o.moment) matches Some(e) ==> e.max_gate_count <= o.gates,
        0 <= i < span_streams(span).len(),
    ensures
        ({
            let streams = span_streams(span);
            let bodies = stream_bodies(streams[i])->Ok_0;
            &&& stream_fits(streams[i], joined_bodies(streams, i).len() as int, o)
            &&& rows_outcome(rows_in(bodies, o.moment), 0, None, o) matches Err(e) ==> !(
            e is TooManyGates)
        }),
{
    reveal(RecordInventory::is_of);
    let streams = span_streams(span);
    let n = streams.len() as int;
    let bodies = stream_bodies(streams[i])->Ok_0;
    let rows = rows_in(bodies, o.moment);
    let ds = descriptors_in(joined_bodies(streams, n), o.moment);
    lemma_stream_among_joined(streams, i, n);
    assert(stream_bodies(streams[i]) is Ok);
    assert(inv.moments.entry(o.moment) == encoding_of(ds));
    assert forall|k: int| 0 <= k < rows.len() && (#[trigger] rows[k]).block is Some implies
        gates_present(rows[k].block->0) <= o.gates by {
        assert(rows[k] == row_in(bodies[k], o.moment));
        let j = lemma_span_row(streams, i, k, o);
    }
    lemma_rows_fit(rows, 0, None, o);
}

proof fn lemma_streams_share_key(
    streams: Seq<Seq<u8>>,
    k: int,
    seen: Option<EncodingKey>,
    key: EncodingKey,
    o: DemuxOptions,
)
    requires
        0 <= k,
        seen is None || seen == Some(key),
        forall|i: int|
            0 <= i < streams.len() ==> stream_key(#[trigger] streams[i], o) is None || stream_key(
                streams[i],
                o,
            ) == Some(key),
    ensures
        cross_error(streams, k, seen, o) is None,
    decreases streams.len() - k,
{
    if o.target is None && k < streams.len() {
        assert(stream_key(streams[k], o) is None || stream_key(streams[k], o) == Some(key));
        lemma_streams_share_key(
            streams,
            k + 1,
            if seen is Some {
                seen
            } else {
                stream_key(streams[k], o)
            },
            key,
            o,
        );
    }
}

/// A moment that is uniform over a span needs no target grid: in an array that
/// is sized by the span's inventory, of the width that the inventory reports,
/// it is delivered as it was transmitted, if the memory is to be had.
pub proof fn uniform_moments_of_a_span_need_no_target(
    span: Seq<u8>,
    inv: RecordInventory,
    o: DemuxOptions,
)
    requires
        is_span_inventory(inv, span),
        validation_error(o) is None,
        o.target is None,
        inv.radial_count <= o.rays,
        inv.moments.entry(o.moment) matches Some(e) ==> {
            &&& e.uniform
            &&& e.max_gate_count <= o.gates
            &&& e.word_size == o.word.width()
        },
        zeros_agree(
            descriptors_in(
                joined_bodies(span_streams(span), span_streams(span).len() as int),
                o.moment,
            ),
        ),
    ensures
        sweep_demuxes(span, o),
{
    reveal(RecordInventory::is_of);
    reveal(stream_demuxes);
    let streams = span_streams(span);
    let n = streams.len() as int;
    let ds = descriptors_in(joined_bodies(streams, n), o.moment);
    assert(inv.moments.entry(o.moment) == encoding_of(ds));
    let key = if ds.len() > 0 {
        block_key(ds[0])
    } else {
        EncodingKey { word_size: o.word.width(), scale: 0, offset: 0 }
    };
    assert forall|i: int| 0 <= i < n implies stream_demuxes(
        #[trigger] streams[i],
        joined_bodies(streams, i).len() as int,
        o,
    ) && (stream_key(streams[i], o) is None || stream_key(streams[i], o) == Some(key)) by {
        span_inventory_sizes_suffice(span, inv, o, i);
        let bodies = stream_bodies(streams[i])->Ok_0;
        let rows = rows_in(bodies, o.moment);
        assert forall|k: int| 0 <= k < rows.len() && (#[trigger] rows[k]).block is Some implies {
            &&& block_key(rows[k].block->0.descriptor) == key
            &&& gates_present(rows[k].block->0) <= o.gates
        } by {
            assert(rows[k] == row_in(bodies[k], o.moment));
            let j = lemma_span_row(streams, i, k, o);
            if j > 0 {
                assert(same_encoding(ds[0], ds[j]));
            }
        }
        lemma_rows_share_key(rows, 0, None, key, o);
    }
    lemma_streams_share_key(streams, 0, None, key, o);
}

/// Rows that are written leave the encoding of the blocks so far.
proof fn lemma_pin_stays(rows: Seq<RowModel>, k: int, pinned: EncodingKey, o: DemuxOptions)
    requires
        0 <= k,
        o.target is None,
        rows_outcome(rows, k, Some(pinned), o) is Ok,
    ensures
        rows_outcome(rows, k, Some(pinned), o)->Ok_0 == Some(pinned),
    decreases rows.len() - k,
{
    if k < rows.len() {
        lemma_pin_stays(rows, k + 1, pinned, o);
    }
}

/// Rows that are written leave the encoding of any of their blocks.
proof fn lemma_key_of_rows(rows: Seq<RowModel>, k: int, o: DemuxOptions, i: int)
    requires
        0 <= k <= i < rows.len(),
        o.target is None,
        rows_outcome(rows, k, None, o) is Ok,
        rows[i].block is Some,
    ensures
        rows_outcome(rows, k, None, o)->Ok_0 == Some(block_key(rows[i].block->0.descriptor)),
    decreases rows.len() - k,
{
    match rows[k].block {
        Some(b) => {
            let key = block_key(b.descriptor);
            lemma_pin_stays(rows, k + 1, key, o);
            if k < i {
                lemma_written_rows_share_key(rows, k + 1, Some(key), o, i);
            }
        },
        None => {
            lemma_key_of_rows(rows, k + 1, o, i);
        },
    }
}

proof fn lemma_seen_key(
    streams: Seq<Seq<u8>>,
    k: int,
    seen: EncodingKey,
    o: DemuxOptions,
    i: int,
)
    requires
        0 <= k <= i < streams.len(),
        o.target is None,
        cross_error(streams, k, Some(seen), o) is None,
        stream_key(streams[i], o) is Some,
    ensures
        stream_key(streams[i], o) == Some(seen),
    decreases streams.len() - k,
{
    if k < i {
        lemma_seen_key(streams, k + 1, seen, o, i);
    }
}

proof fn lemma_common_key(streams: Seq<Seq<u8>>, k: int, o: DemuxOptions, i: int, j: int)
    requires
        0 <= k <= i < streams.len(),
        k <= j < streams.len(),
        o.target is None,
        cross_error(streams, k, None, o) is None,
        stream_key(streams[i], o) is Some,
        stream_key(streams[j], o) is Some,
    ensures
        stream_key(streams[i], o) == stream_key(streams[j], o),
    decreases streams.len() - k,
{
    match stream_key(streams[k], o) {
        Some(key) => {
            if k < i {
                lemma_seen_key(streams, k + 1, key, o, i);
            }
            if k < j {
                lemma_seen_key(streams, k + 1, key, o, j);
            }
        },
        None => {
            lemma_common_key(streams, k + 1, o, i, j);
        },
    }
}

/// The encoding of a block is that on which its stream settled.
proof fn lemma_block_has_stream_key(streams: Seq<Seq<u8>>, i: int, k: int, o: DemuxOptions)
    requires
        0 <= i < streams.len(),
        o.target is None,
        streams_demux(streams, streams.len() as int, o),
        0 <= k < stream_bodies(streams[i])->Ok_0.len(),
        block_in(stream_bodies(streams[i])->Ok_0[k], o.moment) is Some,
    ensures
        stream_key(streams[i], o) == Some(
            block_key(block_in(stream_bodies(streams[i])->Ok_0[k], o.moment)->0.descriptor),
        ),
{
    reveal(stream_demuxes);
    let bodies = stream_bodies(streams[i])->Ok_0;
    let rows = rows_in(bodies, o.moment);
    assert(stream_demuxes(streams[i], joined_bodies(streams, i).len() as int, o));
    assert(rows[k] == row_in(bodies[k], o.moment));
    lemma_key_of_rows(rows, 0, o, k);
}

/// A moment that is not uniform over a span needs a target grid: without one no
/// request on it succeeds.
pub proof fn mixed_moments_of_a_span_need_a_target(
    span: Seq<u8>,
    inv: RecordInventory,
    o: DemuxOptions,
)
    requires
        is_span_inventory(inv, span),
        o.target is None,
        inv.moments.entry(o.moment) matches Some(e) && !e.uniform,
        are_numbers(
            descriptors_in(
                joined_bodies(span_streams(span), span_streams(span).len() as int),
                o.moment,
            ),
        ),
    ensures
        !sweep_demuxes(span, o),
{
    reveal(RecordInventory::is_of);
    let streams = span_streams(span);
    let n = streams.len() as int;
    let all = joined_bodies(streams, n);
    let ds = descriptors_in(all, o.moment);
    assert(inv.moments.entry(o.moment) == encoding_of(ds));
    let j = choose|j: int| 0 < j < ds.len() && !same_encoding(ds[0], #[trigger] ds[j]);
    assert(block_key(ds[0]) != block_key(ds[j]));
    let a = lemma_descriptor_carried(all, o.moment, 0);
    let b = lemma_descriptor_carried(all, o.moment, j);
    let (sa, ka) = lemma_joined_from_stream(streams, n, a);
    let (sb, kb) = lemma_joined_from_stream(streams, n, b);
    if sweep_demuxes(span, o) {
        lemma_block_has_stream_key(streams, sa, ka, o);
        lemma_block_has_stream_key(streams, sb, kb, o);
        lemma_common_key(streams, 0, o, sa, sb);
    }
}

/// Sorted rows come in the stable order of the azimuths that the inventory of
/// the same radials lists.
pub proof fn sorted_rows_follow_the_inventory(
    words: Seq<int>,
    bodies: Seq<Seq<u8>>,
    inv: RecordInventory,
    o: DemuxOptions,
    order: Seq<usize>,
)
    requires
        inv.is_of(bodies),
        is_sweep_output(words, bodies, o, true),
        is_stable_order(order, angle_keys(inv.azimuth@)),
    ensures
        words == demuxed(reordered(bodies, order), o),
{
    reveal(RecordInventory::is_of);
    let keys = angle_keys(azimuths_in(bodies));
    let used = choose|used: Seq<usize>|
        #[trigger] is_stable_order(used, keys) && words == demuxed(reordered(bodies, used), o);
    stable_order_is_unique(order, used, keys);
}

/// The inventory lists the header of radial `i` in place `i` of every list, as
/// the decoded radial has it.
pub proof fn inventories_list_the_headers(inv: RecordInventory, bodies: Seq<Seq<u8>>, i: int)
    requires
        inv.is_of(bodies),
        0 <= i < bodies.len(),
    ensures
        inv.radial_count == bodies.len(),
        inv.azimuth@.len() == bodies.len(),
        inv.elevation@.len() == bodies.len(),
        inv.azimuth_number@.len() == bodies.len(),
        inv.elevation_number@.len() == bodies.len(),
        inv.collection_time_ms@.len() == bodies.len(),
        inv.modified_julian_date@.len() == bodies.len(),
        ({
            let r = radial_at_msg31(bodies[i]);
            &&& inv.azimuth@[i] == r.azimuth_angle_degrees
            &&& inv.elevation@[i] == r.elevation_angle_degrees
            &&& inv.azimuth_number@[i] == r.azimuth_number
            &&& inv.elevation_number@[i] == r.elevation_number
            &&& r.collection_time is Some
            &&& r.collection_time->0.millis_since_epoch() == (inv.modified_julian_date@[i] - 1)
                * 86_400_000 + inv.collection_time_ms@[i]
        }),
{
    reveal(RecordInventory::is_of);
    let b = bodies[i];
    day_instant_counts_milliseconds(be16(b, 8) as int, be32(b, 4) as int);
}

/// Numbers are the same if they are equal; what is not a number is the same as
/// nothing.
pub proof fn same_numbers_are_equal(a: u32, b: u32)
    ensures
        finite(a) && finite(b) ==> (same_number(a, b) <==> scaled(a) == scaled(b)),
        nan(a) || nan(b) ==> !same_number(a, b),
{
    if finite(a) && finite(b) {
        order_key_orders_numbers(a, b);
    }
}

/// The radial carries the moment.
pub open spec fn carries(body: Seq<u8>, moment: MomentSelector) -> bool {
    block_in(body, moment) is Some
}

proof fn lemma_carriers_counted(bodies: Seq<Seq<u8>>, moment: MomentSelector)
    ensures
        descriptors_in(bodies, moment).len() == bodies.filter(
            |b: Seq<u8>| carries(b, moment),
        ).len(),
    decreases bodies.len(),
{
    let f = |b: Seq<u8>| carries(b, moment);
    reveal(Seq::filter);
    if bodies.len() > 0 {
        lemma_carriers_counted(bodies.drop_last(), moment);
        assert(f(bodies.last()) == carries(bodies.last(), moment));
    }
}

proof fn lemma_first_carrier(bodies: Seq<Seq<u8>>, moment: MomentSelector) -> (i: int)
    requires
        descriptors_in(bodies, moment).len() > 0,
    ensures
        0 <= i < bodies.len(),
        carries(bodies[i], moment),
        descriptors_in(bodies, moment)[0] == block_in(bodies[i], moment)->0.descriptor,
        forall|j: int| 0 <= j < i ==> !carries(#[trigger] bodies[j], moment),
    decreases bodies.len(),
{
    let rest = bodies.drop_last();
    if descriptors_in(rest, moment).len() > 0 {
        let i = lemma_first_carrier(rest, moment);
        assert forall|j: int| 0 <= j < i implies !carries(#[trigger] bodies[j], moment) by {
            assert(rest[j] == bodies[j]);
        }
        assert(rest[i] == bodies[i]);
        i
    } else {
        assert forall|j: int| 0 <= j < bodies.len() - 1 implies !carries(
            #[trigger] bodies[j],
            moment,
        ) by {
            assert(rest[j] == bodies[j]);
            if carries(rest[j], moment) {
                let k = lemma_descriptor_listed(rest, moment, j);
            }
        }
        bodies.len() - 1
    }
}

proof fn lemma_max_gates_reached(ds: Seq<MomentDescriptor>) -> (j: int)
    requires
        ds.len() > 0,
    ensures
        0 <= j < ds.len(),
        ds[j].gate_count == max_gates(ds),
    decreases ds.len(),
{
    if ds.len() == 1 || ds.last().gate_count > max_gates(ds.drop_last()) {
        if ds.len() == 1 {
            reveal_with_fuel(max_gates, 2);
        }
        ds.len() - 1
    } else {
        lemma_max_gates_reached(ds.drop_last())
    }
}

/// The inventory describes a moment by the radials that carry it. It has no entry
/// if there are none. Its first-seen values are those of the first carrier, its
/// largest gate count is that of some carrier and no carrier has more, and it
/// counts the carriers.
#[verifier::rlimit(50)]
pub proof fn inventories_describe_the_carriers(
    inv: RecordInventory,
    bodies: Seq<Seq<u8>>,
    moment: MomentSelector,
)
    requires
        inv.is_of(bodies),
    ensures
        match inv.moments.entry(moment) {
            None => forall|i: int| 0 <= i < bodies.len() ==> !carries(#[trigger] bodies[i], moment),
            Some(e) => {
                &&& exists|i: int|
                    {
                        let first = block_in(bodies[i], moment)->0.descriptor;
                        &&& 0 <= i < bodies.len()
                        &&& carries(#[trigger] bodies[i], moment)
                        &&& forall|j: int| 0 <= j < i ==> !carries(#[trigger] bodies[j], moment)
                        &&& e.word_size == first.data_word_size_bits
                        &&& e.scale == first.scale
                        &&& e.offset == first.offset
                        &&& e.gate_count == first.gate_count
                        &&& e.first_gate_m == first.range_to_first_gate_m
                        &&& e.gate_interval_m == first.gate_interval_m
                    }
                &&& exists|i: int|
                    0 <= i < bodies.len() && carries(#[trigger] bodies[i], moment) && block_in(
                        bodies[i],
                        moment,
                    )->0.descriptor.gate_count == e.max_gate_count
                &&& forall|i: int|
                    0 <= i < bodies.len() && carries(#[trigger] bodies[i], moment) ==> block_in(
                        bodies[i],
                        moment,
                    )->0.descriptor.gate_count <= e.max_gate_count
                &&& bodies.len() <= usize::MAX ==> e.radials_present == bodies.filter(
                    |b: Seq<u8>| carries(b, moment),
                ).len()
            },
        },
{
    reveal(RecordInventory::is_of);
    let ds = descriptors_in(bodies, moment);
    assert(inv.moments.entry(moment) == encoding_of(ds));
    lemma_carriers_counted(bodies, moment);
    lemma_descriptors_joined(Seq::empty(), bodies, moment);
    assert forall|i: int| 0 <= i < bodies.len() && carries(
        #[trigger] bodies[i],
        moment,
    ) implies ds.len() > 0 && block_in(bodies[i], moment)->0.descriptor.gate_count <= max_gates(
        ds,
    ) by {
        let j = lemma_descriptor_listed(bodies, moment, i);
        lemma_max_gates_bounds(ds, j);
    }
    if ds.len() > 0 {
        let first = lemma_first_carrier(bodies, moment);
        let j = lemma_max_gates_reached(ds);
        let i = lemma_descriptor_carried(bodies, moment, j);
        assert(carries(bodies[first], moment));
        assert(carries(bodies[i], moment));
    }
}

/// A moment is uniform if no two of its carriers differ in word size, scale or
/// offset, of which none is NaN.
#[verifier::rlimit(50)]
pub proof fn uniform_moments_have_one_encoding(
    inv: RecordInventory,
    bodies: Seq<Seq<u8>>,
    moment: MomentSelector,
    i: int,
    j: int,
)
    requires
        inv.is_of(bodies),
        are_numbers(descriptors_in(bodies, moment)),
        inv.moments.entry(moment) matches Some(e) && e.uniform,
        0 <= i < bodies.len(),
        0 <= j < bodies.len(),
        carries(bodies[i], moment),
        carries(bodies[j], moment),
    ensures
        ({
            let (a, b) = (
                block_in(bodies[i], moment)->0.descriptor,
                block_in(bodies[j], moment)->0.descriptor,
            );
            &&& a.data_word_size_bits == b.data_word_size_bits
            &&& finite(a.scale) && finite(b.scale) ==> scaled(a.scale) == scaled(b.scale)
            &&& finite(a.offset) && finite(b.offset) ==> scaled(a.offset) == scaled(b.offset)
        }),
{
    reveal(RecordInventory::is_of);
    let ds = descriptors_in(bodies, moment);
    assert(inv.moments.entry(moment) == encoding_of(ds));
    let x = lemma_descriptor_listed(bodies, moment, i);
    let y = lemma_descriptor_listed(bodies, moment, j);
    assert(x == 0 || same_encoding(ds[0], ds[x]));
    assert(y == 0 || same_encoding(ds[0], ds[y]));
    assert(same_number(ds[x].scale, ds[y].scale));
    assert(same_number(ds[x].offset, ds[y].offset));
    same_numbers_are_equal(ds[x].scale, ds[y].scale);
    same_numbers_are_equal(ds[x].offset, ds[y].offset);
}

/// Of a moment that is not uniform some carrier differs from the first in word
/// size, scale or offset.
#[verifier::rlimit(50)]
pub proof fn mixed_moments_have_two_encodings(
    inv: RecordInventory,
    bodies: Seq<Seq<u8>>,
    moment: MomentSelector,
)
    requires
        inv.is_of(bodies),
        inv.moments.entry(moment) matches Some(e) && !e.uniform,
    ensures
        exists|i: int, j: int|
            {
                let (a, b) = (
                    block_in(bodies[i], moment)->0.descriptor,
                    block_in(bodies[j], moment)->0.descriptor,
                );
                &&& 0 <= i < bodies.len() && 0 <= j < bodies.len()
                &&& carries(#[trigger] bodies[i], moment)
                &&& carries(#[trigger] bodies[j], moment)
                &&& a.data_word_size_bits != b.data_word_size_bits || nan(a.scale) || nan(b.scale)
                    || nan(a.offset) || nan(b.offset) || a.scale != b.scale || a.offset
                    != b.offset
            },
{
    reveal(RecordInventory::is_of);
    let ds = descriptors_in(bodies, moment);
    assert(inv.moments.entry(moment) == encoding_of(ds));
    let k = choose|k: int| 0 < k < ds.len() && !same_encoding(ds[0], #[trigger] ds[k]);
    let i = lemma_descriptor_carried(bodies, moment, 0);
    let j = lemma_descriptor_carried(bodies, moment, k);
    assert(carries(bodies[i], moment) && carries(bodies[j], moment));
}

/// The table counts the moments that are present: all seven at most, none if none
/// is, and one more for each that is put in anew.
pub proof fn tables_count_the_moments_present(t: MomentTable, s: MomentTable, m: MomentSelector)
    requires
        t.entry(m) is None,
        s.entry(m) is Some,
        forall|other: MomentSelector| other != m ==> #[trigger] s.entry(other) == t.entry(other),
    ensures
        s.count() == t.count() + 1,
        0 <= t.count() < 7,
        t.count() == 0 <==> forall|other: MomentSelector| #[trigger] t.entry(other) is None,
{
    assert(forall|other: MomentSelector| other != m ==> s.one_if(other) == t.one_if(other)) by {
        assert forall|other: MomentSelector| other != m implies s.one_if(other) == t.one_if(
            other,
        ) by {
            assert(s.entry(other) == t.entry(other));
        }
    }
    if t.count() == 0 {
        assert forall|other: MomentSelector| #[trigger] t.entry(other) is None by {
            assert(t.one_if(other) == 0);
        }
    }
}

} // verus!
