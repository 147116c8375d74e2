//! Per-radial data header of a generic-format radial.
//!
//! 32 bytes of fixed fields are followed by the data block pointers, byte
//! offsets from the header's first byte, zero where a block is absent:
//!
//! | Offset | Bytes | Field                                       |
//! |-------:|------:|---------------------------------------------|
//! |      0 |     4 | Radar identifier (ASCII)                    |
//! |      4 |     4 | Collection time (ms past midnight)          |
//! |      8 |     2 | Modified Julian Date                        |
//! |     10 |     2 | Azimuth number                              |
//! |     12 |     4 | Azimuth angle (degrees, IEEE-754 single)    |
//! |     16 |     1 | Compression indicator                       |
//! |     17 |     1 | Spare                                       |
//! |     18 |     2 | Radial length                               |
//! |     20 |     1 | Azimuth resolution                          |
//! |     21 |     1 | Radial status                               |
//! |     22 |     1 | Elevation number                            |
//! |     23 |     1 | Cut sector number                           |
//! |     24 |     4 | Elevation angle (degrees, IEEE-754 single)  |
//! |     28 |     1 | Spot blanking status                        |
//! |     29 |     1 | Azimuth indexing mode                       |
//! |     30 |     2 | Data block count                            |
//! |     32 |   40  | Data block pointers                         |
//!
//! Build 12 and later transmit ten pointers. Build 11 transmits nine, which
//! shows in a block that starts where the tenth pointer would stand.

use crate::backends::nexrad::decode::error::{eof, short_read, NexradDecodeError};
use crate::backends::nexrad::decode::reader::SliceReader;
use crate::text::{lossy_text, utf8_lossy};
use crate::wire::{be16, be32};
use vstd::prelude::*;

verus! {

/// Width of the fixed fields.
pub const FIXED_HEADER_SIZE: usize = 32;

/// Number of pointer slots.
pub const POINTER_COUNT: usize = 10;

/// Width of one pointer.
pub const POINTER_SIZE: usize = 4;

/// Wire width of the header with ten pointers.
pub const TOTAL_HEADER_SIZE: usize = 72;

/// Wire width of the header with nine pointers.
pub const LEGACY_HEADER_SIZE: usize = 68;

pub const PTR_VOL: usize = 0;

pub const PTR_ELV: usize = 1;

pub const PTR_RAD: usize = 2;

pub const PTR_REF: usize = 3;

pub const PTR_VEL: usize = 4;

pub const PTR_SW: usize = 5;

pub const PTR_ZDR: usize = 6;

pub const PTR_PHI: usize = 7;

pub const PTR_RHO: usize = 8;

pub const PTR_CFP: usize = 9;

/// How many pointer slots the header has on the wire.
#[derive(Debug, Clone, Copy, PartialEq, Eq, Structural)]
pub enum PointerLayout {
    /// Nine slots (Build 11).
    Legacy,
    /// Ten slots (Build 12 and later).
    Modern,
}

/// Whether a pointer names a place inside a header with ten slots.
pub open spec fn points_into_header(ptr: u32) -> bool {
    0 < ptr < TOTAL_HEADER_SIZE
}

/// The layout that the first nine pointers show. A block cannot start inside
/// the pointer table, so a pointer to before the end of a ten-slot header
/// means that there is no tenth slot.
pub open spec fn pointer_layout(first_nine: Seq<u32>) -> PointerLayout {
    if exists|i: int| 0 <= i < first_nine.len() && points_into_header(#[trigger] first_nine[i]) {
        PointerLayout::Legacy
    } else {
        PointerLayout::Modern
    }
}

impl PointerLayout {
    /// Tell the layout from the first nine pointers.
    pub fn detect(first_nine: &[u32]) -> (l: Self)
        ensures
            l == pointer_layout(first_nine@),
    {
        let mut i: usize = 0;
        while i < first_nine.len()
            invariant
                i <= first_nine@.len(),
                forall|j: int| 0 <= j < i ==> !points_into_header(#[trigger] first_nine@[j]),
            decreases first_nine@.len() - i,
        {
            let ptr: u32 = first_nine[i];
            if ptr != 0 && ptr < TOTAL_HEADER_SIZE as u32 {
                assert(points_into_header(first_nine@[i as int]));
                return Self::Legacy;
            }
            i += 1;
        }
        Self::Modern
    }
}

/// Fixed header of one radial and its block pointers. Angles are bit patterns
/// of IEEE-754 singles.
#[derive(Debug, Clone, Copy, PartialEq, Eq)]
pub struct DataHeader {
    pub radar_identifier: [u8; 4],
    pub collection_time_ms: u32,
    pub modified_julian_date: u16,
    pub azimuth_number: u16,
    pub azimuth_angle_degrees: u32,
    pub compression_indicator: u8,
    pub radial_length: u16,
    pub azimuth_resolution_spacing: u8,
    pub radial_status: u8,
    pub elevation_number: u8,
    pub cut_sector_number: u8,
    pub elevation_angle_degrees: u32,
    pub radial_spot_blanking_status: u8,
    pub azimuth_indexing_mode: u8,
    pub data_block_count: u16,
    /// One offset per slot, zero where the block is absent.
    pub pointers: [u32; 10],
    pub layout: PointerLayout,
}

/// The first nine pointers of a header at `p`.
pub open spec fn first_nine_at(d: Seq<u8>, p: int) -> Seq<u32> {
    Seq::new(9, |i: int| be32(d, p + FIXED_HEADER_SIZE + 4 * i))
}

/// All ten pointers of a header at `p`; the tenth is zero where the wire has
/// none.
pub open spec fn pointers_at(d: Seq<u8>, p: int) -> Seq<u32> {
    if pointer_layout(first_nine_at(d, p)) == PointerLayout::Legacy {
        first_nine_at(d, p).push(0)
    } else {
        first_nine_at(d, p).push(be32(d, p + LEGACY_HEADER_SIZE))
    }
}

/// Widths of the fixed fields in wire order.
pub open spec fn data_header_widths() -> Seq<int> {
    seq![4, 4, 2, 2, 4, 1, 1, 2, 1, 1, 1, 1, 4, 1, 1, 2]
}

/// Outcome of reading a header at `p`: the offset behind it.
pub open spec fn data_header_outcome(d: Seq<u8>, p: int) -> Result<int, NexradDecodeError> {
    let len = d.len() as int;
    if p + FIXED_HEADER_SIZE > len {
        Err(short_read(data_header_widths(), 0, p, len))
    } else if p + LEGACY_HEADER_SIZE > len {
        let whole = (len - p - FIXED_HEADER_SIZE) / 4;
        Err(eof(p + FIXED_HEADER_SIZE + 4 * whole, 4, len))
    } else if pointer_layout(first_nine_at(d, p)) == PointerLayout::Legacy {
        Ok(p + LEGACY_HEADER_SIZE)
    } else if p + TOTAL_HEADER_SIZE > len {
        Err(eof(p + LEGACY_HEADER_SIZE, 4, len))
    } else {
        Ok(p + TOTAL_HEADER_SIZE)
    }
}

/// Read the nine pointers that both layouts have.
fn read_nine_pointers(reader: &mut SliceReader<'_>) -> (r: Result<[u32; 9], NexradDecodeError>)
    requires
        old(reader).wf(),
    ensures
        final(reader).wf(),
        final(reader).data() == old(reader).data(),
        match r {
            Ok(ptrs) => {
                &&& old(reader).pos() + 36 <= old(reader).data().len()
                &&& ptrs@ == Seq::new(9, |i: int| be32(old(reader).data(), old(reader).pos() + 4 * i))
                &&& final(reader).pos() == old(reader).pos() + 36
            },
            Err(e) => {
                let len = old(reader).data().len() as int;
                &&& old(reader).pos() + 36 > len
                &&& e == eof(old(reader).pos() + 4 * ((len - old(reader).pos()) / 4), 4, len)
            },
        },
{
    let ghost d = reader.data();
    let ghost p = reader.pos();
    let mut ptrs: [u32; 9] = [0u32; 9];
    let mut i: usize = 0;
    while i < 9
        invariant
            i <= 9,
            reader.wf(),
            reader.data() == d,
            reader.pos() == p + 4 * i,
            ptrs@.len() == 9,
            forall|j: int| 0 <= j < i ==> ptrs@[j] == be32(d, p + 4 * j),
            d == old(reader).data(),
            p == old(reader).pos(),
        decreases 9 - i,
    {
        let v: u32 = reader.read_u32_be()?;
        ptrs[i] = v;
        i += 1;
    }
    assert(ptrs@ =~= Seq::new(9, |i: int| be32(d, p + 4 * i)));
    Ok(ptrs)
}

impl DataHeader {
    /// `self` is what the bytes at `p` encode.
    pub open spec fn is_at(&self, d: Seq<u8>, p: int) -> bool {
        &&& self.radar_identifier@ == d.subrange(p, p + 4)
        &&& self.collection_time_ms == be32(d, p + 4)
        &&& self.modified_julian_date == be16(d, p + 8)
        &&& self.azimuth_number == be16(d, p + 10)
        &&& self.azimuth_angle_degrees == be32(d, p + 12)
        &&& self.compression_indicator == d[p + 16]
        &&& self.radial_length == be16(d, p + 18)
        &&& self.azimuth_resolution_spacing == d[p + 20]
        &&& self.radial_status == d[p + 21]
        &&& self.elevation_number == d[p + 22]
        &&& self.cut_sector_number == d[p + 23]
        &&& self.elevation_angle_degrees == be32(d, p + 24)
        &&& self.radial_spot_blanking_status == d[p + 28]
        &&& self.azimuth_indexing_mode == d[p + 29]
        &&& self.data_block_count == be16(d, p + 30)
        &&& self.pointers@ == pointers_at(d, p)
        &&& self.layout == pointer_layout(first_nine_at(d, p))
    }

    /// Parse a header: 72 bytes, or 68 in the nine-slot layout.
    #[verifier::rlimit(60)]
    pub fn read(reader: &mut SliceReader<'_>) -> (r: Result<Self, NexradDecodeError>)
        requires
            old(reader).wf(),
        ensures
            final(reader).wf(),
            final(reader).data() == old(reader).data(),
            match r {
                Ok(h) => {
                    &&& h.is_at(old(reader).data(), old(reader).pos())
                    &&& data_header_outcome(old(reader).data(), old(reader).pos()) == Ok::<
                        int,
                        NexradDecodeError,
                    >(final(reader).pos())
                },
                Err(e) => data_header_outcome(old(reader).data(), old(reader).pos()) == Err::<
                    int,
                    NexradDecodeError,
                >(e),
            },
    {
        let ghost d = reader.data();
        let ghost p = reader.pos();
        proof {
            reveal_with_fuel(short_read, 17);
        }
        let id = reader.take_bytes(4)?;
        let radar_identifier: [u8; 4] = [id[0], id[1], id[2], id[3]];
        assert(radar_identifier@ =~= d.subrange(p, p + 4));
        let collection_time_ms: u32 = reader.read_u32_be()?;
        let modified_julian_date: u16 = reader.read_u16_be()?;
        let azimuth_number: u16 = reader.read_u16_be()?;
        let azimuth_angle_degrees: u32 = reader.read_f32_be()?;
        let compression_indicator: u8 = reader.read_u8()?;
        let _spare: u8 = reader.read_u8()?;
        let radial_length: u16 = reader.read_u16_be()?;
        let azimuth_resolution_spacing: u8 = reader.read_u8()?;
        let radial_status: u8 = reader.read_u8()?;
        let elevation_number: u8 = reader.read_u8()?;
        let cut_sector_number: u8 = reader.read_u8()?;
        let elevation_angle_degrees: u32 = reader.read_f32_be()?;
        let radial_spot_blanking_status: u8 = reader.read_u8()?;
        let azimuth_indexing_mode: u8 = reader.read_u8()?;
        let data_block_count: u16 = reader.read_u16_be()?;

        let nine = read_nine_pointers(reader)?;
        assert(nine@ =~= first_nine_at(d, p));
        let layout = PointerLayout::detect(nine.as_slice());
        let tenth: u32 = match layout {
            PointerLayout::Legacy => 0,
            PointerLayout::Modern => reader.read_u32_be()?,
        };
        let pointers: [u32; 10] = [
            nine[0],
            nine[1],
            nine[2],
            nine[3],
            nine[4],
            nine[5],
            nine[6],
            nine[7],
            nine[8],
            tenth,
        ];
        assert(pointers@ =~= pointers_at(d, p));
        Ok(
            Self {
                radar_identifier,
                collection_time_ms,
                modified_julian_date,
                azimuth_number,
                azimuth_angle_degrees,
                compression_indicator,
                radial_length,
                azimuth_resolution_spacing,
                radial_status,
                elevation_number,
                cut_sector_number,
                elevation_angle_degrees,
                radial_spot_blanking_status,
                azimuth_indexing_mode,
                data_block_count,
                pointers,
                layout,
            },
        )
    }

    /// Site identifier as text, with U+FFFD for what is not UTF-8.
    pub fn icao_str(&self) -> (s: String)
        ensures
            s@ == utf8_lossy(self.radar_identifier@),
    {
        lossy_text(self.radar_identifier.as_slice())
    }
}

/// The fields of a data header stand at fixed places of its first 32 bytes.
pub proof fn data_headers_have_their_fields_in_order(h: DataHeader, d: Seq<u8>, p: int)
    requires
        h.is_at(d, p),
        0 <= p,
        p + 32 <= d.len(),
    ensures
        forall|i: int| 0 <= i < 4 ==> #[trigger] h.radar_identifier@[i] == d[p + i],
        h.collection_time_ms == be32(d, p + 4),
        h.modified_julian_date == be16(d, p + 8),
        h.azimuth_number == be16(d, p + 10),
        h.azimuth_angle_degrees == be32(d, p + 12),
        h.compression_indicator == d[p + 16],
        h.radial_length == be16(d, p + 18),
        h.azimuth_resolution_spacing == d[p + 20],
        h.radial_status == d[p + 21],
        h.elevation_number == d[p + 22],
        h.cut_sector_number == d[p + 23],
        h.elevation_angle_degrees == be32(d, p + 24),
        h.radial_spot_blanking_status == d[p + 28],
        h.azimuth_indexing_mode == d[p + 29],
        h.data_block_count == be16(d, p + 30),
{
}

/// The pointers follow in words of four bytes. There are ten unless one of the
/// first nine points to before byte 72, where the tenth would have ended; then
/// the tenth counts as unset.
pub proof fn pointers_follow_the_fields(d: Seq<u8>, p: int, i: int)
    requires
        0 <= i < 10,
    ensures
        pointers_at(d, p).len() == 10,
        i < 9 ==> pointers_at(d, p)[i] == be32(d, p + 32 + 4 * i),
        ({
            let short = exists|j: int| 0 <= j < 9 && 0 < #[trigger] be32(d, p + 32 + 4 * j) < 72;
            pointers_at(d, p)[9] == (if short {
                0
            } else {
                be32(d, p + 68)
            })
        }),
{
    let nine = first_nine_at(d, p);
    assert(forall|j: int| 0 <= j < 9 ==> #[trigger] nine[j] == be32(d, p + 32 + 4 * j));
    if exists|j: int| 0 <= j < 9 && 0 < #[trigger] be32(d, p + 32 + 4 * j) < 72 {
        let j = choose|j: int| 0 <= j < 9 && 0 < #[trigger] be32(d, p + 32 + 4 * j) < 72;
        assert(points_into_header(nine[j]));
    } else if pointer_layout(nine) == PointerLayout::Legacy {
        let j = choose|j: int| 0 <= j < nine.len() && points_into_header(#[trigger] nine[j]);
        assert(0 < be32(d, p + 32 + 4 * j) < 72);
    }
}

/// A data header takes 72 bytes, or 68 where the tenth pointer is missing.
pub proof fn data_headers_take_68_or_72_bytes(d: Seq<u8>, p: int)
    ensures
        ({
            let short = exists|j: int| 0 <= j < 9 && 0 < #[trigger] be32(d, p + 32 + 4 * j) < 72;
            let end = p + (if short {
                68int
            } else {
                72
            });
            &&& data_header_outcome(d, p) is Ok <==> end <= d.len()
            &&& end <= d.len() ==> data_header_outcome(d, p)->Ok_0 == end
        }),
{
    let nine = first_nine_at(d, p);
    assert(forall|j: int| 0 <= j < 9 ==> #[trigger] nine[j] == be32(d, p + 32 + 4 * j));
    if exists|j: int| 0 <= j < 9 && 0 < #[trigger] be32(d, p + 32 + 4 * j) < 72 {
        let j = choose|j: int| 0 <= j < 9 && 0 < #[trigger] be32(d, p + 32 + 4 * j) < 72;
        assert(points_into_header(nine[j]));
    } else if pointer_layout(nine) == PointerLayout::Legacy {
        let j = choose|j: int| 0 <= j < nine.len() && points_into_header(#[trigger] nine[j]);
        assert(0 < be32(d, p + 32 + 4 * j) < 72);
    }
}

} // verus!
