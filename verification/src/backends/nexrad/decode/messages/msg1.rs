//! Legacy radial message: a 100-byte header and up to three arrays of one
//! byte per gate (reflectivity, velocity, spectrum width).
//!
//! The header's pointers are byte offsets from the start of the body. Gate
//! values: `0` below threshold, `1` range folded, `2..=255` scaled.

use crate::backends::nexrad::decode::error::{eof, short_read, NexradDecodeError};
use crate::backends::nexrad::decode::reader::SliceReader;
use crate::float32::{from_8192ths, single_of_8192ths, HALF_BITS, ONE_BITS};
use crate::time::{collection_instant, day_instant, Timestamp};
use crate::wire::{be16s, be32, be32s};
use vstd::prelude::*;
use vstd::slice::slice_to_vec;

verus! {

/// Wire size of the fixed header.
pub const MSG1_HEADER_BYTES: usize = 100;

/// Unused bytes at the end of the header.
pub const MSG1_SPARE_BYTES: usize = 54;

/// Decoded legacy radial: header and up to three owned gate arrays.
#[derive(Debug, Clone, PartialEq, Eq)]
pub struct Msg1 {
    pub collection_time_ms: i32,
    pub modified_julian_date: i16,
    pub unambiguous_range_x100m: i16,
    pub azimuth_angle_raw: i16,
    pub azimuth_number: i16,
    pub radial_status: i16,
    pub elevation_angle_raw: i16,
    pub elevation_number: i16,
    pub surveillance_first_gate_range_m: i16,
    pub doppler_first_gate_range_m: i16,
    pub surveillance_gate_interval_m: i16,
    pub doppler_gate_interval_m: i16,
    pub num_surveillance_gates: i16,
    pub num_doppler_gates: i16,
    pub sector_number: i16,
    /// Bit pattern of an IEEE-754 single.
    pub calibration_constant_db: u32,
    pub reflectivity_pointer: i16,
    pub velocity_pointer: i16,
    pub spectrum_width_pointer: i16,
    pub doppler_velocity_resolution: i16,
    pub vcp_number: i16,
    pub reflectivity_gates: Option<Vec<u8>>,
    pub velocity_gates: Option<Vec<u8>>,
    pub spectrum_width_gates: Option<Vec<u8>>,
}

/// The contents of an optional byte vector.
pub open spec fn opt_bytes(o: Option<Vec<u8>>) -> Option<Seq<u8>> {
    match o {
        Some(v) => Some(v@),
        None => None,
    }
}

/// Widths of the header's pieces in wire order.
pub open spec fn msg1_widths() -> Seq<int> {
    seq![4, 2, 2, 2, 2, 2, 2, 2, 2, 2, 2, 2, 2, 2, 2, 4, 2, 2, 2, 2, 2, 54]
}

/// Outcome of reading one gate array: the bytes, if the header announces any,
/// and the offset behind them.
///
/// The array has `count` bytes at `ptr` from the body's start `p`. `c` is the
/// offset behind what has been read so far; the arrays may not step back.
pub open spec fn gates_at(d: Seq<u8>, p: int, c: int, ptr: i16, count: i16) -> Result<
    (Option<Seq<u8>>, int),
    NexradDecodeError,
> {
    let target = p + ptr;
    if ptr <= 0 || count <= 0 {
        Ok((None, c))
    } else if target > usize::MAX {
        Err(
            NexradDecodeError::MalformedHeader {
                offset: p as usize,
                reason: "MSG_1 moment pointer overflow",
            },
        )
    } else if target < c {
        Err(
            NexradDecodeError::MalformedHeader {
                offset: p as usize,
                reason: "MSG_1 moment pointer points before current cursor",
            },
        )
    } else if target > d.len() {
        Err(eof(c, target - c, d.len() as int))
    } else if target + count > d.len() {
        Err(eof(target, count as int, d.len() as int))
    } else {
        Ok((Some(d.subrange(target, target + count)), target + count))
    }
}

/// The three gate arrays of a radial.
pub ghost struct Msg1Gates {
    pub reflectivity: Option<Seq<u8>>,
    pub velocity: Option<Seq<u8>>,
    pub spectrum_width: Option<Seq<u8>>,
}

/// Outcome of reading a radial at `p`: its gate arrays and the offset behind
/// it.
pub open spec fn msg1_outcome(d: Seq<u8>, p: int) -> Result<(Msg1Gates, int), NexradDecodeError> {
    let surveillance = be16s(d, p + 26);
    let doppler = be16s(d, p + 28);
    if p + MSG1_HEADER_BYTES > d.len() {
        Err(short_read(msg1_widths(), 0, p, d.len() as int))
    } else {
        match gates_at(d, p, p + MSG1_HEADER_BYTES, be16s(d, p + 36), surveillance) {
            Err(e) => Err(e),
            Ok((reflectivity, c1)) => match gates_at(d, p, c1, be16s(d, p + 38), doppler) {
                Err(e) => Err(e),
                Ok((velocity, c2)) => match gates_at(d, p, c2, be16s(d, p + 40), doppler) {
                    Err(e) => Err(e),
                    Ok((spectrum_width, c3)) => Ok(
                        (Msg1Gates { reflectivity, velocity, spectrum_width }, c3),
                    ),
                },
            },
        }
    }
}

/// Read one gate array; see [`gates_at`].
fn take_gates(
    reader: &mut SliceReader<'_>,
    body_start: usize,
    ptr: i16,
    count: i16,
) -> (r: Result<Option<Vec<u8>>, NexradDecodeError>)
    requires
        old(reader).wf(),
        body_start <= old(reader).pos(),
    ensures
        final(reader).wf(),
        final(reader).data() == old(reader).data(),
        match r {
            Ok(g) => gates_at(
                old(reader).data(),
                body_start as int,
                old(reader).pos(),
                ptr,
                count,
            ) == Ok::<(Option<Seq<u8>>, int), NexradDecodeError>(
                (opt_bytes(g), final(reader).pos()),
            ),
            Err(e) => gates_at(
                old(reader).data(),
                body_start as int,
                old(reader).pos(),
                ptr,
                count,
            ) == Err::<(Option<Seq<u8>>, int), NexradDecodeError>(e),
        },
{
    if ptr <= 0 || count <= 0 {
        return Ok(None);
    }
    let target: usize = match body_start.checked_add(ptr as usize) {
        Some(t) => t,
        None => {
            return Err(
                NexradDecodeError::MalformedHeader {
                    offset: body_start,
                    reason: "MSG_1 moment pointer overflow",
                },
            );
        },
    };
    if target < reader.position() {
        return Err(
            NexradDecodeError::MalformedHeader {
                offset: body_start,
                reason: "MSG_1 moment pointer points before current cursor",
            },
        );
    }
    reader.try_skip_to(target)?;
    let bytes = reader.take_bytes(count as usize)?;
    Ok(Some(slice_to_vec(bytes)))
}

impl Msg1 {
    /// `self` has the header fields that the bytes at `p` encode.
    pub open spec fn header_is_at(&self, d: Seq<u8>, p: int) -> bool {
        &&& self.collection_time_ms == be32s(d, p)
        &&& self.modified_julian_date == be16s(d, p + 4)
        &&& self.unambiguous_range_x100m == be16s(d, p + 6)
        &&& self.azimuth_angle_raw == be16s(d, p + 8)
        &&& self.azimuth_number == be16s(d, p + 10)
        &&& self.radial_status == be16s(d, p + 12)
        &&& self.elevation_angle_raw == be16s(d, p + 14)
        &&& self.elevation_number == be16s(d, p + 16)
        &&& self.surveillance_first_gate_range_m == be16s(d, p + 18)
        &&& self.doppler_first_gate_range_m == be16s(d, p + 20)
        &&& self.surveillance_gate_interval_m == be16s(d, p + 22)
        &&& self.doppler_gate_interval_m == be16s(d, p + 24)
        &&& self.num_surveillance_gates == be16s(d, p + 26)
        &&& self.num_doppler_gates == be16s(d, p + 28)
        &&& self.sector_number == be16s(d, p + 30)
        &&& self.calibration_constant_db == be32(d, p + 32)
        &&& self.reflectivity_pointer == be16s(d, p + 36)
        &&& self.velocity_pointer == be16s(d, p + 38)
        &&& self.spectrum_width_pointer == be16s(d, p + 40)
        &&& self.doppler_velocity_resolution == be16s(d, p + 42)
        &&& self.vcp_number == be16s(d, p + 44)
    }

    /// Gate arrays of `self`.
    pub open spec fn gates(&self) -> Msg1Gates {
        Msg1Gates {
            reflectivity: opt_bytes(self.reflectivity_gates),
            velocity: opt_bytes(self.velocity_gates),
            spectrum_width: opt_bytes(self.spectrum_width_gates),
        }
    }

    /// Parse the fixed header; the result holds no gates.
    #[verifier::rlimit(60)]
    fn read_header(reader: &mut SliceReader<'_>) -> (r: Result<Self, NexradDecodeError>)
        requires
            old(reader).wf(),
        ensures
            final(reader).wf(),
            final(reader).data() == old(reader).data(),
            match r {
                Ok(m) => {
                    &&& old(reader).pos() + MSG1_HEADER_BYTES <= old(reader).data().len()
                    &&& m.header_is_at(old(reader).data(), old(reader).pos())
                    &&& final(reader).pos() == old(reader).pos() + MSG1_HEADER_BYTES
                },
                Err(e) => {
                    &&& old(reader).pos() + MSG1_HEADER_BYTES > old(reader).data().len()
                    &&& e == short_read(
                        msg1_widths(),
                        0,
                        old(reader).pos(),
                        old(reader).data().len() as int,
                    )
                },
            },
    {
        proof {
            reveal_with_fuel(short_read, 23);
        }
        let collection_time_ms: i32 = reader.read_i32_be()?;
        let modified_julian_date: i16 = reader.read_i16_be()?;
        let unambiguous_range_x100m: i16 = reader.read_i16_be()?;
        let azimuth_angle_raw: i16 = reader.read_i16_be()?;
        let azimuth_number: i16 = reader.read_i16_be()?;
        let radial_status: i16 = reader.read_i16_be()?;
        let elevation_angle_raw: i16 = reader.read_i16_be()?;
        let elevation_number: i16 = reader.read_i16_be()?;
        let surveillance_first_gate_range_m: i16 = reader.read_i16_be()?;
        let doppler_first_gate_range_m: i16 = reader.read_i16_be()?;
        let surveillance_gate_interval_m: i16 = reader.read_i16_be()?;
        let doppler_gate_interval_m: i16 = reader.read_i16_be()?;
        let num_surveillance_gates: i16 = reader.read_i16_be()?;
        let num_doppler_gates: i16 = reader.read_i16_be()?;
        let sector_number: i16 = reader.read_i16_be()?;
        let calibration_constant_db: u32 = reader.read_f32_be()?;
        let reflectivity_pointer: i16 = reader.read_i16_be()?;
        let velocity_pointer: i16 = reader.read_i16_be()?;
        let spectrum_width_pointer: i16 = reader.read_i16_be()?;
        let doppler_velocity_resolution: i16 = reader.read_i16_be()?;
        let vcp_number: i16 = reader.read_i16_be()?;
        reader.advance(MSG1_SPARE_BYTES)?;
        Ok(
            Self {
                collection_time_ms,
                modified_julian_date,
                unambiguous_range_x100m,
                azimuth_angle_raw,
                azimuth_number,
                radial_status,
                elevation_angle_raw,
                elevation_number,
                surveillance_first_gate_range_m,
                doppler_first_gate_range_m,
                surveillance_gate_interval_m,
                doppler_gate_interval_m,
                num_surveillance_gates,
                num_doppler_gates,
                sector_number,
                calibration_constant_db,
                reflectivity_pointer,
                velocity_pointer,
                spectrum_width_pointer,
                doppler_velocity_resolution,
                vcp_number,
                reflectivity_gates: None,
                velocity_gates: None,
                spectrum_width_gates: None,
            },
        )
    }

    /// Parse a message body that starts at the cursor.
    pub fn read(reader: &mut SliceReader<'_>) -> (r: Result<Self, NexradDecodeError>)
        requires
            old(reader).wf(),
        ensures
            final(reader).wf(),
            final(reader).data() == old(reader).data(),
            match r {
                Ok(m) => {
                    &&& m.header_is_at(old(reader).data(), old(reader).pos())
                    &&& msg1_outcome(old(reader).data(), old(reader).pos()) == Ok::<
                        (Msg1Gates, int),
                        NexradDecodeError,
                    >((m.gates(), final(reader).pos()))
                },
                Err(e) => msg1_outcome(old(reader).data(), old(reader).pos()) == Err::<
                    (Msg1Gates, int),
                    NexradDecodeError,
                >(e),
            },
    {
        let body_start: usize = reader.position();
        let mut m = Self::read_header(reader)?;
        m.reflectivity_gates = take_gates(
            reader,
            body_start,
            m.reflectivity_pointer,
            m.num_surveillance_gates,
        )?;
        m.velocity_gates = take_gates(reader, body_start, m.velocity_pointer, m.num_doppler_gates)?;
        m.spectrum_width_gates = take_gates(
            reader,
            body_start,
            m.spectrum_width_pointer,
            m.num_doppler_gates,
        )?;
        Ok(m)
    }

    /// Azimuth in degrees, as an IEEE-754 single: the raw binary angle times
    /// 180/32768.
    pub fn azimuth_angle_degrees(&self) -> (bits: u32)
        ensures
            bits == single_of_8192ths(self.azimuth_angle_raw * 45),
    {
        from_8192ths(self.azimuth_angle_raw as i32 * 45)
    }

    /// Elevation in degrees, encoded as the azimuth is.
    pub fn elevation_angle_degrees(&self) -> (bits: u32)
        ensures
            bits == single_of_8192ths(self.elevation_angle_raw * 45),
    {
        from_8192ths(self.elevation_angle_raw as i32 * 45)
    }

    /// Collection time. Day one is 1970-01-01.
    pub fn collection_time(&self) -> (t: Option<Timestamp>)
        ensures
            t == Some(
                day_instant(self.modified_julian_date as int, self.collection_time_ms as int),
            ),
    {
        collection_instant(self.modified_julian_date as i32, self.collection_time_ms as i64)
    }

    /// Doppler velocity resolution in m/s as an IEEE-754 single: 1.0 for code
    /// 4, otherwise 0.5.
    pub open spec fn resolution_mps(&self) -> u32 {
        if self.doppler_velocity_resolution == 4 {
            ONE_BITS
        } else {
            HALF_BITS
        }
    }

    /// Doppler velocity resolution in m/s as an IEEE-754 single: 1.0 for code
    /// 4, otherwise 0.5.
    pub fn doppler_velocity_resolution_mps(&self) -> (bits: u32)
        ensures
            bits == self.resolution_mps(),
    {
        if self.doppler_velocity_resolution == 4 {
            ONE_BITS
        } else {
            HALF_BITS
        }
    }
}

/// The fields of a legacy radial stand at fixed places of its header.
pub proof fn legacy_headers_have_their_fields_in_order(m: Msg1, d: Seq<u8>)
    requires
        m.header_is_at(d, 0),
    ensures
        m.collection_time_ms == be32s(d, 0),
        m.modified_julian_date == be16s(d, 4),
        m.unambiguous_range_x100m == be16s(d, 6),
        m.azimuth_angle_raw == be16s(d, 8),
        m.azimuth_number == be16s(d, 10),
        m.radial_status == be16s(d, 12),
        m.elevation_angle_raw == be16s(d, 14),
        m.elevation_number == be16s(d, 16),
        m.surveillance_first_gate_range_m == be16s(d, 18),
        m.doppler_first_gate_range_m == be16s(d, 20),
        m.surveillance_gate_interval_m == be16s(d, 22),
        m.doppler_gate_interval_m == be16s(d, 24),
        m.num_surveillance_gates == be16s(d, 26),
        m.num_doppler_gates == be16s(d, 28),
        m.sector_number == be16s(d, 30),
        m.calibration_constant_db == be32(d, 32),
        m.reflectivity_pointer == be16s(d, 36),
        m.velocity_pointer == be16s(d, 38),
        m.spectrum_width_pointer == be16s(d, 40),
        m.doppler_velocity_resolution == be16s(d, 42),
        m.vcp_number == be16s(d, 44),
{
}

/// A gate array that is announced lies behind what was read before it, inside
/// the message, and is as long as announced; one that is not is not read.
pub proof fn gate_arrays_lie_where_they_are_announced(d: Seq<u8>, c: int, ptr: i16, count: i16)
    requires
        0 <= c <= d.len() <= usize::MAX,
    ensures
        match gates_at(d, 0, c, ptr, count) {
            Ok((None, next)) => (ptr <= 0 || count <= 0) && next == c,
            Ok((Some(bytes), next)) => {
                &&& ptr > 0 && count > 0 && c <= ptr
                &&& next == ptr + count <= d.len()
                &&& bytes == d.subrange(ptr as int, next)
            },
            Err(_) => ptr > 0 && count > 0 && (ptr < c || ptr + count > d.len()),
        },
{
}

/// Gate arrays of a legacy radial lie behind its 100 bytes of header, one
/// behind the other in the order reflectivity, velocity, spectrum width.
pub proof fn legacy_gates_lie_behind_the_header(d: Seq<u8>)
    requires
        d.len() <= usize::MAX,
        msg1_outcome(d, 0) is Ok,
    ensures
        ({
            let g = msg1_outcome(d, 0)->Ok_0.0;
            let (r, v, w) = (be16s(d, 36) as int, be16s(d, 38) as int, be16s(d, 40) as int);
            let (surveillance, doppler) = (be16s(d, 26) as int, be16s(d, 28) as int);
            &&& d.len() >= 100
            &&& g.reflectivity is Some <==> r > 0 && surveillance > 0
            &&& g.velocity is Some <==> v > 0 && doppler > 0
            &&& g.spectrum_width is Some <==> w > 0 && doppler > 0
            &&& g.reflectivity matches Some(x) ==> r >= 100 && x == d.subrange(r, r + surveillance)
            &&& g.velocity matches Some(x) ==> v >= 100 && x == d.subrange(v, v + doppler)
            &&& g.spectrum_width matches Some(x) ==> w >= 100 && x == d.subrange(w, w + doppler)
            &&& g.reflectivity is Some && g.velocity is Some ==> v >= r + surveillance
            &&& g.velocity is Some && g.spectrum_width is Some ==> w >= v + doppler
        }),
{
    let (ptr, count) = (be16s(d, 36), be16s(d, 26));
    gate_arrays_lie_where_they_are_announced(d, 100, ptr, count);
    let c1 = gates_at(d, 0, 100, ptr, count)->Ok_0.1;
    let doppler = be16s(d, 28);
    gate_arrays_lie_where_they_are_announced(d, c1, be16s(d, 38), doppler);
    let c2 = gates_at(d, 0, c1, be16s(d, 38), doppler)->Ok_0.1;
    gate_arrays_lie_where_they_are_announced(d, c2, be16s(d, 40), doppler);
}

} // verus!
