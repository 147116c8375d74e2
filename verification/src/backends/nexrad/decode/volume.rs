//! Optional 24-byte volume header.

use crate::backends::nexrad::decode::record::{
    has_volume_header, starts_with_ar2v, VOLUME_HEADER_SIZE,
};
use crate::text::{lossy_text, utf8_lossy};
use crate::wire::{be32, read_u32};
use vstd::prelude::*;
use vstd::slice::slice_subrange;

verus! {

/// Decoded volume header.
#[derive(Debug, Clone, Copy, PartialEq, Eq)]
pub struct VolumeHeader {
    /// `AR2V` and a version (`AR2V0006.`).
    pub tape_filename: [u8; 9],
    pub extension_number: [u8; 3],
    /// Days counted from 1970-01-01.
    pub modified_julian_date: u32,
    /// Milliseconds past midnight.
    pub milliseconds: u32,
    /// ASCII site identifier.
    pub icao: [u8; 4],
}

impl VolumeHeader {
    /// `self` is what the first 24 bytes encode.
    pub open spec fn is_at_head_of(&self, d: Seq<u8>) -> bool {
        &&& self.tape_filename@ == d.subrange(0, 9)
        &&& self.extension_number@ == d.subrange(9, 12)
        &&& self.modified_julian_date == be32(d, 12)
        &&& self.milliseconds == be32(d, 16)
        &&& self.icao@ == d.subrange(20, 24)
    }
}

/// A volume header is 24 bytes long: nine of a file name, three of an extension,
/// four each of the day and the time, and four of the site's identifier.
pub proof fn volume_headers_have_their_fields_in_order(h: VolumeHeader, d: Seq<u8>, i: int)
    requires
        h.is_at_head_of(d),
        d.len() >= 24,
    ensures
        0 <= i < 9 ==> h.tape_filename@[i] == d[i],
        0 <= i < 3 ==> h.extension_number@[i] == d[9 + i],
        h.modified_julian_date == d[12] * 0x100_0000 + d[13] * 0x1_0000 + d[14] * 0x100 + d[15],
        h.milliseconds == d[16] * 0x100_0000 + d[17] * 0x1_0000 + d[18] * 0x100 + d[19],
        0 <= i < 4 ==> h.icao@[i] == d[20 + i],
{
}

/// Parse the leading 24 bytes, if they are a volume header.
pub fn parse(bytes: &[u8]) -> (r: Option<VolumeHeader>)
    ensures
        match r {
            Some(h) => {
                &&& bytes@.len() >= VOLUME_HEADER_SIZE
                &&& has_volume_header(bytes@)
                &&& h.is_at_head_of(bytes@)
            },
            None => bytes@.len() < VOLUME_HEADER_SIZE || !has_volume_header(bytes@),
        },
{
    if bytes.len() < VOLUME_HEADER_SIZE || !starts_with_ar2v(bytes) {
        return None;
    }
    let tape_filename: [u8; 9] = [
        bytes[0],
        bytes[1],
        bytes[2],
        bytes[3],
        bytes[4],
        bytes[5],
        bytes[6],
        bytes[7],
        bytes[8],
    ];
    let extension_number: [u8; 3] = [bytes[9], bytes[10], bytes[11]];
    let icao: [u8; 4] = [bytes[20], bytes[21], bytes[22], bytes[23]];
    let modified_julian_date: u32 = read_u32(slice_subrange(bytes, 12, 16));
    let milliseconds: u32 = read_u32(slice_subrange(bytes, 16, 20));
    assert(tape_filename@ =~= bytes@.subrange(0, 9));
    assert(extension_number@ =~= bytes@.subrange(9, 12));
    assert(icao@ =~= bytes@.subrange(20, 24));
    Some(
        VolumeHeader {
            tape_filename,
            extension_number,
            modified_julian_date,
            milliseconds,
            icao,
        },
    )
}

impl VolumeHeader {
    /// Site identifier as text, with U+FFFD for what is not UTF-8.
    pub fn icao_str(&self) -> (s: String)
        ensures
            s@ == utf8_lossy(self.icao@),
    {
        lossy_text(self.icao.as_slice())
    }
}

} // verus!
