//! Information blocks of a generic-format radial: VOL, ELV, RAD.
//!
//! Each starts with a 4-byte identifier and a size halfword `lrtup`. Newer
//! builds transmit longer VOL and RAD blocks; the declared size tells which.

use crate::backends::nexrad::decode::error::{eof, short_read, NexradDecodeError};
use crate::backends::nexrad::decode::reader::SliceReader;
use crate::text::{lossy_text, utf8_lossy};
use crate::wire::{be16, be16s, be32};
use vstd::prelude::*;

verus! {

/// Wire size of a data block identifier.
pub const DATA_BLOCK_ID_SIZE: usize = 4;

/// Data block identifier: a marker byte and a 3-byte ASCII name.
#[derive(Debug, Clone, Copy, PartialEq, Eq)]
pub struct DataBlockId {
    pub marker: u8,
    pub name: [u8; 3],
}

impl DataBlockId {
    /// `self` is what the four bytes at `p` encode.
    pub open spec fn is_at(&self, d: Seq<u8>, p: int) -> bool {
        &&& self.marker == d[p]
        &&& self.name@ == d.subrange(p + 1, p + 4)
    }

    /// Parse an identifier. Any four bytes are one.
    pub fn read(reader: &mut SliceReader<'_>) -> (r: Result<Self, NexradDecodeError>)
        requires
            old(reader).wf(),
        ensures
            final(reader).wf(),
            final(reader).data() == old(reader).data(),
            match r {
                Ok(id) => {
                    &&& old(reader).pos() + DATA_BLOCK_ID_SIZE <= old(reader).data().len()
                    &&& id.is_at(old(reader).data(), old(reader).pos())
                    &&& final(reader).pos() == old(reader).pos() + DATA_BLOCK_ID_SIZE
                },
                Err(e) => {
                    &&& old(reader).pos() + DATA_BLOCK_ID_SIZE > old(reader).data().len()
                    &&& e == eof(
                        old(reader).pos(),
                        DATA_BLOCK_ID_SIZE as int,
                        old(reader).data().len() as int,
                    )
                },
            },
    {
        let ghost d = reader.data();
        let ghost p = reader.pos();
        let bytes = reader.take_bytes(DATA_BLOCK_ID_SIZE)?;
        let name: [u8; 3] = [bytes[1], bytes[2], bytes[3]];
        assert(name@ =~= d.subrange(p + 1, p + 4));
        Ok(Self { marker: bytes[0], name })
    }

    /// The name as text, with U+FFFD for what is not UTF-8.
    pub fn name_str(&self) -> (s: String)
        ensures
            s@ == utf8_lossy(self.name@),
    {
        lossy_text(self.name.as_slice())
    }
}

/// Volume data constants. `zdr_bias_estimate_weighted_mean` is present when
/// the declared size is 52 or more. Numbers of unit degree, decibel and
/// kilowatt are bit patterns of IEEE-754 singles.
#[derive(Debug, Clone, Copy, PartialEq, Eq)]
pub struct VolumeBlock {
    pub lrtup: u16,
    pub major_version: u8,
    pub minor_version: u8,
    pub latitude_degrees: u32,
    pub longitude_degrees: u32,
    pub site_height_m: i16,
    pub tower_height_m: u16,
    pub calibration_constant_db: u32,
    pub horizontal_shv_tx_power_kw: u32,
    pub vertical_shv_tx_power_kw: u32,
    pub system_differential_reflectivity_db: u32,
    pub initial_system_differential_phase_deg: u32,
    pub volume_coverage_pattern_number: u16,
    pub processing_status: u16,
    pub zdr_bias_estimate_weighted_mean: Option<i16>,
}

/// Declared size from which a volume block is 48 bytes long instead of 40.
pub const VOL_MODERN_LRTUP: u16 = 52;

/// The volume block that starts at `p`.
pub open spec fn volume_block_at(d: Seq<u8>, p: int) -> VolumeBlock {
    VolumeBlock {
        lrtup: be16(d, p),
        major_version: d[p + 2],
        minor_version: d[p + 3],
        latitude_degrees: be32(d, p + 4),
        longitude_degrees: be32(d, p + 8),
        site_height_m: be16s(d, p + 12),
        tower_height_m: be16(d, p + 14),
        calibration_constant_db: be32(d, p + 16),
        horizontal_shv_tx_power_kw: be32(d, p + 20),
        vertical_shv_tx_power_kw: be32(d, p + 24),
        system_differential_reflectivity_db: be32(d, p + 28),
        initial_system_differential_phase_deg: be32(d, p + 32),
        volume_coverage_pattern_number: be16(d, p + 36),
        processing_status: be16(d, p + 38),
        zdr_bias_estimate_weighted_mean: if be16(d, p) >= VOL_MODERN_LRTUP {
            Some(be16s(d, p + 40))
        } else {
            None
        },
    }
}

/// Widths of a volume block's pieces in wire order, the newer ones last.
pub open spec fn volume_widths() -> Seq<int> {
    seq![2, 1, 1, 4, 4, 2, 2, 4, 4, 4, 4, 4, 2, 2, 2, 6]
}

/// Outcome of reading a volume block at `p`: the offset behind it.
pub open spec fn volume_block_outcome(d: Seq<u8>, p: int) -> Result<int, NexradDecodeError> {
    if p + 40 > d.len() || (be16(d, p) >= VOL_MODERN_LRTUP && p + 48 > d.len()) {
        Err(short_read(volume_widths(), 0, p, d.len() as int))
    } else if be16(d, p) >= VOL_MODERN_LRTUP {
        Ok(p + 48)
    } else {
        Ok(p + 40)
    }
}

impl VolumeBlock {
    /// Parse a volume block.
    #[verifier::rlimit(60)]
    pub fn read(reader: &mut SliceReader<'_>) -> (r: Result<Self, NexradDecodeError>)
        requires
            old(reader).wf(),
        ensures
            final(reader).wf(),
            final(reader).data() == old(reader).data(),
            match r {
                Ok(b) => {
                    &&& b == volume_block_at(old(reader).data(), old(reader).pos())
                    &&& volume_block_outcome(old(reader).data(), old(reader).pos()) == Ok::<
                        int,
                        NexradDecodeError,
                    >(final(reader).pos())
                },
                Err(e) => volume_block_outcome(old(reader).data(), old(reader).pos()) == Err::<
                    int,
                    NexradDecodeError,
                >(e),
            },
    {
        proof {
            reveal_with_fuel(short_read, 17);
        }
        let lrtup: u16 = reader.read_u16_be()?;
        let major_version: u8 = reader.read_u8()?;
        let minor_version: u8 = reader.read_u8()?;
        let latitude_degrees: u32 = reader.read_f32_be()?;
        let longitude_degrees: u32 = reader.read_f32_be()?;
        let site_height_m: i16 = reader.read_i16_be()?;
        let tower_height_m: u16 = reader.read_u16_be()?;
        let calibration_constant_db: u32 = reader.read_f32_be()?;
        let horizontal_shv_tx_power_kw: u32 = reader.read_f32_be()?;
        let vertical_shv_tx_power_kw: u32 = reader.read_f32_be()?;
        let system_differential_reflectivity_db: u32 = reader.read_f32_be()?;
        let initial_system_differential_phase_deg: u32 = reader.read_f32_be()?;
        let volume_coverage_pattern_number: u16 = reader.read_u16_be()?;
        let processing_status: u16 = reader.read_u16_be()?;
        let zdr_bias_estimate_weighted_mean: Option<i16> = if lrtup >= VOL_MODERN_LRTUP {
            let v: i16 = reader.read_i16_be()?;
            reader.advance(6)?;
            Some(v)
        } else {
            None
        };
        Ok(
            Self {
                lrtup,
                major_version,
                minor_version,
                latitude_degrees,
                longitude_degrees,
                site_height_m,
                tower_height_m,
                calibration_constant_db,
                horizontal_shv_tx_power_kw,
                vertical_shv_tx_power_kw,
                system_differential_reflectivity_db,
                initial_system_differential_phase_deg,
                volume_coverage_pattern_number,
                processing_status,
                zdr_bias_estimate_weighted_mean,
            },
        )
    }
}

/// Elevation data constants.
#[derive(Debug, Clone, Copy, PartialEq, Eq, Structural)]
pub struct ElevationBlock {
    pub lrtup: u16,
    /// Atmospheric attenuation in thousandths of a decibel per kilometre.
    pub atmospheric_attenuation_raw: i16,
    /// Bit pattern of an IEEE-754 single.
    pub calibration_constant_db: u32,
}

/// The elevation block that starts at `p`.
pub open spec fn elevation_block_at(d: Seq<u8>, p: int) -> ElevationBlock {
    ElevationBlock {
        lrtup: be16(d, p),
        atmospheric_attenuation_raw: be16s(d, p + 2),
        calibration_constant_db: be32(d, p + 4),
    }
}

/// Widths of an elevation block's fields in wire order.
pub open spec fn elevation_widths() -> Seq<int> {
    seq![2, 2, 4]
}

/// Outcome of reading an elevation block at `p`: the offset behind it.
pub open spec fn elevation_block_outcome(d: Seq<u8>, p: int) -> Result<int, NexradDecodeError> {
    if p + 8 > d.len() {
        Err(short_read(elevation_widths(), 0, p, d.len() as int))
    } else {
        Ok(p + 8)
    }
}

impl ElevationBlock {
    /// Parse an elevation block.
    pub fn read(reader: &mut SliceReader<'_>) -> (r: Result<Self, NexradDecodeError>)
        requires
            old(reader).wf(),
        ensures
            final(reader).wf(),
            final(reader).data() == old(reader).data(),
            match r {
                Ok(b) => {
                    &&& b == elevation_block_at(old(reader).data(), old(reader).pos())
                    &&& elevation_block_outcome(old(reader).data(), old(reader).pos()) == Ok::<
                        int,
                        NexradDecodeError,
                    >(final(reader).pos())
                },
                Err(e) => elevation_block_outcome(old(reader).data(), old(reader).pos()) == Err::<
                    int,
                    NexradDecodeError,
                >(e),
            },
    {
        proof {
            reveal_with_fuel(short_read, 4);
        }
        let lrtup: u16 = reader.read_u16_be()?;
        let atmospheric_attenuation_raw: i16 = reader.read_i16_be()?;
        let calibration_constant_db: u32 = reader.read_f32_be()?;
        Ok(Self { lrtup, atmospheric_attenuation_raw, calibration_constant_db })
    }
}

/// Radial data constants. The calibration constants are present when the
/// declared size is 28 or more. Noise levels and calibration constants are bit
/// patterns of IEEE-754 singles.
#[derive(Debug, Clone, Copy, PartialEq, Eq)]
pub struct RadialBlock {
    pub lrtup: u16,
    /// Unambiguous range in tenths of a kilometre.
    pub unambiguous_range_raw: i16,
    pub horizontal_channel_noise_level_dbm: u32,
    pub vertical_channel_noise_level_dbm: u32,
    /// Nyquist velocity in hundredths of a metre per second.
    pub nyquist_velocity_raw: i16,
    pub radial_flags: u16,
    pub horizontal_calibration_constant_db: Option<u32>,
    pub vertical_calibration_constant_db: Option<u32>,
}

/// Declared size from which a radial block is 24 bytes long instead of 16.
pub const RAD_MODERN_LRTUP: u16 = 28;

/// The radial block that starts at `p`.
pub open spec fn radial_block_at(d: Seq<u8>, p: int) -> RadialBlock {
    let modern = be16(d, p) >= RAD_MODERN_LRTUP;
    RadialBlock {
        lrtup: be16(d, p),
        unambiguous_range_raw: be16s(d, p + 2),
        horizontal_channel_noise_level_dbm: be32(d, p + 4),
        vertical_channel_noise_level_dbm: be32(d, p + 8),
        nyquist_velocity_raw: be16s(d, p + 12),
        radial_flags: be16(d, p + 14),
        horizontal_calibration_constant_db: if modern {
            Some(be32(d, p + 16))
        } else {
            None
        },
        vertical_calibration_constant_db: if modern {
            Some(be32(d, p + 20))
        } else {
            None
        },
    }
}

/// Widths of a radial block's fields in wire order, the newer ones last.
pub open spec fn radial_widths() -> Seq<int> {
    seq![2, 2, 4, 4, 2, 2, 4, 4]
}

/// Outcome of reading a radial block at `p`: the offset behind it.
pub open spec fn radial_block_outcome(d: Seq<u8>, p: int) -> Result<int, NexradDecodeError> {
    if p + 16 > d.len() || (be16(d, p) >= RAD_MODERN_LRTUP && p + 24 > d.len()) {
        Err(short_read(radial_widths(), 0, p, d.len() as int))
    } else if be16(d, p) >= RAD_MODERN_LRTUP {
        Ok(p + 24)
    } else {
        Ok(p + 16)
    }
}

impl RadialBlock {
    /// Parse a radial block.
    #[verifier::rlimit(40)]
    pub fn read(reader: &mut SliceReader<'_>) -> (r: Result<Self, NexradDecodeError>)
        requires
            old(reader).wf(),
        ensures
            final(reader).wf(),
            final(reader).data() == old(reader).data(),
            match r {
                Ok(b) => {
                    &&& b == radial_block_at(old(reader).data(), old(reader).pos())
                    &&& radial_block_outcome(old(reader).data(), old(reader).pos()) == Ok::<
                        int,
                        NexradDecodeError,
                    >(final(reader).pos())
                },
                Err(e) => radial_block_outcome(old(reader).data(), old(reader).pos()) == Err::<
                    int,
                    NexradDecodeError,
                >(e),
            },
    {
        proof {
            reveal_with_fuel(short_read, 9);
        }
        let lrtup: u16 = reader.read_u16_be()?;
        let unambiguous_range_raw: i16 = reader.read_i16_be()?;
        let horizontal_channel_noise_level_dbm: u32 = reader.read_f32_be()?;
        let vertical_channel_noise_level_dbm: u32 = reader.read_f32_be()?;
        let nyquist_velocity_raw: i16 = reader.read_i16_be()?;
        let radial_flags: u16 = reader.read_u16_be()?;
        let (horizontal_calibration_constant_db, vertical_calibration_constant_db): (
            Option<u32>,
            Option<u32>,
        ) = if lrtup >= RAD_MODERN_LRTUP {
            let h: u32 = reader.read_f32_be()?;
            let v: u32 = reader.read_f32_be()?;
            (Some(h), Some(v))
        } else {
            (None, None)
        };
        Ok(
            Self {
                lrtup,
                unambiguous_range_raw,
                horizontal_channel_noise_level_dbm,
                vertical_channel_noise_level_dbm,
                nyquist_velocity_raw,
                radial_flags,
                horizontal_calibration_constant_db,
                vertical_calibration_constant_db,
            },
        )
    }
}

/// The fields of a volume block, by their distance from its name: behind two
/// bytes of size and two of version come the place of the radar, its heights, its
/// calibration and the pattern. The bias is there if the size is 52 or more.
pub proof fn volume_blocks_have_their_fields_in_order(d: Seq<u8>, p: int)
    ensures
        ({
            let b = volume_block_at(d, p);
            &&& b.lrtup == be16(d, p)
            &&& b.major_version == d[p + 2]
            &&& b.minor_version == d[p + 3]
            &&& b.latitude_degrees == be32(d, p + 4)
            &&& b.longitude_degrees == be32(d, p + 8)
            &&& b.site_height_m == be16s(d, p + 12)
            &&& b.tower_height_m == be16(d, p + 14)
            &&& b.calibration_constant_db == be32(d, p + 16)
            &&& b.horizontal_shv_tx_power_kw == be32(d, p + 20)
            &&& b.vertical_shv_tx_power_kw == be32(d, p + 24)
            &&& b.system_differential_reflectivity_db == be32(d, p + 28)
            &&& b.initial_system_differential_phase_deg == be32(d, p + 32)
            &&& b.volume_coverage_pattern_number == be16(d, p + 36)
            &&& b.processing_status == be16(d, p + 38)
            &&& be16(d, p) < 52 ==> b.zdr_bias_estimate_weighted_mean is None
            &&& be16(d, p) >= 52 ==> b.zdr_bias_estimate_weighted_mean == Some(be16s(d, p + 40))
        }),
        volume_block_outcome(d, p) matches Ok(end) ==> end <= d.len() && end == p + (if be16(d, p)
            >= 52 {
            48int
        } else {
            40
        }),
{
}

/// The fields of an elevation block, by their distance from its name.
pub proof fn elevation_blocks_have_their_fields_in_order(d: Seq<u8>, p: int)
    ensures
        ({
            let b = elevation_block_at(d, p);
            &&& b.lrtup == be16(d, p)
            &&& b.atmospheric_attenuation_raw == be16s(d, p + 2)
            &&& b.calibration_constant_db == be32(d, p + 4)
        }),
        elevation_block_outcome(d, p) matches Ok(end) ==> end == p + 8 <= d.len(),
{
}

/// The fields of a radial block, by their distance from its name; the horizontal
/// channel comes before the vertical one. The calibration constants are there if
/// the size is 28 or more.
pub proof fn radial_blocks_have_their_fields_in_order(d: Seq<u8>, p: int)
    ensures
        ({
            let b = radial_block_at(d, p);
            &&& b.lrtup == be16(d, p)
            &&& b.unambiguous_range_raw == be16s(d, p + 2)
            &&& b.horizontal_channel_noise_level_dbm == be32(d, p + 4)
            &&& b.vertical_channel_noise_level_dbm == be32(d, p + 8)
            &&& b.nyquist_velocity_raw == be16s(d, p + 12)
            &&& b.radial_flags == be16(d, p + 14)
            &&& be16(d, p) >= 28 ==> {
                &&& b.horizontal_calibration_constant_db == Some(be32(d, p + 16))
                &&& b.vertical_calibration_constant_db == Some(be32(d, p + 20))
            }
            &&& be16(d, p) < 28 ==> {
                &&& b.horizontal_calibration_constant_db is None
                &&& b.vertical_calibration_constant_db is None
            }
        }),
        radial_block_outcome(d, p) matches Ok(end) ==> end <= d.len() && end == p + (if be16(d, p)
            >= 28 {
            24int
        } else {
            16
        }),
{
}

} // verus!
