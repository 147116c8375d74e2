//! Volume Coverage Pattern message.
//!
//! Eleven header halfwords are followed by 23 halfwords per elevation cut.

use crate::backends::nexrad::decode::error::{short_read, NexradDecodeError};
use crate::backends::nexrad::decode::reader::SliceReader;
use crate::float32::{HALF_BITS, NAN_BITS, ONE_BITS};
use crate::wire::{be16, be16s};
use vstd::prelude::*;

verus! {

/// Halfwords per elevation cut.
pub const ELEVATION_CUT_HALFWORDS: usize = 23;

/// Bytes per elevation cut.
pub const ELEVATION_CUT_BYTES: usize = 46;

/// Bytes before the first elevation cut.
pub const MSG5_HEADER_BYTES: usize = 22;

/// The most elevation cuts that a pattern may declare.
pub const MAX_ELEVATION_CUTS: u16 = 32;

/// One elevation cut. Bit-packed fields are kept as transmitted.
#[derive(Debug, Clone, Copy, PartialEq, Eq, Structural)]
pub struct ElevationCut {
    /// E1: commanded elevation as a binary angle.
    pub elevation_angle_raw: u16,
    /// E2 upper byte.
    pub channel_configuration: u8,
    /// E2 lower byte.
    pub waveform_type: u8,
    /// E3 upper byte: super-resolution control bits.
    pub super_resolution_control: u8,
    /// E3 lower byte.
    pub surveillance_prf_number: u8,
    /// E4.
    pub surveillance_pulse_count: u16,
    /// E5.
    pub azimuth_rate_raw: u16,
    /// E6-E11: signal-to-noise thresholds in eighths of a decibel.
    pub reflectivity_threshold_raw: i16,
    pub velocity_threshold_raw: i16,
    pub spectrum_width_threshold_raw: i16,
    pub differential_reflectivity_threshold_raw: i16,
    pub differential_phase_threshold_raw: i16,
    pub correlation_coefficient_threshold_raw: i16,
    /// E12-E14: sector 1.
    pub sector1_edge_angle_raw: u16,
    pub sector1_doppler_prf_number: u16,
    pub sector1_doppler_pulse_count: u16,
    /// E15: SAILS, MRLE, MPDA and base tilt bits.
    pub supplemental_data: u16,
    /// E16-E18: sector 2.
    pub sector2_edge_angle_raw: u16,
    pub sector2_doppler_prf_number: u16,
    pub sector2_doppler_pulse_count: u16,
    /// E19.
    pub ebc_angle_raw: u16,
    /// E20-E22: sector 3.
    pub sector3_edge_angle_raw: u16,
    pub sector3_doppler_prf_number: u16,
    pub sector3_doppler_pulse_count: u16,
    /// E23.
    pub reserved: u16,
}

/// The cut whose 46 bytes start at `p`.
pub open spec fn cut_at(d: Seq<u8>, p: int) -> ElevationCut {
    ElevationCut {
            elevation_angle_raw: be16(d, p),
            channel_configuration: d[p + 2],
            waveform_type: d[p + 3],
            super_resolution_control: d[p + 4],
            surveillance_prf_number: d[p + 5],
            surveillance_pulse_count: be16(d, p + 6),
            azimuth_rate_raw: be16(d, p + 8),
            reflectivity_threshold_raw: be16s(d, p + 10),
            velocity_threshold_raw: be16s(d, p + 12),
            spectrum_width_threshold_raw: be16s(d, p + 14),
            differential_reflectivity_threshold_raw: be16s(d, p + 16),
            differential_phase_threshold_raw: be16s(d, p + 18),
            correlation_coefficient_threshold_raw: be16s(d, p + 20),
            sector1_edge_angle_raw: be16(d, p + 22),
            sector1_doppler_prf_number: be16(d, p + 24),
            sector1_doppler_pulse_count: be16(d, p + 26),
            supplemental_data: be16(d, p + 28),
            sector2_edge_angle_raw: be16(d, p + 30),
            sector2_doppler_prf_number: be16(d, p + 32),
            sector2_doppler_pulse_count: be16(d, p + 34),
            ebc_angle_raw: be16(d, p + 36),
            sector3_edge_angle_raw: be16(d, p + 38),
            sector3_doppler_prf_number: be16(d, p + 40),
            sector3_doppler_pulse_count: be16(d, p + 42),
            reserved: be16(d, p + 44),
    }
}

/// Widths of a cut's fields in wire order.
pub open spec fn cut_widths() -> Seq<int> {
    seq![2, 1, 1, 1, 1, 2, 2, 2, 2, 2, 2, 2, 2, 2, 2, 2, 2, 2, 2, 2, 2, 2, 2, 2, 2]
}

impl ElevationCut {
    /// Parse the 46 bytes of one cut.
    #[verifier::rlimit(40)]
    pub fn read(reader: &mut SliceReader<'_>) -> (r: Result<Self, NexradDecodeError>)
        requires
            old(reader).wf(),
        ensures
            final(reader).wf(),
            final(reader).data() == old(reader).data(),
            match r {
                Ok(cut) => {
                    &&& old(reader).pos() + ELEVATION_CUT_BYTES <= old(reader).data().len()
                    &&& cut == cut_at(old(reader).data(), old(reader).pos())
                    &&& final(reader).pos() == old(reader).pos() + ELEVATION_CUT_BYTES
                },
                Err(e) => {
                    &&& old(reader).pos() + ELEVATION_CUT_BYTES > old(reader).data().len()
                    &&& e == short_read(
                        cut_widths(),
                        0,
                        old(reader).pos(),
                        old(reader).data().len() as int,
                    )
                },
            },
    {
        proof {
            reveal_with_fuel(short_read, 26);
        }
        let elevation_angle_raw: u16 = reader.read_u16_be()?;
        let channel_configuration: u8 = reader.read_u8()?;
        let waveform_type: u8 = reader.read_u8()?;
        let super_resolution_control: u8 = reader.read_u8()?;
        let surveillance_prf_number: u8 = reader.read_u8()?;
        let surveillance_pulse_count: u16 = reader.read_u16_be()?;
        let azimuth_rate_raw: u16 = reader.read_u16_be()?;
        let reflectivity_threshold_raw: i16 = reader.read_i16_be()?;
        let velocity_threshold_raw: i16 = reader.read_i16_be()?;
        let spectrum_width_threshold_raw: i16 = reader.read_i16_be()?;
        let differential_reflectivity_threshold_raw: i16 = reader.read_i16_be()?;
        let differential_phase_threshold_raw: i16 = reader.read_i16_be()?;
        let correlation_coefficient_threshold_raw: i16 = reader.read_i16_be()?;
        let sector1_edge_angle_raw: u16 = reader.read_u16_be()?;
        let sector1_doppler_prf_number: u16 = reader.read_u16_be()?;
        let sector1_doppler_pulse_count: u16 = reader.read_u16_be()?;
        let supplemental_data: u16 = reader.read_u16_be()?;
        let sector2_edge_angle_raw: u16 = reader.read_u16_be()?;
        let sector2_doppler_prf_number: u16 = reader.read_u16_be()?;
        let sector2_doppler_pulse_count: u16 = reader.read_u16_be()?;
        let ebc_angle_raw: u16 = reader.read_u16_be()?;
        let sector3_edge_angle_raw: u16 = reader.read_u16_be()?;
        let sector3_doppler_prf_number: u16 = reader.read_u16_be()?;
        let sector3_doppler_pulse_count: u16 = reader.read_u16_be()?;
        let reserved: u16 = reader.read_u16_be()?;
        Ok(
            Self {
                elevation_angle_raw,
                channel_configuration,
                waveform_type,
                super_resolution_control,
                surveillance_prf_number,
                surveillance_pulse_count,
                azimuth_rate_raw,
                reflectivity_threshold_raw,
                velocity_threshold_raw,
                spectrum_width_threshold_raw,
                differential_reflectivity_threshold_raw,
                differential_phase_threshold_raw,
                correlation_coefficient_threshold_raw,
                sector1_edge_angle_raw,
                sector1_doppler_prf_number,
                sector1_doppler_pulse_count,
                supplemental_data,
                sector2_edge_angle_raw,
                sector2_doppler_prf_number,
                sector2_doppler_pulse_count,
                ebc_angle_raw,
                sector3_edge_angle_raw,
                sector3_doppler_prf_number,
                sector3_doppler_pulse_count,
                reserved,
            },
        )
    }

    /// Commanded elevation angle; see [`binary_angle_degrees`].
    pub fn elevation_angle_degrees(&self) -> (a: u32)
        ensures
            a == binary_angle(self.elevation_angle_raw),
    {
        binary_angle_degrees(self.elevation_angle_raw)
    }

    /// Bit 0 of the supplemental data: SAILS cut.
    pub fn is_sails_cut(&self) -> (b: bool)
        ensures
            b == (self.supplemental_data & 0b0001 != 0),
    {
        self.supplemental_data & 0b0001 != 0
    }

    /// Bits 1-3 of the supplemental data: SAILS sequence number.
    pub fn sails_sequence_number(&self) -> (n: u8)
        ensures
            n as u16 == (self.supplemental_data >> 1) & 0b0111,
    {
        low_three_bits(self.supplemental_data >> 1)
    }

    /// Bit 4 of the supplemental data: MRLE cut.
    pub fn is_mrle_cut(&self) -> (b: bool)
        ensures
            b == (self.supplemental_data & 0b0001_0000 != 0),
    {
        self.supplemental_data & 0b0001_0000 != 0
    }

    /// Bits 5-7 of the supplemental data: MRLE sequence number.
    pub fn mrle_sequence_number(&self) -> (n: u8)
        ensures
            n as u16 == (self.supplemental_data >> 5) & 0b0111,
    {
        low_three_bits(self.supplemental_data >> 5)
    }

    /// Bit 9 of the supplemental data: MPDA cut.
    pub fn is_mpda_cut(&self) -> (b: bool)
        ensures
            b == (self.supplemental_data & 0b0010_0000_0000 != 0),
    {
        self.supplemental_data & 0b0010_0000_0000 != 0
    }

    /// Bit 10 of the supplemental data: base tilt cut.
    pub fn is_base_tilt_cut(&self) -> (b: bool)
        ensures
            b == (self.supplemental_data & 0b0100_0000_0000 != 0),
    {
        self.supplemental_data & 0b0100_0000_0000 != 0
    }

    /// Bit 0 of the super-resolution control: half-degree azimuth.
    pub fn super_resolution_half_degree_azimuth(&self) -> (b: bool)
        ensures
            b == (self.super_resolution_control & 0b0001 != 0),
    {
        self.super_resolution_control & 0b0001 != 0
    }

    /// Bit 1: quarter-kilometre reflectivity.
    pub fn super_resolution_quarter_km_reflectivity(&self) -> (b: bool)
        ensures
            b == (self.super_resolution_control & 0b0010 != 0),
    {
        self.super_resolution_control & 0b0010 != 0
    }

    /// Bit 2: Doppler to 300 km.
    pub fn super_resolution_doppler_to_300km(&self) -> (b: bool)
        ensures
            b == (self.super_resolution_control & 0b0100 != 0),
    {
        self.super_resolution_control & 0b0100 != 0
    }

    /// Bit 3: dual polarisation to 300 km.
    pub fn super_resolution_dual_pol_to_300km(&self) -> (b: bool)
        ensures
            b == (self.super_resolution_control & 0b1000 != 0),
    {
        self.super_resolution_control & 0b1000 != 0
    }
}

fn low_three_bits(v: u16) -> (n: u8)
    ensures
        n as u16 == v & 0b0111,
{
    assert(v & 0b0111 <= 7) by (bit_vector);
    (v & 0b0111) as u8
}

/// How many units [`binary_angle_degrees`] counts per degree.
pub const BINARY_ANGLE_UNITS_PER_DEGREE: u32 = 8192;

/// A binary angle in units of 1/8192 degree: bits 0-2 carry nothing and bit
/// `i` of the others weighs `180 * 2^(i - 15)` degrees.
pub open spec fn binary_angle(raw: u16) -> int {
    (raw as int / 8) * 8 * 45
}

/// Convert a binary angle to units of 1/8192 degree, in which it is whole.
pub fn binary_angle_degrees(raw: u16) -> (a: u32)
    ensures
        a == binary_angle(raw),
{
    (raw as u32 / 8) * 8 * 45
}

/// Decoded volume coverage pattern.
#[derive(Debug, Clone, PartialEq, Eq)]
pub struct Msg5 {
    pub message_size_halfwords: u16,
    pub pattern_type: u16,
    pub pattern_number: u16,
    pub number_of_elevation_cuts: u16,
    pub vcp_version: u8,
    pub clutter_map_group_number: u8,
    /// Doppler velocity resolution code (2 = 0.5 m/s, 4 = 1.0 m/s).
    pub doppler_velocity_resolution: u8,
    /// Pulse width code (2 = short, 4 = long).
    pub pulse_width: u8,
    pub vcp_sequencing: u16,
    pub vcp_supplemental: u16,
    pub elevation_cuts: Vec<ElevationCut>,
}

/// Widths of the header fields in wire order.
pub open spec fn msg5_header_widths() -> Seq<int> {
    seq![2, 2, 2, 2, 1, 1, 1, 1, 2, 2, 2, 2, 2]
}

/// The error that reading a pattern at `p` gives, if it gives one.
pub open spec fn msg5_error(d: Seq<u8>, p: int) -> Option<NexradDecodeError> {
    let len = d.len() as int;
    let cuts = be16(d, p + 6) as int;
    let body = p + MSG5_HEADER_BYTES;
    if body > len {
        Some(short_read(msg5_header_widths(), 0, p, len))
    } else if cuts == 0 || cuts > MAX_ELEVATION_CUTS {
        Some(
            NexradDecodeError::MalformedHeader {
                offset: 0,
                reason: "MSG_5 number_of_elevation_cuts outside ICD 1..32",
            },
        )
    } else if body + cuts * ELEVATION_CUT_BYTES > len {
        let whole = (len - body) / ELEVATION_CUT_BYTES as int;
        Some(short_read(cut_widths(), 0, body + whole * ELEVATION_CUT_BYTES, len))
    } else {
        None
    }
}

/// Bytes that a pattern at `p` takes.
pub open spec fn msg5_bytes(d: Seq<u8>, p: int) -> int {
    MSG5_HEADER_BYTES + be16(d, p + 6) * ELEVATION_CUT_BYTES
}

/// Description of a coverage pattern number.
pub open spec fn vcp_description(number: u16) -> Seq<char> {
    if number == 12 || number == 212 {
        "Convective precipitation, dual-pol"@
    } else if number == 21 || number == 121 {
        "Convective precipitation, mid-range"@
    } else if number == 31 || number == 32 {
        "Clear-air mode, light or no precipitation"@
    } else if number == 34 {
        "Clear-air mode, dual-pol"@
    } else if number == 35 {
        "Clear-air mode, dual-pol (high res)"@
    } else if number == 80 {
        "Convective precipitation (deprecated)"@
    } else if number == 90 {
        "Convective precipitation, special"@
    } else if number == 112 {
        "MPDA convective precipitation"@
    } else if number == 215 {
        "Convective precipitation, dual-pol (high alt)"@
    } else {
        "Unknown VCP"@
    }
}

/// Pulse width label of a pulse width code.
pub open spec fn pulse_width_label(code: u8) -> Seq<char> {
    if code == 2 {
        "short"@
    } else if code == 4 {
        "long"@
    } else {
        ""@
    }
}

impl Msg5 {
    /// `self` is what the bytes at `p` encode.
    pub open spec fn is_at(&self, d: Seq<u8>, p: int) -> bool {
        &&& self.message_size_halfwords == be16(d, p)
        &&& self.pattern_type == be16(d, p + 2)
        &&& self.pattern_number == be16(d, p + 4)
        &&& self.number_of_elevation_cuts == be16(d, p + 6)
        &&& self.vcp_version == d[p + 8]
        &&& self.clutter_map_group_number == d[p + 9]
        &&& self.doppler_velocity_resolution == d[p + 10]
        &&& self.pulse_width == d[p + 11]
        &&& self.vcp_sequencing == be16(d, p + 16)
        &&& self.vcp_supplemental == be16(d, p + 18)
        &&& self.elevation_cuts@ == Seq::new(
            be16(d, p + 6) as nat,
            |i: int| cut_at(d, p + MSG5_HEADER_BYTES + i * ELEVATION_CUT_BYTES),
        )
    }

    /// Parse a pattern: header, then as many cuts as it declares (1 to 32).
    #[verifier::rlimit(40)]
    pub fn read(reader: &mut SliceReader<'_>) -> (r: Result<Self, NexradDecodeError>)
        requires
            old(reader).wf(),
        ensures
            final(reader).wf(),
            final(reader).data() == old(reader).data(),
            match r {
                Ok(m) => {
                    &&& msg5_error(old(reader).data(), old(reader).pos()) is None
                    &&& m.is_at(old(reader).data(), old(reader).pos())
                    &&& final(reader).pos() == old(reader).pos() + msg5_bytes(
                        old(reader).data(),
                        old(reader).pos(),
                    )
                },
                Err(e) => msg5_error(old(reader).data(), old(reader).pos()) == Some(e),
            },
    {
        let ghost d = reader.data();
        let ghost p = reader.pos();
        proof {
            reveal_with_fuel(short_read, 14);
        }
        let message_size_halfwords: u16 = reader.read_u16_be()?;
        let pattern_type: u16 = reader.read_u16_be()?;
        let pattern_number: u16 = reader.read_u16_be()?;
        let number_of_elevation_cuts: u16 = reader.read_u16_be()?;
        let vcp_version: u8 = reader.read_u8()?;
        let clutter_map_group_number: u8 = reader.read_u8()?;
        let doppler_velocity_resolution: u8 = reader.read_u8()?;
        let pulse_width: u8 = reader.read_u8()?;
        let _reserved_hw7: u16 = reader.read_u16_be()?;
        let _reserved_hw8: u16 = reader.read_u16_be()?;
        let vcp_sequencing: u16 = reader.read_u16_be()?;
        let vcp_supplemental: u16 = reader.read_u16_be()?;
        let _reserved_hw11: u16 = reader.read_u16_be()?;

        if number_of_elevation_cuts == 0 || number_of_elevation_cuts > MAX_ELEVATION_CUTS {
            return Err(
                NexradDecodeError::MalformedHeader {
                    offset: 0,
                    reason: "MSG_5 number_of_elevation_cuts outside ICD 1..32",
                },
            );
        }
        let elevation_cuts = Self::read_cuts(reader, number_of_elevation_cuts)?;
        Ok(
            Self {
                message_size_halfwords,
                pattern_type,
                pattern_number,
                number_of_elevation_cuts,
                vcp_version,
                clutter_map_group_number,
                doppler_velocity_resolution,
                pulse_width,
                vcp_sequencing,
                vcp_supplemental,
                elevation_cuts,
            },
        )
    }

    /// Parse `count` cuts, one behind the other.
    pub fn read_cuts(reader: &mut SliceReader<'_>, count: u16) -> (r: Result<
        Vec<ElevationCut>,
        NexradDecodeError,
    >)
        requires
            old(reader).wf(),
        ensures
            final(reader).wf(),
            final(reader).data() == old(reader).data(),
            match r {
                Ok(cuts) => {
                    &&& old(reader).pos() + count * ELEVATION_CUT_BYTES <= old(reader).data().len()
                    &&& cuts@ == Seq::new(
                        count as nat,
                        |i: int|
                            cut_at(old(reader).data(), old(reader).pos() + i * ELEVATION_CUT_BYTES),
                    )
                    &&& final(reader).pos() == old(reader).pos() + count * ELEVATION_CUT_BYTES
                },
                Err(e) => {
                    let len = old(reader).data().len() as int;
                    let whole = (len - old(reader).pos()) / ELEVATION_CUT_BYTES as int;
                    &&& old(reader).pos() + count * ELEVATION_CUT_BYTES > len
                    &&& e == short_read(
                        cut_widths(),
                        0,
                        old(reader).pos() + whole * ELEVATION_CUT_BYTES,
                        len,
                    )
                },
            },
    {
        let ghost d = reader.data();
        let ghost p = reader.pos();
        let mut cuts: Vec<ElevationCut> = Vec::with_capacity(count as usize);
        let mut i: u16 = 0;
        while i < count
            invariant
                i <= count,
                reader.wf(),
                reader.data() == d,
                reader.pos() == p + i * ELEVATION_CUT_BYTES,
                cuts@.len() == i,
                forall|j: int|
                    0 <= j < i ==> cuts@[j] == cut_at(d, p + j * ELEVATION_CUT_BYTES),
                d == old(reader).data(),
                p == old(reader).pos(),
            decreases count - i,
        {
            let cut = ElevationCut::read(reader)?;
            cuts.push(cut);
            i += 1;
        }
        assert(cuts@ =~= Seq::new(count as nat, |i: int| cut_at(d, p + i * ELEVATION_CUT_BYTES)));
        Ok(cuts)
    }

    /// Pattern number (for example 212).
    pub fn number(&self) -> (n: u16)
        ensures
            n == self.pattern_number,
    {
        self.pattern_number
    }

    /// Human-readable description; `"Unknown VCP"` for an unknown number.
    pub fn description(&self) -> (s: &'static str)
        ensures
            s@ == vcp_description(self.pattern_number),
    {
        match self.pattern_number {
            12 | 212 => "Convective precipitation, dual-pol",
            21 | 121 => "Convective precipitation, mid-range",
            31 | 32 => "Clear-air mode, light or no precipitation",
            34 => "Clear-air mode, dual-pol",
            35 => "Clear-air mode, dual-pol (high res)",
            80 => "Convective precipitation (deprecated)",
            90 => "Convective precipitation, special",
            112 => "MPDA convective precipitation",
            215 => "Convective precipitation, dual-pol (high alt)",
            _ => "Unknown VCP",
        }
    }

    /// Number of elevation cuts, reduced to its low byte.
    pub fn number_of_elevation_cuts_u8(&self) -> (n: u8)
        ensures
            n == self.number_of_elevation_cuts as int % 0x100,
    {
        (self.number_of_elevation_cuts % 0x100) as u8
    }

    /// The elevation cuts.
    pub fn elevation_cuts(&self) -> (s: &[ElevationCut])
        ensures
            s@ == self.elevation_cuts@,
    {
        self.elevation_cuts.as_slice()
    }

    /// Bit 0 of the supplemental halfword: SAILS enabled.
    pub fn sails_enabled(&self) -> (b: bool)
        ensures
            b == (self.vcp_supplemental & 0b0001 != 0),
    {
        self.vcp_supplemental & 0b0001 != 0
    }

    /// Bits 1-3: number of SAILS cuts.
    pub fn sails_cuts(&self) -> (n: u8)
        ensures
            n as u16 == (self.vcp_supplemental >> 1) & 0b0111,
    {
        low_three_bits(self.vcp_supplemental >> 1)
    }

    /// Bit 4: MRLE enabled.
    pub fn mrle_enabled(&self) -> (b: bool)
        ensures
            b == (self.vcp_supplemental & 0b0001_0000 != 0),
    {
        self.vcp_supplemental & 0b0001_0000 != 0
    }

    /// Bits 5-7: number of MRLE cuts.
    pub fn mrle_cuts(&self) -> (n: u8)
        ensures
            n as u16 == (self.vcp_supplemental >> 5) & 0b0111,
    {
        low_three_bits(self.vcp_supplemental >> 5)
    }

    /// Bit 11: MPDA pattern.
    pub fn mpda_enabled(&self) -> (b: bool)
        ensures
            b == (self.vcp_supplemental & 0b1000_0000_0000 != 0),
    {
        self.vcp_supplemental & 0b1000_0000_0000 != 0
    }

    /// Bit 12: the pattern holds at least one base tilt.
    pub fn base_tilt_enabled(&self) -> (b: bool)
        ensures
            b == (self.vcp_supplemental & 0b0001_0000_0000_0000 != 0),
    {
        self.vcp_supplemental & 0b0001_0000_0000_0000 != 0
    }

    /// Bits 13-15: number of base tilts.
    pub fn base_tilt_count(&self) -> (n: u8)
        ensures
            n as u16 == (self.vcp_supplemental >> 13) & 0b0111,
    {
        low_three_bits(self.vcp_supplemental >> 13)
    }

    /// Bit 14 of the sequencing halfword: truncated pattern.
    pub fn truncated(&self) -> (b: bool)
        ensures
            b == (self.vcp_sequencing & 0b0100_0000_0000_0000 != 0),
    {
        self.vcp_sequencing & 0b0100_0000_0000_0000 != 0
    }

    /// Bit 13 of the sequencing halfword: part of an active sequence.
    pub fn sequence_active(&self) -> (b: bool)
        ensures
            b == (self.vcp_sequencing & 0b0010_0000_0000_0000 != 0),
    {
        self.vcp_sequencing & 0b0010_0000_0000_0000 != 0
    }

    /// Doppler velocity resolution in m/s as an IEEE-754 single: 0.5, 1.0 or,
    /// for an unknown code, NaN.
    pub fn doppler_velocity_resolution_m_per_s(&self) -> (bits: u32)
        ensures
            bits == (if self.doppler_velocity_resolution == 2 {
                HALF_BITS
            } else if self.doppler_velocity_resolution == 4 {
                ONE_BITS
            } else {
                NAN_BITS
            }),
    {
        match self.doppler_velocity_resolution {
            2 => HALF_BITS,
            4 => ONE_BITS,
            _ => NAN_BITS,
        }
    }

    /// `"short"`, `"long"` or, for an unknown code, the empty string.
    pub fn pulse_width_str(&self) -> (s: &'static str)
        ensures
            s@ == pulse_width_label(self.pulse_width),
    {
        match self.pulse_width {
            2 => "short",
            4 => "long",
            _ => "",
        }
    }
}

/// A coverage pattern has as many cuts as bytes 6 and 7 say. Cut `i` takes the
/// 46 bytes from `22 + 46 * i` on: first the elevation, then the channel, the
/// waveform and the super resolution bits, and 28 bytes in the supplemental
/// halfword.
pub proof fn cuts_are_read_one_behind_the_other(m: Msg5, body: Seq<u8>, i: int)
    requires
        m.is_at(body, 0),
        0 <= i < be16(body, 6),
    ensures
        m.elevation_cuts@.len() == be16(body, 6),
        ({
            let c = m.elevation_cuts@[i];
            let p = 22 + 46 * i;
            &&& c.elevation_angle_raw == be16(body, p)
            &&& c.channel_configuration == body[p + 2]
            &&& c.waveform_type == body[p + 3]
            &&& c.super_resolution_control == body[p + 4]
            &&& c.surveillance_prf_number == body[p + 5]
            &&& c.surveillance_pulse_count == be16(body, p + 6)
            &&& c.azimuth_rate_raw == be16(body, p + 8)
            &&& c.reflectivity_threshold_raw == be16s(body, p + 10)
            &&& c.velocity_threshold_raw == be16s(body, p + 12)
            &&& c.spectrum_width_threshold_raw == be16s(body, p + 14)
            &&& c.differential_reflectivity_threshold_raw == be16s(body, p + 16)
            &&& c.differential_phase_threshold_raw == be16s(body, p + 18)
            &&& c.correlation_coefficient_threshold_raw == be16s(body, p + 20)
            &&& c.sector1_edge_angle_raw == be16(body, p + 22)
            &&& c.sector1_doppler_prf_number == be16(body, p + 24)
            &&& c.sector1_doppler_pulse_count == be16(body, p + 26)
            &&& c.supplemental_data == be16(body, p + 28)
            &&& c.sector2_edge_angle_raw == be16(body, p + 30)
            &&& c.sector2_doppler_prf_number == be16(body, p + 32)
            &&& c.sector2_doppler_pulse_count == be16(body, p + 34)
            &&& c.ebc_angle_raw == be16(body, p + 36)
            &&& c.sector3_edge_angle_raw == be16(body, p + 38)
            &&& c.sector3_doppler_prf_number == be16(body, p + 40)
            &&& c.sector3_doppler_pulse_count == be16(body, p + 42)
        }),
{
    assert(i * 46 == 46 * i);
}

/// The fields of a coverage pattern stand at fixed places of its first 22 bytes.
pub proof fn patterns_have_their_fields_in_front(m: Msg5, body: Seq<u8>)
    requires
        m.is_at(body, 0),
    ensures
        m.pattern_type == be16(body, 2),
        m.pattern_number == be16(body, 4),
        m.number_of_elevation_cuts == be16(body, 6),
        m.vcp_version == body[8],
        m.clutter_map_group_number == body[9],
        m.doppler_velocity_resolution == body[10],
        m.pulse_width == body[11],
        m.vcp_sequencing == be16(body, 16),
        m.vcp_supplemental == be16(body, 18),
{
}

/// A binary angle is a fraction of a turn in steps of 1/8192 turn: the three
/// lowest of its 16 bits carry nothing. The whole range is one turn, of 360
/// degrees.
pub proof fn binary_angles_are_fractions_of_a_turn(raw: u16)
    ensures
        binary_angle(raw) * 65536 == (raw - raw % 8) * 360 * 8192,
{
    assert((raw as int / 8) * 8 == raw - raw % 8);
}

/// A coverage pattern is accepted if it declares 1 to 32 cuts and holds them all.
pub proof fn patterns_have_1_to_32_cuts(d: Seq<u8>)
    ensures
        msg5_error(d, 0) is None <==> d.len() >= 22 && 1 <= be16(d, 6) <= 32 && d.len() >= 22 + 46
            * be16(d, 6),
        msg5_bytes(d, 0) == 22 + 46 * be16(d, 6),
{
    assert(be16(d, 6) * 46 == 46 * be16(d, 6));
}

/// What a coverage pattern is for, by its number.
pub proof fn patterns_are_described_by_their_numbers(number: u16)
    ensures
        ({
            let text = vcp_description(number);
            &&& number == 12 ==> text == "Convective precipitation, dual-pol"@
            &&& number == 212 ==> text == "Convective precipitation, dual-pol"@
            &&& number == 21 ==> text == "Convective precipitation, mid-range"@
            &&& number == 121 ==> text == "Convective precipitation, mid-range"@
            &&& number == 31 ==> text == "Clear-air mode, light or no precipitation"@
            &&& number == 32 ==> text == "Clear-air mode, light or no precipitation"@
            &&& number == 34 ==> text == "Clear-air mode, dual-pol"@
            &&& number == 35 ==> text == "Clear-air mode, dual-pol (high res)"@
            &&& number == 80 ==> text == "Convective precipitation (deprecated)"@
            &&& number == 90 ==> text == "Convective precipitation, special"@
            &&& number == 112 ==> text == "MPDA convective precipitation"@
            &&& number == 215 ==> text == "Convective precipitation, dual-pol (high alt)"@
            &&& !(seq![12u16, 21, 31, 32, 34, 35, 80, 90, 112, 121, 212, 215].contains(number))
                ==> text == "Unknown VCP"@
        }),
{
    let known = seq![12u16, 21, 31, 32, 34, 35, 80, 90, 112, 121, 212, 215];
    assert(known[0] == 12 && known[1] == 21 && known[2] == 31 && known[3] == 32 && known[4] == 34
        && known[5] == 35 && known[6] == 80 && known[7] == 90 && known[8] == 112 && known[9] == 121
        && known[10] == 212 && known[11] == 215);
}

/// Pulses are short for code 2 and long for code 4; no other code has a label.
pub proof fn pulse_widths_are_labelled_by_code(code: u8)
    ensures
        code == 2 <==> pulse_width_label(code) == "short"@,
        code == 4 <==> pulse_width_label(code) == "long"@,
        code != 2 && code != 4 <==> pulse_width_label(code).len() == 0,
{
    reveal_strlit("short");
    reveal_strlit("long");
    reveal_strlit("");
    assert("short"@.len() == 5 && "long"@.len() == 4 && ""@.len() == 0);
}

} // verus!
