//! Volume and sweep attributes from the RDA status and coverage pattern
//! messages.
//!
//! Waveform and channel labels go by the raw byte. Codes without a label are
//! given in decimal.

use crate::backends::nexrad::decode::messages::msg2::Msg2;
use crate::backends::nexrad::decode::messages::msg5::{
    pulse_width_label, ElevationCut, Msg5,
};
use crate::backends::nexrad::decode::model::{is_time_range, Sweep};
use crate::float32::{
    finite, named_patterns_are_their_numbers, nan, scaled, HALF_BITS, NAN_BITS, ONE_BITS,
};
use crate::text::{decimal, decimal_has_digits_only, decimal_text, push_decimal, push_text};
use crate::time::Timestamp;
use crate::types::{
    unknown_sweep_attrs, NexradSweepAttrs, NexradVolumeAttrs, SweepAttrsModel,
};
use vstd::arithmetic::power2::pow2;
use vstd::prelude::*;

verus! {

/// Label of a waveform type code.
pub open spec fn waveform_label(raw: u8) -> Seq<char> {
    if raw == 0 {
        "not_applicable"@
    } else if raw == 1 {
        "contiguous_surveillance"@
    } else if raw == 2 {
        "contiguous_doppler"@
    } else if raw == 3 {
        "batch"@
    } else if raw == 4 {
        "staggered_pulse_pair"@
    } else {
        decimal(raw as nat)
    }
}

/// Label of a waveform type code.
pub fn waveform_type_str_from_raw(raw: u8) -> (s: String)
    ensures
        s@ == waveform_label(raw),
{
    match raw {
        0 => "not_applicable".to_owned(),
        1 => "contiguous_surveillance".to_owned(),
        2 => "contiguous_doppler".to_owned(),
        3 => "batch".to_owned(),
        4 => "staggered_pulse_pair".to_owned(),
        other => decimal_text(other as u64),
    }
}

/// Label of a channel configuration code.
pub open spec fn channel_label(raw: u8) -> Seq<char> {
    if raw == 0 {
        "constant_phase"@
    } else if raw == 1 {
        "random_phase"@
    } else if raw == 2 {
        "sz2_phase_coding"@
    } else {
        decimal(raw as nat)
    }
}

/// Label of a channel configuration code.
pub fn channel_config_str_from_raw(raw: u8) -> (s: String)
    ensures
        s@ == channel_label(raw),
{
    match raw {
        0 => "constant_phase".to_owned(),
        1 => "random_phase".to_owned(),
        2 => "sz2_phase_coding".to_owned(),
        other => decimal_text(other as u64),
    }
}

/// A dynamic scan label: the name alone or with a count of cuts.
pub open spec fn counted_label(name: Seq<char>, cuts: u16) -> Seq<char> {
    if cuts == 0 {
        name
    } else {
        name + " x "@ + decimal(cuts as nat)
    }
}

/// Dynamic scan label of a coverage pattern's supplemental halfword.
pub open spec fn scan_type_label(supplemental: u16) -> Seq<char> {
    if supplemental & 0b0001 != 0 {
        counted_label("SAILS"@, (supplemental >> 1) & 0b0111)
    } else if supplemental & 0b0001_0000 != 0 {
        counted_label("MRLE"@, (supplemental >> 5) & 0b0111)
    } else {
        "standard"@
    }
}

fn counted(name: &str, cuts: u8) -> (s: String)
    ensures
        s@ == counted_label(name@, cuts as u16),
{
    let mut s = name.to_owned();
    if cuts != 0 {
        push_text(&mut s, " x ");
        push_decimal(&mut s, cuts as u64);
    }
    s
}

/// Dynamic scan label. SAILS takes precedence over MRLE.
pub fn dynamic_scan_type(vcp: &Msg5) -> (s: String)
    ensures
        s@ == scan_type_label(vcp.vcp_supplemental),
{
    if vcp.sails_enabled() {
        counted("SAILS", vcp.sails_cuts())
    } else if vcp.mrle_enabled() {
        counted("MRLE", vcp.mrle_cuts())
    } else {
        "standard".to_owned()
    }
}

/// The four super-resolution control bits as a number.
pub fn pack_super_resolution(cut: &ElevationCut) -> (bits: u8)
    ensures
        bits == cut.super_resolution_control & 0b1111,
{
    let c: u8 = cut.super_resolution_control;
    let azimuth: u8 = if cut.super_resolution_half_degree_azimuth() {
        0b0001
    } else {
        0
    };
    let reflectivity: u8 = if cut.super_resolution_quarter_km_reflectivity() {
        0b0010
    } else {
        0
    };
    let doppler: u8 = if cut.super_resolution_doppler_to_300km() {
        0b0100
    } else {
        0
    };
    let dual_pol: u8 = if cut.super_resolution_dual_pol_to_300km() {
        0b1000
    } else {
        0
    };
    assert(azimuth | reflectivity | doppler | dual_pol == c & 0b1111) by (bit_vector)
        requires
            azimuth == (if c & 0b0001 != 0 {
                0b0001u8
            } else {
                0
            }),
            reflectivity == (if c & 0b0010 != 0 {
                0b0010u8
            } else {
                0
            }),
            doppler == (if c & 0b0100 != 0 {
                0b0100u8
            } else {
                0
            }),
            dual_pol == (if c & 0b1000 != 0 {
                0b1000u8
            } else {
                0
            }),
    ;
    azimuth | reflectivity | doppler | dual_pol
}

/// The attributes that an elevation cut gives its sweep.
pub open spec fn cut_attrs(cut: ElevationCut) -> SweepAttrsModel {
    SweepAttrsModel {
        waveform_type: waveform_label(cut.waveform_type),
        channel_config: channel_label(cut.channel_configuration),
        super_resolution: cut.super_resolution_control & 0b1111,
        sails_cut: cut.supplemental_data & 0b0001 != 0,
        sails_sequence_number: ((cut.supplemental_data >> 1) & 0b0111) as u8,
        mrle_cut: cut.supplemental_data & 0b0001_0000 != 0,
        mrle_sequence_number: ((cut.supplemental_data >> 5) & 0b0111) as u8,
        mpda_cut: cut.supplemental_data & 0b0010_0000_0000 != 0,
        base_tilt_cut: cut.supplemental_data & 0b0100_0000_0000 != 0,
    }
}

/// The attributes that an elevation cut gives its sweep.
pub fn sweep_attrs_from_cut(cut: &ElevationCut) -> (a: NexradSweepAttrs)
    ensures
        a.model() == cut_attrs(*cut),
{
    NexradSweepAttrs {
        waveform_type: waveform_type_str_from_raw(cut.waveform_type),
        channel_config: channel_config_str_from_raw(cut.channel_configuration),
        super_resolution: pack_super_resolution(cut),
        sails_cut: cut.is_sails_cut(),
        sails_sequence_number: cut.sails_sequence_number(),
        mrle_cut: cut.is_mrle_cut(),
        mrle_sequence_number: cut.mrle_sequence_number(),
        mpda_cut: cut.is_mpda_cut(),
        base_tilt_cut: cut.is_base_tilt_cut(),
    }
}

/// AVSET and EBC enabled, from the scan and data flags: bits 1 and 3.
pub fn decode_rda_scan_data_flags(raw: u16) -> (r: (bool, bool))
    ensures
        r.0 == (raw & 0x0002 != 0),
        r.1 == (raw & 0x0008 != 0),
{
    (raw & 0x0002 != 0, raw & 0x0008 != 0)
}

/// The attributes of sweep `i`: those of its cut, or the default where the
/// pattern has no such cut.
pub open spec fn sweep_attrs_at(cuts: Seq<ElevationCut>, i: int) -> SweepAttrsModel {
    if i < cuts.len() {
        cut_attrs(cuts[i])
    } else {
        unknown_sweep_attrs()
    }
}

/// The scan and data flags of an optional RDA status.
pub open spec fn rda_flags(msg2: Option<&Msg2>) -> u16 {
    match msg2 {
        Some(m) => m.rda_scan_and_data_flags,
        None => 0,
    }
}

/// `ranges` holds the time range of each sweep.
pub open spec fn are_time_ranges(
    ranges: Seq<Option<(Timestamp, Timestamp)>>,
    sweeps: Seq<Sweep>,
) -> bool {
    &&& ranges.len() == sweeps.len()
    &&& forall|i: int|
        0 <= i < sweeps.len() ==> is_time_range(
            #[trigger] ranges[i],
            |t: Timestamp| sweeps[i].has_time(t),
        )
}

/// `attrs` are the attributes of the first sweeps, as many as there are.
pub open spec fn are_sweep_attrs(attrs: Seq<NexradSweepAttrs>, cuts: Seq<ElevationCut>) -> bool {
    forall|i: int|
        0 <= i < attrs.len() ==> (#[trigger] attrs[i]).model() == sweep_attrs_at(cuts, i)
}

impl NexradVolumeAttrs {
    /// `self` are the attributes of a volume with this pattern, status and
    /// sweeps. Without a status its fields are zero and false.
    pub open spec fn is_of(
        &self,
        vcp: Msg5,
        msg2: Option<&Msg2>,
        sweeps: Seq<Sweep>,
        actual_elevation_cuts: u32,
    ) -> bool {
        &&& self.dynamic_scan_type@ == scan_type_label(vcp.vcp_supplemental)
        &&& self.mpda_vcp == (vcp.vcp_supplemental & 0b1000_0000_0000 != 0)
        &&& self.base_tilt_vcp == (vcp.vcp_supplemental & 0b0001_0000_0000_0000 != 0)
        &&& self.num_base_tilts as u16 == (vcp.vcp_supplemental >> 13) & 0b0111
        &&& self.vcp_truncated == (vcp.vcp_sequencing & 0b0100_0000_0000_0000 != 0)
        &&& self.vcp_sequence_active == (vcp.vcp_sequencing & 0b0010_0000_0000_0000 != 0)
        &&& self.number_elevation_cuts == vcp.number_of_elevation_cuts as int % 0x100
        &&& self.doppler_velocity_resolution == (if vcp.doppler_velocity_resolution == 2 {
            HALF_BITS
        } else if vcp.doppler_velocity_resolution == 4 {
            ONE_BITS
        } else {
            NAN_BITS
        })
        &&& self.vcp_pulse_width@ == pulse_width_label(vcp.pulse_width)
        &&& self.avset_enabled == (rda_flags(msg2) & 0x0002 != 0)
        &&& self.ebc_enabled == (rda_flags(msg2) & 0x0008 != 0)
        &&& self.super_res_status == (match msg2 {
            Some(m) => m.super_resolution_status,
            None => 0,
        })
        &&& self.rda_build_number == (match msg2 {
            Some(m) => m.rda_build_number,
            None => 0,
        })
        &&& self.operational_mode == (match msg2 {
            Some(m) => m.operational_mode,
            None => 0,
        })
        &&& self.actual_elevation_cuts == actual_elevation_cuts
        &&& self.sweep_attrs@.len() == sweeps.len()
        &&& are_sweep_attrs(self.sweep_attrs@, vcp.elevation_cuts@)
        &&& are_time_ranges(self.sweep_time_ranges@, sweeps)
    }
}

/// Volume-level attributes; see [`NexradVolumeAttrs::is_of`].
pub fn volume_attrs(
    vcp: &Msg5,
    msg2: Option<&Msg2>,
    sweeps: &[Sweep],
    actual_elevation_cuts: u32,
) -> (a: NexradVolumeAttrs)
    ensures
        a.is_of(*vcp, msg2, sweeps@, actual_elevation_cuts),
{
    let flags: u16 = match msg2 {
        Some(m) => m.rda_scan_and_data_flags,
        None => 0,
    };
    let (super_res_status, rda_build_number, operational_mode): (u16, u16, u16) = match msg2 {
        Some(m) => (m.super_resolution_status, m.rda_build_number, m.operational_mode),
        None => (0, 0, 0),
    };
    let (avset_enabled, ebc_enabled): (bool, bool) = decode_rda_scan_data_flags(flags);
    let cuts = vcp.elevation_cuts();
    let mut sweep_attrs: Vec<NexradSweepAttrs> = Vec::with_capacity(sweeps.len());
    let mut sweep_time_ranges: Vec<Option<(Timestamp, Timestamp)>> = Vec::with_capacity(
        sweeps.len(),
    );
    let mut i: usize = 0;
    while i < sweeps.len()
        invariant
            i <= sweeps@.len(),
            cuts@ == vcp.elevation_cuts@,
            sweep_attrs@.len() == i,
            are_sweep_attrs(sweep_attrs@, cuts@),
            sweep_time_ranges@.len() == i,
            forall|j: int|
                0 <= j < i ==> is_time_range(
                    #[trigger] sweep_time_ranges@[j],
                    |t: Timestamp| sweeps@[j].has_time(t),
                ),
        decreases sweeps@.len() - i,
    {
        let attrs = if i < cuts.len() {
            sweep_attrs_from_cut(&cuts[i])
        } else {
            NexradSweepAttrs::default()
        };
        sweep_attrs.push(attrs);
        sweep_time_ranges.push(sweeps[i].time_range());
        i += 1;
    }
    NexradVolumeAttrs {
        dynamic_scan_type: dynamic_scan_type(vcp),
        mpda_vcp: vcp.mpda_enabled(),
        base_tilt_vcp: vcp.base_tilt_enabled(),
        num_base_tilts: vcp.base_tilt_count(),
        vcp_truncated: vcp.truncated(),
        vcp_sequence_active: vcp.sequence_active(),
        number_elevation_cuts: vcp.number_of_elevation_cuts_u8() as u32,
        doppler_velocity_resolution: vcp.doppler_velocity_resolution_m_per_s(),
        vcp_pulse_width: vcp.pulse_width_str().to_owned(),
        avset_enabled,
        ebc_enabled,
        super_res_status,
        rda_build_number,
        operational_mode,
        actual_elevation_cuts,
        sweep_attrs,
        sweep_time_ranges,
    }
}

/// The bits of a cut, counted from the least significant: its control byte
/// gives the low four to super resolution; its supplemental halfword holds
/// SAILS and its number in bits 0 to 3, MRLE and its number in bits 4 to 7, MPDA
/// in bit 9 and the base tilt in bit 10.
pub proof fn cut_flags_are_bits(cut: ElevationCut)
    ensures
        ({
            let a = cut_attrs(cut);
            let s = cut.supplemental_data as int;
            &&& a.super_resolution == cut.super_resolution_control % 16
            &&& a.sails_cut == (s % 2 == 1)
            &&& a.sails_sequence_number == (s / 2) % 8
            &&& a.mrle_cut == ((s / 16) % 2 == 1)
            &&& a.mrle_sequence_number == (s / 32) % 8
            &&& a.mpda_cut == ((s / 512) % 2 == 1)
            &&& a.base_tilt_cut == ((s / 1024) % 2 == 1)
        }),
{
    let s = cut.supplemental_data;
    let c = cut.super_resolution_control;
    assert(c & 0b1111 == c % 16) by (bit_vector);
    assert((s & 0b0001 != 0) == (s % 2 == 1) && (s >> 1) & 0b0111 == (s / 2) % 8 && (s
        & 0b0001_0000 != 0) == ((s / 16) % 2 == 1) && (s >> 5) & 0b0111 == (s / 32) % 8 && (s
        & 0b0010_0000_0000 != 0) == ((s / 512) % 2 == 1) && (s & 0b0100_0000_0000 != 0) == ((s
        / 1024) % 2 == 1)) by (bit_vector);
}

/// A cut's labels are those of its waveform and channel codes.
pub proof fn cut_labels_follow_the_codes(cut: ElevationCut)
    ensures
        ({
            let a = cut_attrs(cut);
            let (w, c) = (cut.waveform_type, cut.channel_configuration);
            &&& w == 0 <==> a.waveform_type == "not_applicable"@
            &&& w == 1 <==> a.waveform_type == "contiguous_surveillance"@
            &&& w == 2 <==> a.waveform_type == "contiguous_doppler"@
            &&& w == 3 <==> a.waveform_type == "batch"@
            &&& w == 4 <==> a.waveform_type == "staggered_pulse_pair"@
            &&& w > 4 ==> a.waveform_type == decimal(w as nat)
            &&& c == 0 <==> a.channel_config == "constant_phase"@
            &&& c == 1 <==> a.channel_config == "random_phase"@
            &&& c == 2 <==> a.channel_config == "sz2_phase_coding"@
            &&& c > 2 ==> a.channel_config == decimal(c as nat)
        }),
{
    reveal_strlit("not_applicable");
    reveal_strlit("contiguous_surveillance");
    reveal_strlit("contiguous_doppler");
    reveal_strlit("batch");
    reveal_strlit("staggered_pulse_pair");
    reveal_strlit("constant_phase");
    reveal_strlit("random_phase");
    reveal_strlit("sz2_phase_coding");
    decimal_has_digits_only(cut.waveform_type as nat);
    decimal_has_digits_only(cut.channel_configuration as nat);
    assert("not_applicable"@[0] == 'n');
    assert("contiguous_surveillance"@[0] == 'c');
    assert("contiguous_doppler"@[0] == 'c');
    assert("contiguous_surveillance"@.len() == 23);
    assert("contiguous_doppler"@.len() == 18);
    assert("batch"@[0] == 'b');
    assert("staggered_pulse_pair"@[0] == 's');
    assert("constant_phase"@[0] == 'c');
    assert("random_phase"@[0] == 'r');
    assert("sz2_phase_coding"@[0] == 's');
}

/// The pattern's flags, counted from the least significant bit: the base tilts
/// stand in bits 12 to 15 of the supplemental halfword, with MPDA in bit 11;
/// the sequencing halfword holds truncation in bit 14 and an active sequence in
/// bit 13; the status holds AVSET in bit 1 and EBC in bit 3 of its flags.
pub proof fn volume_flags_are_bits(
    a: NexradVolumeAttrs,
    vcp: Msg5,
    msg2: Option<&Msg2>,
    sweeps: Seq<Sweep>,
    cuts: u32,
)
    requires
        a.is_of(vcp, msg2, sweeps, cuts),
    ensures
        ({
            let (s, q) = (vcp.vcp_supplemental as int, vcp.vcp_sequencing as int);
            &&& a.mpda_vcp == ((s / 2048) % 2 == 1)
            &&& a.base_tilt_vcp == ((s / 4096) % 2 == 1)
            &&& a.num_base_tilts == s / 8192
            &&& a.vcp_truncated == ((q / 16384) % 2 == 1)
            &&& a.vcp_sequence_active == ((q / 8192) % 2 == 1)
            &&& a.number_elevation_cuts <= 255
            &&& (vcp.number_of_elevation_cuts - a.number_elevation_cuts) % 256 == 0
            &&& a.actual_elevation_cuts == cuts
            &&& match msg2 {
                Some(m) => {
                    &&& a.avset_enabled == ((m.rda_scan_and_data_flags as int / 2) % 2 == 1)
                    &&& a.ebc_enabled == ((m.rda_scan_and_data_flags as int / 8) % 2 == 1)
                    &&& a.super_res_status == m.super_resolution_status
                    &&& a.rda_build_number == m.rda_build_number
                    &&& a.operational_mode == m.operational_mode
                },
                None => {
                    &&& !a.avset_enabled
                    &&& !a.ebc_enabled
                    &&& a.super_res_status == 0
                    &&& a.rda_build_number == 0
                    &&& a.operational_mode == 0
                },
            }
        }),
{
    let (s, q, f) = (vcp.vcp_supplemental, vcp.vcp_sequencing, rda_flags(msg2));
    assert((s & 0b1000_0000_0000 != 0) == ((s / 2048) % 2 == 1) && (s & 0b0001_0000_0000_0000
        != 0) == ((s / 4096) % 2 == 1) && (s >> 13) & 0b0111 == s / 8192) by (bit_vector);
    assert((q & 0b0100_0000_0000_0000 != 0) == ((q / 16384) % 2 == 1) && (q
        & 0b0010_0000_0000_0000 != 0) == ((q / 8192) % 2 == 1)) by (bit_vector);
    assert((f & 0x0002 != 0) == ((f / 2) % 2 == 1) && (f & 0x0008 != 0) == ((f / 8) % 2 == 1))
        by (bit_vector);
}

/// The velocity resolution of a volume is 0.5 m/s for code 2, 1 m/s for code 4,
/// and not a number for any other.
pub proof fn volume_resolution_is_the_declared_one(
    a: NexradVolumeAttrs,
    vcp: Msg5,
    msg2: Option<&Msg2>,
    sweeps: Seq<Sweep>,
    cuts: u32,
)
    requires
        a.is_of(vcp, msg2, sweeps, cuts),
    ensures
        vcp.doppler_velocity_resolution == 2 ==> finite(a.doppler_velocity_resolution) && 2
            * scaled(a.doppler_velocity_resolution) == pow2(149),
        vcp.doppler_velocity_resolution == 4 ==> finite(a.doppler_velocity_resolution) && scaled(
            a.doppler_velocity_resolution,
        ) == pow2(149),
        vcp.doppler_velocity_resolution != 2 && vcp.doppler_velocity_resolution != 4 ==> nan(
            a.doppler_velocity_resolution,
        ),
{
    named_patterns_are_their_numbers();
    assert(finite(HALF_BITS) && finite(ONE_BITS));
}

/// The scan type of a volume is `SAILS` where bit 0 of the supplemental halfword
/// is set, else `MRLE` where bit 4 is set, each with its number of cuts if that
/// is not zero, and `standard` where neither is.
pub proof fn scan_type_names_the_dynamic_cuts(
    a: NexradVolumeAttrs,
    vcp: Msg5,
    msg2: Option<&Msg2>,
    sweeps: Seq<Sweep>,
    cuts: u32,
)
    requires
        a.is_of(vcp, msg2, sweeps, cuts),
    ensures
        ({
            let s = vcp.vcp_supplemental as int;
            let (sails, mrle) = (s % 2 == 1, (s / 16) % 2 == 1);
            let (n, m) = ((s / 2) % 8, (s / 32) % 8);
            let label = a.dynamic_scan_type@;
            &&& sails && n == 0 ==> label == "SAILS"@
            &&& sails && n > 0 ==> label == "SAILS x "@ + decimal(n as nat)
            &&& !sails && mrle && m == 0 ==> label == "MRLE"@
            &&& !sails && mrle && m > 0 ==> label == "MRLE x "@ + decimal(m as nat)
            &&& !sails && !mrle ==> label == "standard"@
        }),
{
    let s = vcp.vcp_supplemental;
    assert((s & 0b0001 != 0) == (s % 2 == 1) && (s >> 1) & 0b0111 == (s / 2) % 8 && (s
        & 0b0001_0000 != 0) == ((s / 16) % 2 == 1) && (s >> 5) & 0b0111 == (s / 32) % 8)
        by (bit_vector);
    reveal_strlit("SAILS");
    reveal_strlit("MRLE");
    reveal_strlit(" x ");
    reveal_strlit("SAILS x ");
    reveal_strlit("MRLE x ");
    assert("SAILS"@ + " x "@ =~= "SAILS x "@);
    assert("MRLE"@ + " x "@ =~= "MRLE x "@);
}

/// Sweep `i` of a volume has the attributes of cut `i`; the sweeps behind the
/// last cut have empty labels, zeros and no flags.
pub proof fn sweeps_have_the_attributes_of_their_cuts(
    a: NexradVolumeAttrs,
    vcp: Msg5,
    msg2: Option<&Msg2>,
    sweeps: Seq<Sweep>,
    cuts: u32,
    i: int,
)
    requires
        a.is_of(vcp, msg2, sweeps, cuts),
        0 <= i < sweeps.len(),
    ensures
        a.sweep_attrs@.len() == sweeps.len(),
        i < vcp.elevation_cuts@.len() ==> a.sweep_attrs@[i].model() == cut_attrs(
            vcp.elevation_cuts@[i],
        ),
        i >= vcp.elevation_cuts@.len() ==> {
            let m = a.sweep_attrs@[i].model();
            &&& m.waveform_type.len() == 0
            &&& m.channel_config.len() == 0
            &&& m.super_resolution == 0
            &&& m.sails_sequence_number == 0
            &&& m.mrle_sequence_number == 0
            &&& !m.sails_cut && !m.mrle_cut && !m.mpda_cut && !m.base_tilt_cut
        },
{
}

} // verus!
