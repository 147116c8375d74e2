//! NEXRAD data model: scan, sweep, radial and site.
//!
//! The model owns its gate bytes, so a scan does not depend on the input
//! buffer.

use crate::backends::common::sort::{
    angle_keys, angle_order, is_ascending_arrangement, is_stable_order,
    key_order_arranges_by_number, stable_order_is_unique,
};
use crate::backends::nexrad::decode::messages::msg1::{msg1_outcome, opt_bytes, Msg1, Msg1Gates};
use crate::backends::nexrad::decode::messages::msg2::Msg2;
use crate::backends::nexrad::decode::messages::msg31::cfp::{
    cfp_values, decode_cfp_values, CfpBlock, CfpValue,
};
use crate::backends::nexrad::decode::messages::msg31::header::{
    pointers_at, DataHeader, PTR_CFP, PTR_PHI, PTR_REF, PTR_RHO, PTR_SW, PTR_VEL, PTR_ZDR,
};
use crate::backends::nexrad::decode::messages::msg31::info_blocks::VolumeBlock;
use crate::backends::nexrad::decode::messages::msg31::moment::{
    decode_moment_values, descriptor_at, gate_bytes_at, moment_values, MomentBlock, MomentDescriptor, MomentValue,
};
use crate::backends::nexrad::decode::messages::msg31::{
    block_text, blocks_are_told_by_name, is_block_of_kind, msg31_outcome, Msg31,
};
use crate::backends::nexrad::decode::messages::msg5::Msg5;
use crate::float32::{
    exponent_field, finite, fraction_field, named_patterns_are_their_numbers, scaled,
    single_of_8192ths, small_multiples_of_8192ths_are_singles, HALF_BITS, ONE_BITS, TWO_BITS,
};
use crate::text::{lossy_text, utf8_lossy};
use crate::time::{
    collection_instant, day_instant, day_instant_counts_milliseconds, Timestamp,
};
use crate::wire::{be16, be16s, be32, be32s};
use vstd::arithmetic::power2::{lemma2_to64, lemma_pow2_adds, pow2};
use vstd::prelude::*;
use vstd::slice::slice_to_vec;

verus! {

/// Decoded volume.
#[derive(Debug)]
pub struct Scan {
    pub coverage_pattern: Msg5,
    pub sweeps: Vec<Sweep>,
    pub site: Option<Site>,
    pub rda_status: Option<Msg2>,
}

/// One elevation sweep: a run of radials with one elevation number.
#[derive(Debug)]
pub struct Sweep {
    pub elevation_number: u8,
    pub radials: Vec<Radial>,
}

/// One radial. Angles are bit patterns of IEEE-754 singles, in degrees.
#[derive(Debug)]
pub struct Radial {
    pub azimuth_number: u16,
    pub azimuth_angle_degrees: u32,
    pub elevation_number: u8,
    pub elevation_angle_degrees: u32,
    pub radial_status: u8,
    pub collection_time: Option<Timestamp>,
    pub reflectivity: Option<OwnedMoment>,
    pub velocity: Option<OwnedMoment>,
    pub spectrum_width: Option<OwnedMoment>,
    pub differential_reflectivity: Option<OwnedMoment>,
    pub differential_phase: Option<OwnedMoment>,
    pub correlation_coefficient: Option<OwnedMoment>,
    pub clutter_filter_power: Option<OwnedCfp>,
}

/// Moment block that owns its gate bytes.
#[derive(Debug)]
pub struct OwnedMoment {
    pub descriptor: MomentDescriptor,
    pub gate_bytes: Vec<u8>,
}

/// Clutter filter power block that owns its gate bytes.
#[derive(Debug)]
pub struct OwnedCfp {
    pub descriptor: MomentDescriptor,
    pub gate_bytes: Vec<u8>,
}

/// A moment by its descriptor and gate bytes.
pub ghost struct MomentModel {
    pub descriptor: MomentDescriptor,
    pub gates: Seq<u8>,
}

/// A radial with the contents of its moments.
pub ghost struct RadialModel {
    pub azimuth_number: u16,
    pub azimuth_angle_degrees: u32,
    pub elevation_number: u8,
    pub elevation_angle_degrees: u32,
    pub radial_status: u8,
    pub collection_time: Option<Timestamp>,
    pub reflectivity: Option<MomentModel>,
    pub velocity: Option<MomentModel>,
    pub spectrum_width: Option<MomentModel>,
    pub differential_reflectivity: Option<MomentModel>,
    pub differential_phase: Option<MomentModel>,
    pub correlation_coefficient: Option<MomentModel>,
    pub clutter_filter_power: Option<MomentModel>,
}

/// A sweep with the contents of its radials.
pub ghost struct SweepModel {
    pub elevation_number: u8,
    pub radials: Seq<RadialModel>,
}

/// A moment, if there is one, has gate words of one or two bytes.
pub open spec fn moment_wf(m: Option<MomentModel>) -> bool {
    m is Some ==> m->0.descriptor.wf()
}

impl RadialModel {
    /// Gate words of every moment are one or two bytes wide.
    pub open spec fn wf(&self) -> bool {
        &&& moment_wf(self.reflectivity)
        &&& moment_wf(self.velocity)
        &&& moment_wf(self.spectrum_width)
        &&& moment_wf(self.differential_reflectivity)
        &&& moment_wf(self.differential_phase)
        &&& moment_wf(self.correlation_coefficient)
        &&& moment_wf(self.clutter_filter_power)
    }
}

/// Gate words of every moment of the radials are one or two bytes wide.
pub open spec fn radials_wf(radials: Seq<RadialModel>) -> bool {
    forall|i: int| 0 <= i < radials.len() ==> (#[trigger] radials[i]).wf()
}

/// Gate words of every moment of the sweeps are one or two bytes wide.
pub open spec fn sweeps_wf(sweeps: Seq<SweepModel>) -> bool {
    forall|k: int| 0 <= k < sweeps.len() ==> radials_wf((#[trigger] sweeps[k]).radials)
}

impl OwnedMoment {
    /// The moment that `self` holds.
    pub open spec fn model(&self) -> MomentModel {
        MomentModel { descriptor: self.descriptor, gates: self.gate_bytes@ }
    }

    /// Gate words are one or two bytes wide.
    pub open spec fn wf(&self) -> bool {
        self.descriptor.wf()
    }

    /// A copy of a borrowed block.
    pub fn from_borrowed(b: MomentBlock<'_>) -> (m: Self)
        ensures
            m.model() == (MomentModel { descriptor: b.descriptor, gates: b.gate_bytes@ }),
    {
        Self { descriptor: b.descriptor, gate_bytes: slice_to_vec(b.gate_bytes) }
    }

    /// The decoded gates, in order.
    pub fn values(&self) -> (v: Vec<MomentValue>)
        requires
            self.wf(),
        ensures
            v@ == moment_values(self.gate_bytes@, self.descriptor.word_bytes()),
    {
        decode_moment_values(self.gate_bytes.as_slice(), self.descriptor.word_size_bytes())
    }
}

impl OwnedCfp {
    /// The moment that `self` holds.
    pub open spec fn model(&self) -> MomentModel {
        MomentModel { descriptor: self.descriptor, gates: self.gate_bytes@ }
    }

    /// Gate words are one or two bytes wide.
    pub open spec fn wf(&self) -> bool {
        self.descriptor.wf()
    }

    /// A copy of a borrowed block.
    pub fn from_borrowed(b: CfpBlock<'_>) -> (m: Self)
        ensures
            m.model() == (MomentModel { descriptor: b.descriptor, gates: b.gate_bytes@ }),
    {
        Self { descriptor: b.descriptor, gate_bytes: slice_to_vec(b.gate_bytes) }
    }

    /// The decoded gates, in order.
    pub fn values(&self) -> (v: Vec<CfpValue>)
        requires
            self.wf(),
        ensures
            v@ == cfp_values(self.gate_bytes@, self.descriptor.word_bytes()),
    {
        decode_cfp_values(self.gate_bytes.as_slice(), self.descriptor.word_size_bytes())
    }
}

/// The contents of an optional moment.
pub open spec fn opt_moment(m: Option<OwnedMoment>) -> Option<MomentModel> {
    match m {
        Some(m) => Some(m.model()),
        None => None,
    }
}

/// The contents of an optional clutter filter power block.
pub open spec fn opt_cfp(m: Option<OwnedCfp>) -> Option<MomentModel> {
    match m {
        Some(m) => Some(m.model()),
        None => None,
    }
}

/// The contents of an optional borrowed moment.
pub open spec fn opt_block(b: Option<MomentBlock<'_>>) -> Option<MomentModel> {
    match b {
        Some(b) => Some(MomentModel { descriptor: b.descriptor, gates: b.gate_bytes@ }),
        None => None,
    }
}

/// The contents of an optional borrowed clutter filter power block.
pub open spec fn opt_cfp_block(b: Option<CfpBlock<'_>>) -> Option<MomentModel> {
    match b {
        Some(b) => Some(MomentModel { descriptor: b.descriptor, gates: b.gate_bytes@ }),
        None => None,
    }
}

/// Pattern of 66.
pub const LEGACY_REFLECTIVITY_OFFSET: u32 = 0x4284_0000;

/// Pattern of 129.
pub const LEGACY_DOPPLER_OFFSET: u32 = 0x4301_0000;

/// Descriptor of a legacy gate array: one byte per gate, and zero for what the
/// legacy format does not transmit.
pub open spec fn legacy_descriptor_model(
    gate_count: u16,
    range_to_first_gate_m: u16,
    gate_interval_m: u16,
    scale: u32,
    offset: u32,
) -> MomentDescriptor {
    MomentDescriptor {
        gate_count,
        range_to_first_gate_m,
        gate_interval_m,
        tover_raw: 0,
        snr_threshold_raw: 0,
        control_flags: 0,
        data_word_size_bits: 8,
        scale,
        offset,
    }
}

/// See [`legacy_descriptor_model`].
pub fn legacy_descriptor(
    gate_count: u16,
    range_to_first_gate_m: u16,
    gate_interval_m: u16,
    scale: u32,
    offset: u32,
) -> (d: MomentDescriptor)
    ensures
        d == legacy_descriptor_model(
            gate_count,
            range_to_first_gate_m,
            gate_interval_m,
            scale,
            offset,
        ),
{
    MomentDescriptor {
        gate_count,
        range_to_first_gate_m,
        gate_interval_m,
        tover_raw: 0,
        snr_threshold_raw: 0,
        control_flags: 0,
        data_word_size_bits: 8,
        scale,
        offset,
    }
}

/// `v` if it is not negative, else zero.
pub open spec fn or_zero(v: i16) -> u16 {
    if v < 0 {
        0
    } else {
        v as u16
    }
}

/// `v` if it fits a byte, else zero.
pub open spec fn byte_or_zero(v: i16) -> u8 {
    if 0 <= v <= 0xFF {
        v as u8
    } else {
        0
    }
}

/// Magnitude of `v`.
pub open spec fn magnitude(v: i16) -> u16 {
    if v < 0 {
        (-v) as u16
    } else {
        v as u16
    }
}

fn to_or_zero(v: i16) -> (r: u16)
    ensures
        r == or_zero(v),
{
    if v < 0 {
        0
    } else {
        v as u16
    }
}

fn to_byte_or_zero(v: i16) -> (r: u8)
    ensures
        r == byte_or_zero(v),
{
    if 0 <= v && v <= 0xFF {
        v as u8
    } else {
        0
    }
}

fn to_magnitude(v: i16) -> (r: u16)
    ensures
        r == magnitude(v),
{
    if v < 0 {
        (-(v as i32)) as u16
    } else {
        v as u16
    }
}

/// The fields of a legacy radial that the model keeps.
pub ghost struct LegacyFields {
    pub collection_time_ms: i32,
    pub modified_julian_date: i16,
    pub azimuth_angle_raw: i16,
    pub azimuth_number: i16,
    pub radial_status: i16,
    pub elevation_angle_raw: i16,
    pub elevation_number: i16,
    pub surveillance_first_gate_range_m: i16,
    pub doppler_first_gate_range_m: i16,
    pub surveillance_gate_interval_m: i16,
    pub doppler_gate_interval_m: i16,
    pub num_surveillance_gates: i16,
    pub num_doppler_gates: i16,
    pub doppler_velocity_resolution: i16,
}

/// The fields of a parsed legacy radial.
pub open spec fn legacy_fields(m: Msg1) -> LegacyFields {
    LegacyFields {
        collection_time_ms: m.collection_time_ms,
        modified_julian_date: m.modified_julian_date,
        azimuth_angle_raw: m.azimuth_angle_raw,
        azimuth_number: m.azimuth_number,
        radial_status: m.radial_status,
        elevation_angle_raw: m.elevation_angle_raw,
        elevation_number: m.elevation_number,
        surveillance_first_gate_range_m: m.surveillance_first_gate_range_m,
        doppler_first_gate_range_m: m.doppler_first_gate_range_m,
        surveillance_gate_interval_m: m.surveillance_gate_interval_m,
        doppler_gate_interval_m: m.doppler_gate_interval_m,
        num_surveillance_gates: m.num_surveillance_gates,
        num_doppler_gates: m.num_doppler_gates,
        doppler_velocity_resolution: m.doppler_velocity_resolution,
    }
}

/// The fields that the bytes of a legacy radial at `p` encode.
pub open spec fn legacy_fields_at(d: Seq<u8>, p: int) -> LegacyFields {
    LegacyFields {
        collection_time_ms: be32s(d, p),
        modified_julian_date: be16s(d, p + 4),
        azimuth_angle_raw: be16s(d, p + 8),
        azimuth_number: be16s(d, p + 10),
        radial_status: be16s(d, p + 12),
        elevation_angle_raw: be16s(d, p + 14),
        elevation_number: be16s(d, p + 16),
        surveillance_first_gate_range_m: be16s(d, p + 18),
        doppler_first_gate_range_m: be16s(d, p + 20),
        surveillance_gate_interval_m: be16s(d, p + 22),
        doppler_gate_interval_m: be16s(d, p + 24),
        num_surveillance_gates: be16s(d, p + 26),
        num_doppler_gates: be16s(d, p + 28),
        doppler_velocity_resolution: be16s(d, p + 42),
    }
}

/// A legacy gate array with its descriptor.
pub open spec fn legacy_moment(gates: Option<Seq<u8>>, descriptor: MomentDescriptor) -> Option<
    MomentModel,
> {
    match gates {
        Some(gates) => Some(MomentModel { descriptor, gates }),
        None => None,
    }
}

/// The radial that a legacy message stands for. The scaling is
/// `dBZ = (raw - 66)/2` for reflectivity and `m/s = (raw - 129)/2` for
/// velocity and spectrum width, or `raw - 129` for velocity in the coarser
/// resolution. There are no dual-polarisation moments.
pub open spec fn legacy_radial(m: LegacyFields, gates: Msg1Gates) -> RadialModel {
    let surveillance = legacy_descriptor_model(
        or_zero(m.num_surveillance_gates),
        magnitude(m.surveillance_first_gate_range_m),
        or_zero(m.surveillance_gate_interval_m),
        TWO_BITS,
        LEGACY_REFLECTIVITY_OFFSET,
    );
    let doppler = legacy_descriptor_model(
        or_zero(m.num_doppler_gates),
        magnitude(m.doppler_first_gate_range_m),
        or_zero(m.doppler_gate_interval_m),
        TWO_BITS,
        LEGACY_DOPPLER_OFFSET,
    );
    let velocity_scale = if m.doppler_velocity_resolution == 4 {
        ONE_BITS
    } else {
        TWO_BITS
    };
    RadialModel {
        azimuth_number: or_zero(m.azimuth_number),
        azimuth_angle_degrees: single_of_8192ths(m.azimuth_angle_raw * 45),
        elevation_number: byte_or_zero(m.elevation_number),
        elevation_angle_degrees: single_of_8192ths(m.elevation_angle_raw * 45),
        radial_status: byte_or_zero(m.radial_status),
        collection_time: Some(
            day_instant(m.modified_julian_date as int, m.collection_time_ms as int),
        ),
        reflectivity: legacy_moment(gates.reflectivity, surveillance),
        velocity: legacy_moment(
            gates.velocity,
            MomentDescriptor { scale: velocity_scale, ..doppler },
        ),
        spectrum_width: legacy_moment(gates.spectrum_width, doppler),
        differential_reflectivity: None,
        differential_phase: None,
        correlation_coefficient: None,
        clutter_filter_power: None,
    }
}

/// The radial that the body of a legacy message encodes.
pub open spec fn radial_at_msg1(body: Seq<u8>) -> RadialModel {
    legacy_radial(legacy_fields_at(body, 0), msg1_outcome(body, 0)->Ok_0.0)
}

/// The moment block that `found` lists for `kind`.
pub open spec fn moment_at(d: Seq<u8>, found: Map<int, int>, kind: int) -> Option<MomentModel> {
    if found.contains_key(kind) {
        Some(
            MomentModel {
                descriptor: descriptor_at(d, found[kind]),
                gates: gate_bytes_at(d, found[kind]),
            },
        )
    } else {
        None
    }
}

/// The radial that the body of a generic-format message encodes.
pub open spec fn radial_at_msg31(body: Seq<u8>) -> RadialModel {
    let found = msg31_outcome(body, 0, 0)->Ok_0.0;
    RadialModel {
        azimuth_number: be16(body, 10),
        azimuth_angle_degrees: be32(body, 12),
        elevation_number: body[22],
        elevation_angle_degrees: be32(body, 24),
        radial_status: body[21],
        collection_time: Some(day_instant(be16(body, 8) as int, be32(body, 4) as int)),
        reflectivity: moment_at(body, found, PTR_REF as int),
        velocity: moment_at(body, found, PTR_VEL as int),
        spectrum_width: moment_at(body, found, PTR_SW as int),
        differential_reflectivity: moment_at(body, found, PTR_ZDR as int),
        differential_phase: moment_at(body, found, PTR_PHI as int),
        correlation_coefficient: moment_at(body, found, PTR_RHO as int),
        clutter_filter_power: moment_at(body, found, PTR_CFP as int),
    }
}

/// The radial that a generic-format message stands for.
pub open spec fn radial_of_msg31(m: Msg31<'_>) -> RadialModel {
    RadialModel {
        azimuth_number: m.header.azimuth_number,
        azimuth_angle_degrees: m.header.azimuth_angle_degrees,
        elevation_number: m.header.elevation_number,
        elevation_angle_degrees: m.header.elevation_angle_degrees,
        radial_status: m.header.radial_status,
        collection_time: Some(
            day_instant(m.header.modified_julian_date as int, m.header.collection_time_ms as int),
        ),
        reflectivity: opt_block(m.reflectivity),
        velocity: opt_block(m.velocity),
        spectrum_width: opt_block(m.spectrum_width),
        differential_reflectivity: opt_block(m.zdr),
        differential_phase: opt_block(m.phi),
        correlation_coefficient: opt_block(m.rho),
        clutter_filter_power: opt_cfp_block(m.cfp),
    }
}

fn own_moment(b: Option<MomentBlock<'_>>) -> (m: Option<OwnedMoment>)
    ensures
        opt_moment(m) == opt_block(b),
{
    match b {
        Some(b) => Some(OwnedMoment::from_borrowed(b)),
        None => None,
    }
}

fn own_cfp(b: Option<CfpBlock<'_>>) -> (m: Option<OwnedCfp>)
    ensures
        opt_cfp(m) == opt_cfp_block(b),
{
    match b {
        Some(b) => Some(OwnedCfp::from_borrowed(b)),
        None => None,
    }
}

fn own_legacy(gates: Option<Vec<u8>>, descriptor: MomentDescriptor) -> (m: Option<OwnedMoment>)
    ensures
        opt_moment(m) == legacy_moment(opt_bytes(gates), descriptor),
{
    match gates {
        Some(gate_bytes) => Some(OwnedMoment { descriptor, gate_bytes }),
        None => None,
    }
}

impl Radial {
    /// The radial that `self` holds.
    pub open spec fn model(&self) -> RadialModel {
        RadialModel {
            azimuth_number: self.azimuth_number,
            azimuth_angle_degrees: self.azimuth_angle_degrees,
            elevation_number: self.elevation_number,
            elevation_angle_degrees: self.elevation_angle_degrees,
            radial_status: self.radial_status,
            collection_time: self.collection_time,
            reflectivity: opt_moment(self.reflectivity),
            velocity: opt_moment(self.velocity),
            spectrum_width: opt_moment(self.spectrum_width),
            differential_reflectivity: opt_moment(self.differential_reflectivity),
            differential_phase: opt_moment(self.differential_phase),
            correlation_coefficient: opt_moment(self.correlation_coefficient),
            clutter_filter_power: opt_cfp(self.clutter_filter_power),
        }
    }

    /// Convert a parsed legacy radial.
    pub fn from_msg1(m: Msg1) -> (r: Self)
        ensures
            r.model() == legacy_radial(legacy_fields(m), m.gates()),
    {
        let collection_time = m.collection_time();
        let num_surv: u16 = to_or_zero(m.num_surveillance_gates);
        let surv_range_m: u16 = to_magnitude(m.surveillance_first_gate_range_m);
        let surv_interval_m: u16 = to_or_zero(m.surveillance_gate_interval_m);
        let num_dopp: u16 = to_or_zero(m.num_doppler_gates);
        let dopp_range_m: u16 = to_magnitude(m.doppler_first_gate_range_m);
        let dopp_interval_m: u16 = to_or_zero(m.doppler_gate_interval_m);
        let vel_scale: u32 = if m.doppler_velocity_resolution == 4 {
            ONE_BITS
        } else {
            TWO_BITS
        };
        let surveillance = legacy_descriptor(
            num_surv,
            surv_range_m,
            surv_interval_m,
            TWO_BITS,
            LEGACY_REFLECTIVITY_OFFSET,
        );
        let velocity = legacy_descriptor(
            num_dopp,
            dopp_range_m,
            dopp_interval_m,
            vel_scale,
            LEGACY_DOPPLER_OFFSET,
        );
        let width = legacy_descriptor(
            num_dopp,
            dopp_range_m,
            dopp_interval_m,
            TWO_BITS,
            LEGACY_DOPPLER_OFFSET,
        );
        Self {
            azimuth_number: to_or_zero(m.azimuth_number),
            azimuth_angle_degrees: m.azimuth_angle_degrees(),
            elevation_number: to_byte_or_zero(m.elevation_number),
            elevation_angle_degrees: m.elevation_angle_degrees(),
            radial_status: to_byte_or_zero(m.radial_status),
            collection_time,
            reflectivity: own_legacy(m.reflectivity_gates, surveillance),
            velocity: own_legacy(m.velocity_gates, velocity),
            spectrum_width: own_legacy(m.spectrum_width_gates, width),
            differential_reflectivity: None,
            differential_phase: None,
            correlation_coefficient: None,
            clutter_filter_power: None,
        }
    }

    /// Convert a parsed generic-format radial, copying its gate bytes.
    pub fn from_msg31(m: Msg31<'_>) -> (r: Self)
        ensures
            r.model() == radial_of_msg31(m),
    {
        Self {
            azimuth_number: m.header.azimuth_number,
            azimuth_angle_degrees: m.header.azimuth_angle_degrees,
            elevation_number: m.header.elevation_number,
            elevation_angle_degrees: m.header.elevation_angle_degrees,
            radial_status: m.header.radial_status,
            collection_time: msg31_collection_time(&m.header),
            reflectivity: own_moment(m.reflectivity),
            velocity: own_moment(m.velocity),
            spectrum_width: own_moment(m.spectrum_width),
            differential_reflectivity: own_moment(m.zdr),
            differential_phase: own_moment(m.phi),
            correlation_coefficient: own_moment(m.rho),
            clutter_filter_power: own_cfp(m.cfp),
        }
    }
}

/// Collection time of a generic-format radial. Day one is 1970-01-01.
pub fn msg31_collection_time(h: &DataHeader) -> (t: Option<Timestamp>)
    ensures
        t == Some(day_instant(h.modified_julian_date as int, h.collection_time_ms as int)),
{
    collection_instant(h.modified_julian_date as i32, h.collection_time_ms as i64)
}

/// Radar site. Latitude and longitude are bit patterns of IEEE-754 singles.
#[derive(Debug, Clone, Copy, PartialEq, Eq)]
pub struct Site {
    /// ASCII site identifier.
    pub identifier: [u8; 4],
    pub latitude_degrees: u32,
    pub longitude_degrees: u32,
    /// Height of the site above sea level.
    pub site_height_m: i16,
    /// Height of the tower above ground.
    pub tower_height_m: u16,
}

impl Site {
    /// `self` is the site of a radial with this identifier and volume block.
    pub open spec fn is_from(&self, identifier: Seq<u8>, vol: VolumeBlock) -> bool {
        &&& self.identifier@ == identifier
        &&& self.latitude_degrees == vol.latitude_degrees
        &&& self.longitude_degrees == vol.longitude_degrees
        &&& self.site_height_m == vol.site_height_m
        &&& self.tower_height_m == vol.tower_height_m
    }

    /// The site that a volume block describes.
    pub fn from_vol(identifier: [u8; 4], vol: &VolumeBlock) -> (s: Self)
        ensures
            s.is_from(identifier@, *vol),
    {
        Self {
            identifier,
            latitude_degrees: vol.latitude_degrees,
            longitude_degrees: vol.longitude_degrees,
            site_height_m: vol.site_height_m,
            tower_height_m: vol.tower_height_m,
        }
    }

    /// Site identifier as text, with U+FFFD for what is not UTF-8.
    pub fn icao_str(&self) -> (s: String)
        ensures
            s@ == utf8_lossy(self.identifier@),
    {
        lossy_text(self.identifier.as_slice())
    }
}

/// The contents of a sequence of radials.
pub open spec fn radial_models(radials: Seq<Radial>) -> Seq<RadialModel> {
    radials.map_values(|r: Radial| r.model())
}

/// The contents of a sequence of sweeps.
pub open spec fn sweep_models(sweeps: Seq<Sweep>) -> Seq<SweepModel> {
    sweeps.map_values(|s: Sweep| s.model())
}

/// `r` is the range of the points in time that `has` holds of.
pub open spec fn is_time_range(
    r: Option<(Timestamp, Timestamp)>,
    has: spec_fn(Timestamp) -> bool,
) -> bool {
    match r {
        None => forall|t: Timestamp| !#[trigger] has(t),
        Some((earliest, latest)) => {
            &&& has(earliest)
            &&& has(latest)
            &&& forall|t: Timestamp|
                #[trigger] has(t) ==> earliest.at_or_before(t) && t.at_or_before(latest)
        },
    }
}

/// A range of points in time does not end before it starts.
pub proof fn time_ranges_do_not_run_backwards(
    earliest: Timestamp,
    latest: Timestamp,
    has: spec_fn(Timestamp) -> bool,
)
    requires
        is_time_range(Some((earliest, latest)), has),
    ensures
        earliest.at_or_before(latest),
{
}

/// Points in time have one range.
pub proof fn time_ranges_are_unique(
    a: Option<(Timestamp, Timestamp)>,
    b: Option<(Timestamp, Timestamp)>,
    has_a: spec_fn(Timestamp) -> bool,
    has_b: spec_fn(Timestamp) -> bool,
)
    requires
        is_time_range(a, has_a),
        is_time_range(b, has_b),
        forall|t: Timestamp| #[trigger] has_a(t) == has_b(t),
    ensures
        a == b,
{
    if let Some((start, end)) = a {
        assert(has_a(start) && has_a(end));
        if let Some((other_start, other_end)) = b {
            assert(has_a(other_start) == has_b(other_start));
            assert(has_a(other_end) == has_b(other_end));
        }
    }
    if let Some((start, end)) = b {
        assert(has_a(start) == has_b(start));
    }
}

/// The range that covers a range and one more pair of points.
fn extend_range(
    range: Option<(Timestamp, Timestamp)>,
    start: Timestamp,
    end: Timestamp,
) -> (r: (Timestamp, Timestamp))
    ensures
        match range {
            None => r == (start, end),
            Some((s, e)) => {
                &&& r.0 == (if start.at_or_before(s) {
                    start
                } else {
                    s
                })
                &&& r.1 == (if e.at_or_before(end) {
                    end
                } else {
                    e
                })
            },
        },
{
    match range {
        None => (start, end),
        Some((s, e)) => (
            if start.is_at_or_before(&s) {
                start
            } else {
                s
            },
            if e.is_at_or_before(&end) {
                end
            } else {
                e
            },
        ),
    }
}

/// Median of the elevation angles of a sweep, as bit patterns of IEEE-754
/// singles.
#[derive(Debug, Clone, Copy, PartialEq, Eq, Structural)]
pub enum MedianAngle {
    /// The middle angle of an odd number of radials.
    Middle(u32),
    /// The two middle angles of an even number; the median is their mean.
    MeanOf(u32, u32),
}

/// The median of angles that `order` sorts.
pub open spec fn median_by(angles: Seq<u32>, order: Seq<usize>) -> MedianAngle {
    let mid = angles.len() as int / 2;
    if angles.len() % 2 == 0 {
        MedianAngle::MeanOf(angles[order[mid - 1] as int], angles[order[mid] as int])
    } else {
        MedianAngle::Middle(angles[order[mid] as int])
    }
}

/// `m` is the median of `angles`; there is none of no angles.
pub open spec fn is_median(m: Option<MedianAngle>, angles: Seq<u32>) -> bool {
    if angles.len() == 0 {
        m is None
    } else {
        exists|order: Seq<usize>|
            #[trigger] is_stable_order(order, angle_keys(angles)) && m == Some(
                median_by(angles, order),
            )
    }
}

/// Angles have one median.
pub proof fn medians_are_unique(
    a: Option<MedianAngle>,
    b: Option<MedianAngle>,
    angles: Seq<u32>,
)
    requires
        is_median(a, angles),
        is_median(b, angles),
    ensures
        a == b,
{
    if angles.len() > 0 {
        let keys = angle_keys(angles);
        let x = choose|order: Seq<usize>|
            #[trigger] is_stable_order(order, keys) && a == Some(median_by(angles, order));
        let y = choose|order: Seq<usize>|
            #[trigger] is_stable_order(order, keys) && b == Some(median_by(angles, order));
        stable_order_is_unique(x, y, keys);
    }
}

/// Sweeps of the same radials have the same elevation angles and points in
/// time.
pub(crate) proof fn lemma_same_model(a: Sweep, b: Sweep)
    requires
        a.model() == b.model(),
    ensures
        a.elevation_number == b.elevation_number,
        a.elevations() == b.elevations(),
        forall|t: Timestamp| #[trigger] a.has_time(t) == b.has_time(t),
{
    let (x, y) = (radial_models(a.radials@), radial_models(b.radials@));
    assert(x.len() == y.len());
    assert forall|i: int| 0 <= i < a.radials@.len() implies {
        &&& (#[trigger] a.radials@[i]).elevation_angle_degrees
            == b.radials@[i].elevation_angle_degrees
        &&& a.radials@[i].collection_time == b.radials@[i].collection_time
    } by {
        assert(x[i] == y[i]);
    }
    assert(a.elevations() =~= b.elevations());
    assert forall|t: Timestamp| #[trigger] a.has_time(t) == b.has_time(t) by {
        if a.has_time(t) {
            let i = choose|i: int|
                0 <= i < a.radials@.len() && (#[trigger] a.radials@[i]).collection_time == Some(t);
            assert(b.radials@[i].collection_time == Some(t));
        }
        if b.has_time(t) {
            let i = choose|i: int|
                0 <= i < b.radials@.len() && (#[trigger] b.radials@[i]).collection_time == Some(t);
            assert(a.radials@[i].collection_time == Some(t));
        }
    }
}

impl Sweep {
    /// The sweep that `self` holds.
    pub open spec fn model(&self) -> SweepModel {
        SweepModel {
            elevation_number: self.elevation_number,
            radials: radial_models(self.radials@),
        }
    }

    /// Some radial was collected at `t`.
    pub open spec fn has_time(&self, t: Timestamp) -> bool {
        exists|i: int|
            0 <= i < self.radials@.len() && (#[trigger] self.radials@[i]).collection_time == Some(
                t,
            )
    }

    /// The elevation angles of the radials.
    pub open spec fn elevations(&self) -> Seq<u32> {
        self.radials@.map_values(|r: Radial| r.elevation_angle_degrees)
    }

    /// Median of the elevation angles of the radials.
    pub fn elevation_angle_degrees(&self) -> (m: Option<MedianAngle>)
        ensures
            is_median(m, self.elevations()),
    {
        let n: usize = self.radials.len();
        if n == 0 {
            return None;
        }
        let mut angles: Vec<u32> = Vec::with_capacity(n);
        let mut i: usize = 0;
        while i < n
            invariant
                i <= n,
                n == self.radials@.len(),
                angles@.len() == i,
                forall|j: int| 0 <= j < i ==> angles@[j] == self.elevations()[j],
            decreases n - i,
        {
            angles.push(self.radials[i].elevation_angle_degrees);
            i += 1;
        }
        assert(angles@ =~= self.elevations());
        let order = angle_order(angles.as_slice());
        let mid: usize = n / 2;
        assert(order@[mid as int] < n);
        if n % 2 == 0 {
            assert(order@[mid - 1] < n);
            Some(MedianAngle::MeanOf(angles[order[mid - 1]], angles[order[mid]]))
        } else {
            Some(MedianAngle::Middle(angles[order[mid]]))
        }
    }

    /// Earliest and latest collection time of the radials.
    pub fn time_range(&self) -> (r: Option<(Timestamp, Timestamp)>)
        ensures
            is_time_range(r, |t: Timestamp| self.has_time(t)),
    {
        let mut range: Option<(Timestamp, Timestamp)> = None;
        let mut i: usize = 0;
        while i < self.radials.len()
            invariant
                i <= self.radials@.len(),
                match range {
                    None => forall|j: int|
                        0 <= j < i ==> (#[trigger] self.radials@[j]).collection_time is None,
                    Some((earliest, latest)) => {
                        &&& self.has_time(earliest)
                        &&& self.has_time(latest)
                        &&& forall|j: int|
                            0 <= j < i && (#[trigger] self.radials@[j]).collection_time is Some
                                ==> earliest.at_or_before(
                                self.radials@[j].collection_time->0,
                            ) && self.radials@[j].collection_time->0.at_or_before(latest)
                    },
                },
            decreases self.radials@.len() - i,
        {
            if let Some(t) = self.radials[i].collection_time {
                assert(self.radials@[i as int].collection_time == Some(t));
                range = Some(extend_range(range, t, t));
            }
            i += 1;
        }
        range
    }
}

impl Scan {
    /// Some radial of the volume was collected at `t`.
    pub open spec fn has_time(&self, t: Timestamp) -> bool {
        exists|k: int| 0 <= k < self.sweeps@.len() && (#[trigger] self.sweeps@[k]).has_time(t)
    }

    /// Earliest and latest collection time of the volume.
    pub fn time_range(&self) -> (r: Option<(Timestamp, Timestamp)>)
        ensures
            is_time_range(r, |t: Timestamp| self.has_time(t)),
    {
        let mut range: Option<(Timestamp, Timestamp)> = None;
        let mut k: usize = 0;
        while k < self.sweeps.len()
            invariant
                k <= self.sweeps@.len(),
                match range {
                    None => forall|j: int, t: Timestamp|
                        0 <= j < k ==> !(#[trigger] self.sweeps@[j].has_time(t)),
                    Some((earliest, latest)) => {
                        &&& self.has_time(earliest)
                        &&& self.has_time(latest)
                        &&& forall|j: int, t: Timestamp|
                            0 <= j < k && #[trigger] self.sweeps@[j].has_time(t)
                                ==> earliest.at_or_before(t) && t.at_or_before(latest)
                    },
                },
            decreases self.sweeps@.len() - k,
        {
            let ghost sweep = self.sweeps@[k as int];
            let found = self.sweeps[k].time_range();
            proof {
                let has = |t: Timestamp| sweep.has_time(t);
                assert(forall|t: Timestamp| has(t) == sweep.has_time(t));
            }
            if let Some((start, end)) = found {
                assert(sweep.has_time(start) && sweep.has_time(end));
                range = Some(extend_range(range, start, end));
            }
            k += 1;
        }
        range
    }
}

/// A radial that opens a sweep whatever comes before it.
pub open spec fn starts_sweep(status: u8) -> bool {
    status == 0 || status == 3 || status == 5
}

/// A radial that closes the sweep it continues.
pub open spec fn ends_sweep(status: u8) -> bool {
    status == 2 || status == 4
}

/// Sweeps under construction: those that are complete and the open one.
pub ghost struct Grouping {
    pub done: Seq<SweepModel>,
    pub open: Option<SweepModel>,
}

/// The complete sweeps, the open one counted.
pub open spec fn close_open(g: Grouping) -> Seq<SweepModel> {
    match g.open {
        Some(s) => g.done.push(s),
        None => g.done,
    }
}

/// What one more radial does to the sweeps.
///
/// It opens a sweep of its own if its status says so, if none is open, or if
/// the open one has another elevation number. Otherwise it continues the open
/// sweep, and closes it if its status says so.
pub open spec fn group_step(g: Grouping, r: RadialModel) -> Grouping {
    let fresh = SweepModel { elevation_number: r.elevation_number, radials: seq![r] };
    match g.open {
        Some(s) => if starts_sweep(r.radial_status) || s.elevation_number != r.elevation_number {
            Grouping { done: g.done.push(s), open: Some(fresh) }
        } else {
            let longer = SweepModel { radials: s.radials.push(r), ..s };
            if ends_sweep(r.radial_status) {
                Grouping { done: g.done.push(longer), open: None }
            } else {
                Grouping { done: g.done, open: Some(longer) }
            }
        },
        None => Grouping { done: g.done, open: Some(fresh) },
    }
}

/// The sweeps after the first `n` radials.
pub open spec fn group_prefix(radials: Seq<RadialModel>, n: int) -> Grouping
    decreases n,
{
    if n <= 0 {
        Grouping { done: Seq::empty(), open: None }
    } else {
        group_step(group_prefix(radials, n - 1), radials[n - 1])
    }
}

/// The sweeps of a sequence of radials.
pub open spec fn group_sweeps(radials: Seq<RadialModel>) -> Seq<SweepModel> {
    close_open(group_prefix(radials, radials.len() as int))
}

/// The radials of a sequence of sweeps, one sweep behind the other.
pub open spec fn joined_radials(sweeps: Seq<SweepModel>) -> Seq<RadialModel>
    decreases sweeps.len(),
{
    if sweeps.len() == 0 {
        Seq::empty()
    } else {
        joined_radials(sweeps.drop_last()) + sweeps.last().radials
    }
}

/// A sweep holds radials, all of its elevation number; only the first may be
/// marked as a start, and of the others only the last as an end.
pub open spec fn is_one_sweep(s: SweepModel) -> bool {
    &&& s.radials.len() > 0
    &&& forall|i: int|
        0 <= i < s.radials.len() ==> (#[trigger] s.radials[i]).elevation_number
            == s.elevation_number
    &&& forall|i: int|
        0 < i < s.radials.len() ==> !starts_sweep((#[trigger] s.radials[i]).radial_status)
    &&& forall|i: int|
        0 < i < s.radials.len() - 1 ==> !ends_sweep((#[trigger] s.radials[i]).radial_status)
}

/// The last radial of a sweep, not being its first, is marked as an end.
pub open spec fn is_ended(s: SweepModel) -> bool {
    s.radials.len() > 1 && ends_sweep(s.radials.last().radial_status)
}

/// `b` may follow `a` as a sweep of its own: its first radial is marked as a
/// start or has another elevation number, or `a` was ended.
pub open spec fn is_boundary(a: SweepModel, b: SweepModel) -> bool {
    ||| starts_sweep(b.radials[0].radial_status)
    ||| a.elevation_number != b.elevation_number
    ||| is_ended(a)
}

spec fn grouping_inv(g: Grouping) -> bool {
    &&& forall|k: int| 0 <= k < g.done.len() ==> is_one_sweep(#[trigger] g.done[k])
    &&& forall|k: int|
        0 <= k < g.done.len() - 1 ==> is_boundary(#[trigger] g.done[k], g.done[k + 1])
    &&& match g.open {
        Some(s) => {
            &&& is_one_sweep(s)
            &&& !is_ended(s)
            &&& g.done.len() > 0 ==> is_boundary(g.done.last(), s)
        },
        None => g.done.len() > 0 ==> is_ended(g.done.last()),
    }
}

proof fn lemma_grouping(radials: Seq<RadialModel>, n: int)
    requires
        0 <= n <= radials.len(),
    ensures
        grouping_inv(group_prefix(radials, n)),
        joined_radials(close_open(group_prefix(radials, n))) == radials.take(n),
    decreases n,
{
    if n == 0 {
        assert(radials.take(0) =~= Seq::empty());
    } else {
        lemma_grouping(radials, n - 1);
        let g = group_prefix(radials, n - 1);
        let r = radials[n - 1];
        let next = group_step(g, r);
        assert(radials.take(n) =~= radials.take(n - 1).push(r));
        let (before, after) = (close_open(g), close_open(next));
        if g.open is Some && !starts_sweep(r.radial_status) && g.open->0.elevation_number
            == r.elevation_number {
            let s = g.open->0;
            let longer = SweepModel { radials: s.radials.push(r), ..s };
            assert(before.drop_last() =~= g.done);
            assert(after.drop_last() =~= g.done);
            assert(after.last() == longer);
            assert(joined_radials(g.done) + s.radials.push(r) =~= (joined_radials(g.done)
                + s.radials).push(r));
            assert(is_one_sweep(longer)) by {
                assert forall|i: int| 0 < i < longer.radials.len() - 1 implies !ends_sweep(
                    (#[trigger] longer.radials[i]).radial_status,
                ) by {
                    assert(longer.radials[i] == s.radials[i]);
                    if i == s.radials.len() - 1 {
                        assert(s.radials.last() == s.radials[i]);
                    }
                }
            }
            if g.done.len() > 0 {
                assert(is_boundary(g.done.last(), longer));
            }
        } else {
            let fresh = SweepModel { elevation_number: r.elevation_number, radials: seq![r] };
            assert(after.drop_last() =~= before);
            assert(after.last() == fresh);
            assert(joined_radials(before) + seq![r] =~= joined_radials(before).push(r));
            assert(is_one_sweep(fresh));
            assert(next.done =~= before);
        }
    }
}

/// Grouping neither loses nor reorders radials: the sweeps, one behind the
/// other, are the radials that were given.
pub proof fn grouping_keeps_every_radial(radials: Seq<RadialModel>)
    ensures
        joined_radials(group_sweeps(radials)) == radials,
{
    lemma_grouping(radials, radials.len() as int);
    assert(radials.take(radials.len() as int) =~= radials);
}

/// Every group is one sweep, and no two neighbours could have been one: each
/// boundary is marked by a status or by a change of elevation number.
pub proof fn grouping_follows_the_markers(radials: Seq<RadialModel>)
    ensures
        forall|k: int|
            0 <= k < group_sweeps(radials).len() ==> is_one_sweep(
                #[trigger] group_sweeps(radials)[k],
            ),
        forall|k: int|
            0 <= k < group_sweeps(radials).len() - 1 ==> is_boundary(
                #[trigger] group_sweeps(radials)[k],
                group_sweeps(radials)[k + 1],
            ),
{
    lemma_grouping(radials, radials.len() as int);
}

/// Grouping keeps the radials well-formed.
pub proof fn grouping_keeps_wf(radials: Seq<RadialModel>)
    requires
        radials_wf(radials),
    ensures
        sweeps_wf(group_sweeps(radials)),
{
    lemma_grouping_wf(radials, radials.len() as int);
}

proof fn lemma_grouping_wf(radials: Seq<RadialModel>, n: int)
    requires
        radials_wf(radials),
        0 <= n <= radials.len(),
    ensures
        sweeps_wf(group_prefix(radials, n).done),
        match group_prefix(radials, n).open {
            Some(s) => radials_wf(s.radials),
            None => true,
        },
    decreases n,
{
    if n > 0 {
        lemma_grouping_wf(radials, n - 1);
        assert(radials[n - 1].wf());
    }
}

/// A supplemental revisit of an elevation, marked as a start, does not merge
/// into the sweep that it revisits: a radial marked as a start is the first of
/// its sweep.
pub proof fn start_markers_open_sweeps(radials: Seq<RadialModel>, k: int, i: int)
    requires
        0 <= k < group_sweeps(radials).len(),
        0 <= i < group_sweeps(radials)[k].radials.len(),
        starts_sweep(group_sweeps(radials)[k].radials[i].radial_status),
    ensures
        i == 0,
{
    grouping_follows_the_markers(radials);
    assert(is_one_sweep(group_sweeps(radials)[k]));
}

/// Group radials, in arrival order, into sweeps by their status and elevation
/// number; see [`group_step`].
pub fn group_radials_into_sweeps(radials: Vec<Radial>) -> (sweeps: Vec<Sweep>)
    ensures
        sweep_models(sweeps@) == group_sweeps(radial_models(radials@)),
{
    let ghost models = radial_models(radials@);
    let ghost all = radials@;
    let mut sweeps: Vec<Sweep> = Vec::new();
    let mut open: Option<Sweep> = None;
    assert(sweep_models(sweeps@) =~= Seq::empty());
    for radial in it: radials.into_iter()
        invariant
            all == it.seq(),
            models == radial_models(all),
            sweep_models(sweeps@) == group_prefix(models, it.index() as int).done,
            match open {
                Some(s) => group_prefix(models, it.index() as int).open == Some(s.model()),
                None => group_prefix(models, it.index() as int).open is None,
            },
    {
        let ghost model = radial.model();
        assert(models[it.index() as int] == model);
        let number: u8 = radial.elevation_number;
        let status: u8 = radial.radial_status;
        let starts: bool = status == 0 || status == 3 || status == 5;
        match open {
            Some(mut sweep) => {
                if starts || sweep.elevation_number != number {
                    let ghost before = sweeps@;
                    sweeps.push(sweep);
                    assert(sweep_models(sweeps@) =~= sweep_models(before).push(sweep.model()));
                    let mut fresh: Vec<Radial> = Vec::new();
                    fresh.push(radial);
                    assert(radial_models(fresh@) =~= seq![model]);
                    open = Some(Sweep { elevation_number: number, radials: fresh });
                } else {
                    let ghost before = sweep.radials@;
                    sweep.radials.push(radial);
                    assert(radial_models(sweep.radials@) =~= radial_models(before).push(model));
                    if status == 2 || status == 4 {
                        let ghost done = sweeps@;
                        sweeps.push(sweep);
                        assert(sweep_models(sweeps@) =~= sweep_models(done).push(sweep.model()));
                        open = None;
                    } else {
                        open = Some(sweep);
                    }
                }
            },
            None => {
                let mut fresh: Vec<Radial> = Vec::new();
                fresh.push(radial);
                assert(radial_models(fresh@) =~= seq![model]);
                open = Some(Sweep { elevation_number: number, radials: fresh });
            },
        }
    }
    if let Some(sweep) = open {
        let ghost before = sweeps@;
        sweeps.push(sweep);
        assert(sweep_models(sweeps@) =~= sweep_models(before).push(sweep.model()));
    }
    sweeps
}

/// The elevation numbers that occur among radials.
pub open spec fn elevation_numbers(radials: Seq<RadialModel>) -> Set<u8> {
    radials.map_values(|r: RadialModel| r.elevation_number).to_set()
}

/// `vcp` stands in for the pattern that a volume with these radials lacks: it
/// counts the elevations that occur, and knows neither a number nor cuts.
pub open spec fn is_synthetic_vcp(vcp: Msg5, radials: Seq<RadialModel>) -> bool {
    &&& vcp.message_size_halfwords == 0
    &&& vcp.pattern_type == 0
    &&& vcp.pattern_number == 0
    &&& vcp.number_of_elevation_cuts == elevation_numbers(radials).len()
    &&& vcp.vcp_version == 0
    &&& vcp.clutter_map_group_number == 0
    &&& vcp.doppler_velocity_resolution == 0
    &&& vcp.pulse_width == 0
    &&& vcp.vcp_sequencing == 0
    &&& vcp.vcp_supplemental == 0
    &&& vcp.elevation_cuts@.len() == 0
}

impl Msg5 {
    /// A placeholder pattern for volumes that transmit none; see
    /// [`is_synthetic_vcp`].
    pub fn synthetic_from_radials(radials: &[Radial]) -> (vcp: Self)
        ensures
            is_synthetic_vcp(vcp, radial_models(radials@)),
    {
        let ghost models = radial_models(radials@);
        let mut seen: Vec<bool> = Vec::with_capacity(256);
        let mut count: u16 = 0;
        let ghost mut numbers: Set<u8> = Set::empty();
        while seen.len() < 256
            invariant
                seen@.len() <= 256,
                forall|k: int| 0 <= k < seen@.len() ==> !(#[trigger] seen@[k]),
            decreases 256 - seen@.len(),
        {
            seen.push(false);
        }
        let mut i: usize = 0;
        while i < radials.len()
            invariant
                i <= radials@.len(),
                seen@.len() == 256,
                numbers.finite(),
                count == numbers.len(),
                forall|x: u8| numbers.contains(x) <==> #[trigger] seen@[x as int],
                forall|x: u8|
                    numbers.contains(x) <==> exists|j: int|
                        0 <= j < i && (#[trigger] radials@[j]).elevation_number == x,
            decreases radials@.len() - i,
        {
            let number: u8 = radials[i].elevation_number;
            if !seen[number as usize] {
                proof {
                    lemma_byte_set_len(numbers);
                    if numbers.len() == 256 {
                        lemma_full_byte_set(numbers, number);
                    }
                }
                seen[number as usize] = true;
                count = count + 1;
                proof {
                    numbers = numbers.insert(number);
                }
            }
            assert(radials@[i as int].elevation_number == number);
            i += 1;
        }
        proof {
            let mapped = models.map_values(|r: RadialModel| r.elevation_number);
            assert forall|x: u8| numbers.contains(x) <==> elevation_numbers(models).contains(x) by {
                if numbers.contains(x) {
                    let j = choose|j: int|
                        0 <= j < radials@.len() && (#[trigger] radials@[j]).elevation_number == x;
                    assert(mapped[j] == x);
                }
                if elevation_numbers(models).contains(x) {
                    let j = choose|j: int| 0 <= j < mapped.len() && mapped[j] == x;
                    assert(radials@[j].elevation_number == x);
                }
            }
            assert(numbers =~= elevation_numbers(models));
        }
        Self {
            message_size_halfwords: 0,
            pattern_type: 0,
            pattern_number: 0,
            number_of_elevation_cuts: count,
            vcp_version: 0,
            clutter_map_group_number: 0,
            doppler_velocity_resolution: 0,
            pulse_width: 0,
            vcp_sequencing: 0,
            vcp_supplemental: 0,
            elevation_cuts: Vec::new(),
        }
    }
}

/// The bytes as integers.
spec fn as_ints(s: Set<u8>) -> Set<int> {
    s.map(|x: u8| x as int)
}

proof fn lemma_byte_set_len(s: Set<u8>)
    requires
        s.finite(),
    ensures
        s.len() <= 256,
{
    let range = vstd::set_lib::set_int_range(0, 256);
    vstd::set_lib::lemma_int_range(0, 256);
    let f = |x: u8| x as int;
    assert(vstd::relations::injective(f));
    vstd::set_lib::lemma_map_size(s, as_ints(s), f);
    assert(as_ints(s).subset_of(range));
    vstd::set_lib::lemma_len_subset(as_ints(s), range);
}

proof fn lemma_full_byte_set(s: Set<u8>, x: u8)
    requires
        s.finite(),
        s.len() == 256,
    ensures
        s.contains(x),
{
    if !s.contains(x) {
        lemma_byte_set_len(s.insert(x));
    }
}

/// The number of a pattern is `n`.
pub open spec fn is_whole(bits: u32, n: int) -> bool {
    finite(bits) && scaled(bits) == n * pow2(149)
}

proof fn lemma_legacy_offsets()
    ensures
        is_whole(LEGACY_REFLECTIVITY_OFFSET, 66),
        is_whole(LEGACY_DOPPLER_OFFSET, 129),
{
    lemma2_to64();
    lemma_pow2_adds(17, 132);
    lemma_pow2_adds(16, 133);
    assert(exponent_field(LEGACY_REFLECTIVITY_OFFSET) == 133);
    assert(fraction_field(LEGACY_REFLECTIVITY_OFFSET) == 0x04_0000);
    assert(exponent_field(LEGACY_DOPPLER_OFFSET) == 134);
    assert(fraction_field(LEGACY_DOPPLER_OFFSET) == 0x01_0000);
    let (a, b) = (pow2(132) as int, pow2(133) as int);
    assert(0x84_0000 * a == 66 * (0x2_0000 * a));
    assert(0x81_0000 * b == 129 * (0x1_0000 * b));
}

/// One raw step of a legacy radial's velocity is the resolution that its
/// message declares, 1 m/s for code 4 and 0.5 m/s for any other: the scale and
/// the resolution multiply to one.
pub proof fn legacy_velocity_steps_by_the_declared_resolution(m: Msg1)
    requires
        m.velocity_gates is Some,
    ensures
        ({
            let r = legacy_radial(legacy_fields(m), m.gates());
            &&& r.velocity is Some
            &&& scaled(r.velocity->0.descriptor.scale) * scaled(m.resolution_mps()) == pow2(149)
                * pow2(149)
        }),
        m.doppler_velocity_resolution == 4 ==> is_whole(m.resolution_mps(), 1),
        m.doppler_velocity_resolution != 4 ==> 2 * scaled(m.resolution_mps()) == pow2(149),
{
    named_patterns_are_their_numbers();
    let (u, h) = (pow2(149) as int, scaled(HALF_BITS));
    assert((2 * u) * h == u * u) by (nonlinear_arith)
        requires
            2 * h == u,
    ;
    assert(1 * u == u);
}

/// Raw words of a legacy radial stand for `(raw - 66) / 2` dBZ, for `raw - 129`
/// m/s or half of that, by the resolution code in bytes 42 and 43, and for
/// `(raw - 129) / 2` m/s of spectrum width.
pub proof fn legacy_words_have_their_physical_scales(body: Seq<u8>)
    ensures
        ({
            let r = radial_at_msg1(body);
            &&& r.reflectivity matches Some(b) ==> is_whole(b.descriptor.offset, 66) && is_whole(
                b.descriptor.scale,
                2,
            )
            &&& r.velocity matches Some(b) ==> is_whole(b.descriptor.offset, 129) && is_whole(
                b.descriptor.scale,
                if be16s(body, 42) == 4 {
                    1
                } else {
                    2
                },
            )
            &&& r.spectrum_width matches Some(b) ==> is_whole(b.descriptor.offset, 129)
                && is_whole(b.descriptor.scale, 2)
        }),
{
    named_patterns_are_their_numbers();
    lemma_legacy_offsets();
    let u = pow2(149) as int;
    assert(1 * u == u);
}

/// The gates of a legacy moment: one byte each, `count` of them from `ptr` on,
/// the first at `first` metres and the others `interval` metres apart.
pub open spec fn is_legacy_moment(
    m: Option<MomentModel>,
    body: Seq<u8>,
    ptr: int,
    count: int,
    first: int,
    interval: int,
) -> bool {
    match m {
        Some(b) => {
            &&& ptr > 0 && count > 0
            &&& b.gates == body.subrange(ptr, ptr + count)
            &&& b.descriptor.gate_count == count
            &&& b.descriptor.data_word_size_bits == 8
            &&& b.descriptor.range_to_first_gate_m == (if first < 0 {
                -first
            } else {
                first
            })
            &&& b.descriptor.gate_interval_m == (if interval < 0 {
                0
            } else {
                interval
            })
        },
        None => ptr <= 0 || count <= 0,
    }
}

/// Reflectivity has the surveillance gates of a legacy message, velocity and
/// spectrum width have its Doppler gates; there are no other moments.
#[verifier::rlimit(50)]
pub proof fn legacy_moments_have_their_gates(body: Seq<u8>)
    requires
        msg1_outcome(body, 0) is Ok,
    ensures
        ({
            let r = radial_at_msg1(body);
            let field = |at: int| be16s(body, at) as int;
            &&& is_legacy_moment(
                r.reflectivity,
                body,
                field(36),
                field(26),
                field(18),
                field(22),
            )
            &&& is_legacy_moment(r.velocity, body, field(38), field(28), field(20), field(24))
            &&& is_legacy_moment(
                r.spectrum_width,
                body,
                field(40),
                field(28),
                field(20),
                field(24),
            )
            &&& r.differential_reflectivity is None
            &&& r.differential_phase is None
            &&& r.correlation_coefficient is None
            &&& r.clutter_filter_power is None
        }),
{
}

/// A legacy angle of `raw` is `raw * 360 / 65536` degrees, azimuth in bytes 8
/// and 9 and elevation in bytes 14 and 15.
pub proof fn legacy_angles_are_binary_fractions_of_a_turn(body: Seq<u8>)
    ensures
        ({
            let r = radial_at_msg1(body);
            let (az, el) = (be16s(body, 8), be16s(body, 14));
            &&& finite(r.azimuth_angle_degrees)
            &&& scaled(r.azimuth_angle_degrees) * 65536 == az * 360 * pow2(149)
            &&& finite(r.elevation_angle_degrees)
            &&& scaled(r.elevation_angle_degrees) * 65536 == el * 360 * pow2(149)
        }),
{
    let (az, el) = (be16s(body, 8) as int, be16s(body, 14) as int);
    small_multiples_of_8192ths_are_singles(az * 45);
    small_multiples_of_8192ths_are_singles(el * 45);
    lemma2_to64();
    lemma_pow2_adds(13, 136);
    let (u, v) = (pow2(136) as int, pow2(149) as int);
    assert((az * 45 * u) * 65536 == az * 360 * v) by (nonlinear_arith)
        requires
            v == 8192 * u,
    ;
    assert((el * 45 * u) * 65536 == el * 360 * v) by (nonlinear_arith)
        requires
            v == 8192 * u,
    ;
}

/// The other fields of a legacy radial: its numbers and status, zero where they
/// do not fit, and the milliseconds from 1970 to its collection.
pub proof fn legacy_fields_are_carried_over(body: Seq<u8>)
    ensures
        ({
            let r = radial_at_msg1(body);
            &&& be16s(body, 10) >= 0 ==> r.azimuth_number == be16s(body, 10)
            &&& be16s(body, 10) < 0 ==> r.azimuth_number == 0
            &&& r.radial_status == (if 0 <= be16s(body, 12) <= 255 {
                be16s(body, 12) as int
            } else {
                0
            })
            &&& r.elevation_number == (if 0 <= be16s(body, 16) <= 255 {
                be16s(body, 16) as int
            } else {
                0
            })
            &&& r.collection_time is Some
            &&& be32s(body, 0) >= 0 ==> r.collection_time->0.millis_since_epoch() == (be16s(
                body,
                4,
            ) - 1) * 86_400_000 + be32s(body, 0)
        }),
{
    if be32s(body, 0) >= 0 {
        day_instant_counts_milliseconds(be16s(body, 4) as int, be32s(body, 0) as int);
    }
}

/// A generic-format radial has the angles, numbers and status that its header
/// holds, and was collected as many milliseconds behind 1970 as its day and
/// time say.
pub proof fn generic_radials_carry_their_headers(body: Seq<u8>, h: DataHeader)
    requires
        h.is_at(body, 0),
    ensures
        ({
            let r = radial_at_msg31(body);
            &&& r.azimuth_number == h.azimuth_number
            &&& r.azimuth_angle_degrees == h.azimuth_angle_degrees
            &&& r.elevation_number == h.elevation_number
            &&& r.elevation_angle_degrees == h.elevation_angle_degrees
            &&& r.radial_status == h.radial_status
            &&& r.collection_time is Some
            &&& r.collection_time->0.millis_since_epoch() == (h.modified_julian_date - 1)
                * 86_400_000 + h.collection_time_ms
        }),
{
    day_instant_counts_milliseconds(
        h.modified_julian_date as int,
        h.collection_time_ms as int,
    );
}

/// Sweeps are cut by status codes and elevation numbers. Within a sweep every
/// radial has the sweep's elevation number, none behind the first has status 0,
/// 3 or 5, and none between the first and the last has status 2 or 4. A sweep
/// that follows begins with status 0, 3 or 5, or has another elevation number,
/// or follows a sweep of several radials whose last has status 2 or 4.
pub proof fn sweeps_are_cut_by_status_and_elevation(radials: Seq<RadialModel>, k: int, i: int)
    requires
        0 <= k < group_sweeps(radials).len(),
        0 <= i < group_sweeps(radials)[k].radials.len(),
    ensures
        ({
            let sweeps = group_sweeps(radials);
            let s = sweeps[k];
            let status = s.radials[i].radial_status;
            let last = s.radials.last().radial_status;
            &&& s.radials[i].elevation_number == s.elevation_number
            &&& i > 0 ==> status != 0 && status != 3 && status != 5
            &&& 0 < i < s.radials.len() - 1 ==> status != 2 && status != 4
            &&& k + 1 < sweeps.len() ==> {
                let first = sweeps[k + 1].radials[0];
                ||| first.radial_status == 0 || first.radial_status == 3 || first.radial_status
                    == 5
                ||| first.elevation_number != s.elevation_number
                ||| s.radials.len() > 1 && (last == 2 || last == 4)
            }
        }),
{
    grouping_follows_the_markers(radials);
    let sweeps = group_sweeps(radials);
    assert(is_one_sweep(sweeps[k]));
    if k + 1 < sweeps.len() {
        assert(is_one_sweep(sweeps[k + 1]));
        assert(sweeps[k + 1].radials[0].elevation_number == sweeps[k + 1].elevation_number);
        assert(is_boundary(sweeps[k], sweeps[k + 1]));
    }
}

/// A moment of a generic-format radial is a block of the body whose name spells
/// `name`, or whose name is none of the known ones and whose slot is set. From
/// the name on come 4 bytes, how many gates there are, how far off the first one
/// lies and the others from each other, 5 bytes, the word size, the scale and the
/// offset, and then the gates.
pub open spec fn is_generic_moment(
    m: Option<MomentModel>,
    body: Seq<u8>,
    name: Seq<char>,
    slot: int,
) -> bool {
    m matches Some(b) ==> exists|p: int|
        {
            &&& #[trigger] is_block_of_kind(body, pointers_at(body, 0), slot, p)
            &&& block_text(slot) == name
            &&& b.descriptor.gate_count == be16(body, p + 4)
            &&& b.descriptor.range_to_first_gate_m == be16(body, p + 6)
            &&& b.descriptor.gate_interval_m == be16(body, p + 8)
            &&& b.descriptor.data_word_size_bits == body[p + 15]
            &&& b.descriptor.scale == be32(body, p + 16)
            &&& b.descriptor.offset == be32(body, p + 20)
            &&& b.gates == body.subrange(
                p + 24,
                p + 24 + be16(body, p + 4) * (body[p + 15] as int / 8),
            )
        }
}

#[verifier::rlimit(50)]
proof fn lemma_generic_moment(body: Seq<u8>, slot: int)
    requires
        msg31_outcome(body, 0, 0) is Ok,
        0 <= slot < 10,
    ensures
        is_generic_moment(
            moment_at(body, msg31_outcome(body, 0, 0)->Ok_0.0, slot),
            body,
            block_text(slot),
            slot,
        ),
{
    let found = msg31_outcome(body, 0, 0)->Ok_0.0;
    if found.contains_key(slot) {
        blocks_are_told_by_name(body, 0, 0, slot);
        assert(is_block_of_kind(body, pointers_at(body, 0), slot, found[slot]));
    }
}

/// Each moment of a generic-format radial comes from the block with its name:
/// reflectivity from `REF`, velocity from `VEL`, spectrum width from `SW`,
/// differential reflectivity and phase from `ZDR` and `PHI`, the correlation
/// coefficient from `RHO` and the clutter filter power from `CFP`.
#[verifier::rlimit(50)]
pub proof fn generic_moments_come_from_the_blocks_of_their_names(body: Seq<u8>)
    requires
        msg31_outcome(body, 0, 0) is Ok,
    ensures
        ({
            let r = radial_at_msg31(body);
            &&& is_generic_moment(r.reflectivity, body, "REF"@, 3)
            &&& is_generic_moment(r.velocity, body, "VEL"@, 4)
            &&& is_generic_moment(r.spectrum_width, body, "SW "@, 5)
            &&& is_generic_moment(r.differential_reflectivity, body, "ZDR"@, 6)
            &&& is_generic_moment(r.differential_phase, body, "PHI"@, 7)
            &&& is_generic_moment(r.correlation_coefficient, body, "RHO"@, 8)
            &&& is_generic_moment(r.clutter_filter_power, body, "CFP"@, 9)
        }),
{
    reveal_strlit("REF");
    reveal_strlit("VEL");
    reveal_strlit("SW");
    reveal_strlit("SW ");
    reveal_strlit("ZDR");
    reveal_strlit("PHI");
    reveal_strlit("RHO");
    reveal_strlit("CFP");
    assert(block_text(5) =~= "SW "@);
    lemma_generic_moment(body, 3);
    lemma_generic_moment(body, 4);
    lemma_generic_moment(body, 5);
    lemma_generic_moment(body, 6);
    lemma_generic_moment(body, 7);
    lemma_generic_moment(body, 8);
    lemma_generic_moment(body, 9);
}

/// The median of angles is the middle one of their ascending arrangement, or
/// the mean of the two middle ones where their number is even.
pub proof fn medians_stand_in_the_middle(m: Option<MedianAngle>, angles: Seq<u32>)
    requires
        is_median(m, angles),
    ensures
        m is None <==> angles.len() == 0,
        m is Some ==> exists|sorted: Seq<u32>|
            {
                let n = angles.len() as int;
                &&& #[trigger] is_ascending_arrangement(sorted, angles)
                &&& match m->0 {
                    MedianAngle::Middle(a) => exists|k: int|
                        n == 2 * k + 1 && a == #[trigger] sorted[k],
                    MedianAngle::MeanOf(a, b) => exists|k: int|
                        n == 2 * k + 2 && a == #[trigger] sorted[k] && b == sorted[k + 1],
                }
            },
{
    if m is Some {
        let order = choose|order: Seq<usize>|
            #[trigger] is_stable_order(order, angle_keys(angles)) && m == Some(
                median_by(angles, order),
            );
        key_order_arranges_by_number(angles, order);
        let sorted = Seq::new(order.len(), |k: int| angles[order[k] as int]);
        let mid = angles.len() as int / 2;
        match m->0 {
            MedianAngle::Middle(a) => {
                assert(a == sorted[mid]);
            },
            MedianAngle::MeanOf(a, b) => {
                assert(a == sorted[mid - 1] && b == sorted[mid - 1 + 1]);
            },
        }
        assert(is_ascending_arrangement(sorted, angles));
    }
}

/// A pattern that stands in for a missing one counts the elevation numbers that
/// occur, each once: none that occurs is left out and none else is counted. It
/// has no number, no cuts and no flags.
pub proof fn stand_in_patterns_count_the_elevations(vcp: Msg5, radials: Seq<RadialModel>)
    requires
        is_synthetic_vcp(vcp, radials),
    ensures
        exists|numbers: Set<u8>|
            {
                &&& numbers.finite() && numbers.len() == vcp.number_of_elevation_cuts
                &&& forall|n: u8| #[trigger]
                    numbers.contains(n) <==> exists|i: int|
                        0 <= i < radials.len() && (#[trigger] radials[i]).elevation_number == n
            },
        vcp.elevation_cuts@.len() == 0,
        vcp.pattern_number == 0,
        vcp.vcp_supplemental == 0 && vcp.vcp_sequencing == 0,
        vcp.doppler_velocity_resolution == 0 && vcp.pulse_width == 0,
{
    let list = radials.map_values(|r: RadialModel| r.elevation_number);
    let numbers = elevation_numbers(radials);
    vstd::seq_lib::seq_to_set_is_finite(list);
    assert forall|n: u8| #[trigger] numbers.contains(n) <==> exists|i: int|
        0 <= i < radials.len() && (#[trigger] radials[i]).elevation_number == n by {
        if numbers.contains(n) {
            let i = choose|i: int| 0 <= i < list.len() && list[i] == n;
            assert(radials[i].elevation_number == n);
        }
        if exists|i: int| 0 <= i < radials.len() && (#[trigger] radials[i]).elevation_number == n {
            let i = choose|i: int|
                0 <= i < radials.len() && (#[trigger] radials[i]).elevation_number == n;
            assert(list[i] == n);
        }
    }
}

} // verus!
