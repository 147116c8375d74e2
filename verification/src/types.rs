//! The common data model that every backend normalises to.
//!
//! Quantities that are floating-point numbers in the source are kept as what
//! was transmitted; see [`Quantity`].

use crate::backends::common::buffer::CellArray;
use crate::backends::common::coords::Coordinates;
use crate::text::{
    all_digits, decimal, decimal_denotes_its_number, decimal_has_digits_only, digits_value,
    push_decimal,
};
use crate::time::Timestamp;
use vstd::prelude::*;

verus! {

/// A number as it was transmitted or derived, without rounding.
#[derive(Debug, Clone, Copy, PartialEq, Eq, Structural)]
pub enum Quantity {
    /// No value: NaN.
    Missing,
    /// A whole number.
    Whole(i64),
    /// Bit pattern of an IEEE-754 single.
    Single(u32),
    /// Bit pattern of an IEEE-754 double.
    Double(u64),
    /// Mean of two IEEE-754 singles, given by their bit patterns.
    MeanOfSingles(u32, u32),
    /// A multiple of 1/8192.
    Of8192ths(u32),
}

/// How a sweep moves.
#[derive(Debug, Clone, Copy, PartialEq, Eq, Structural)]
pub enum SweepMode {
    Azimuth,
    Elevation,
    Sector,
    Pointing,
    VerticalPointing,
    Calibration,
}

/// What a radar is mounted on.
#[derive(Debug, Clone, Copy, PartialEq, Eq, Structural)]
pub enum PlatformType {
    Fixed,
    Vehicle,
    Ship,
    Aircraft,
    Satellite,
}

/// Per-sweep NEXRAD attributes. The default, with empty labels, stands for a
/// sweep of which nothing is known.
#[derive(Debug, Clone, PartialEq, Eq)]
pub struct NexradSweepAttrs {
    pub waveform_type: String,
    pub channel_config: String,
    pub super_resolution: u8,
    pub sails_cut: bool,
    pub sails_sequence_number: u8,
    pub mrle_cut: bool,
    pub mrle_sequence_number: u8,
    pub mpda_cut: bool,
    pub base_tilt_cut: bool,
}

/// Volume-level NEXRAD attributes.
#[derive(Debug, Clone, PartialEq, Eq)]
pub struct NexradVolumeAttrs {
    pub dynamic_scan_type: String,
    pub mpda_vcp: bool,
    pub base_tilt_vcp: bool,
    pub num_base_tilts: u8,
    pub vcp_truncated: bool,
    pub vcp_sequence_active: bool,
    pub number_elevation_cuts: u32,
    /// In m/s, as the bit pattern of an IEEE-754 single.
    pub doppler_velocity_resolution: u32,
    pub vcp_pulse_width: String,
    pub avset_enabled: bool,
    pub ebc_enabled: bool,
    pub super_res_status: u16,
    pub rda_build_number: u16,
    pub operational_mode: u16,
    pub actual_elevation_cuts: u32,
    /// One entry per sweep; default entries where the pattern has no cut.
    pub sweep_attrs: Vec<NexradSweepAttrs>,
    /// One entry per sweep: first and last collection time, if any is known.
    pub sweep_time_ranges: Vec<Option<(Timestamp, Timestamp)>>,
}

/// Contents of [`NexradSweepAttrs`].
pub ghost struct SweepAttrsModel {
    pub waveform_type: Seq<char>,
    pub channel_config: Seq<char>,
    pub super_resolution: u8,
    pub sails_cut: bool,
    pub sails_sequence_number: u8,
    pub mrle_cut: bool,
    pub mrle_sequence_number: u8,
    pub mpda_cut: bool,
    pub base_tilt_cut: bool,
}

/// Contents of the default [`NexradSweepAttrs`].
pub open spec fn unknown_sweep_attrs() -> SweepAttrsModel {
    SweepAttrsModel {
        waveform_type: Seq::empty(),
        channel_config: Seq::empty(),
        super_resolution: 0,
        sails_cut: false,
        sails_sequence_number: 0,
        mrle_cut: false,
        mrle_sequence_number: 0,
        mpda_cut: false,
        base_tilt_cut: false,
    }
}

impl NexradSweepAttrs {
    /// The attributes with the contents of their labels.
    pub open spec fn model(&self) -> SweepAttrsModel {
        SweepAttrsModel {
            waveform_type: self.waveform_type@,
            channel_config: self.channel_config@,
            super_resolution: self.super_resolution,
            sails_cut: self.sails_cut,
            sails_sequence_number: self.sails_sequence_number,
            mrle_cut: self.mrle_cut,
            mrle_sequence_number: self.mrle_sequence_number,
            mpda_cut: self.mpda_cut,
            base_tilt_cut: self.base_tilt_cut,
        }
    }
}

impl Default for NexradSweepAttrs {
    fn default() -> (a: Self)
        ensures
            a.model() == unknown_sweep_attrs(),
    {
        let a = NexradSweepAttrs {
            waveform_type: String::new(),
            channel_config: String::new(),
            super_resolution: 0,
            sails_cut: false,
            sails_sequence_number: 0,
            mrle_cut: false,
            mrle_sequence_number: 0,
            mpda_cut: false,
            base_tilt_cut: false,
        };
        assert(a.waveform_type@ =~= Seq::empty());
        assert(a.channel_config@ =~= Seq::empty());
        a
    }
}

/// Metadata of one sweep.
#[derive(Debug, Clone, PartialEq, Eq)]
pub struct SweepMetadata {
    pub sweep_number: u32,
    pub sweep_mode: SweepMode,
    /// Target elevation (or azimuth), in degrees.
    pub fixed_angle: Quantity,
    pub nexrad: Option<NexradSweepAttrs>,
}

/// Scale and offset of one row of raw words, as bit patterns of IEEE-754
/// singles: a word stands for `(raw - offset) / scale`.
#[derive(Debug, Clone, Copy, PartialEq, Eq, Structural)]
pub struct RowScaling {
    pub scale: u32,
    pub offset: u32,
}

/// One moment of a sweep.
#[derive(Debug, Clone, PartialEq, Eq)]
pub struct MomentData {
    pub name: String,
    pub units: String,
    pub standard_name: String,
    pub long_name: String,
    pub fill_value: Quantity,
    pub scale_factor: Quantity,
    pub add_offset: Quantity,
    /// Raw words of the measured cells.
    pub data: CellArray<u32>,
    /// Scaling of each row; `None` where the ray lacks the moment.
    pub scaling: Vec<Option<RowScaling>>,
}

/// One sweep.
#[derive(Debug, Clone, PartialEq, Eq)]
pub struct SweepData {
    pub metadata: SweepMetadata,
    pub moments: Vec<MomentData>,
    pub coordinates: Coordinates,
}

/// Metadata of a volume.
#[derive(Debug, Clone, PartialEq, Eq)]
pub struct VolumeMetadata {
    pub instrument_name: String,
    pub institution: String,
    pub platform_type: Option<PlatformType>,
    /// Degrees north.
    pub latitude: Quantity,
    /// Degrees east.
    pub longitude: Quantity,
    /// Metres above sea level.
    pub altitude: Quantity,
    /// Metres above ground.
    pub altitude_agl: Option<Quantity>,
    pub time_coverage_start: Timestamp,
    pub time_coverage_end: Timestamp,
    pub volume_number: u32,
    pub frequency: Option<Quantity>,
    pub sweep_group_names: Vec<String>,
    pub sweep_fixed_angles: Vec<Quantity>,
    pub attributes: Vec<(String, String)>,
    pub nexrad: Option<NexradVolumeAttrs>,
}

/// A volume.
#[derive(Debug, Clone, PartialEq, Eq)]
pub struct VolumeData {
    pub metadata: VolumeMetadata,
    pub sweeps: Vec<SweepData>,
}

impl VolumeData {
    /// Number of sweeps.
    pub fn num_sweeps(&self) -> (n: usize)
        ensures
            n == self.sweeps@.len(),
    {
        self.sweeps.len()
    }
}

/// Name of the group of sweep `i`.
pub open spec fn sweep_group_name(i: nat) -> Seq<char> {
    "sweep_"@ + decimal(i)
}

/// The names `sweep_0`, `sweep_1` and so on.
pub open spec fn are_group_names(names: Seq<String>, n: int) -> bool {
    &&& names.len() == n
    &&& forall|i: int| 0 <= i < n ==> (#[trigger] names[i])@ == sweep_group_name(i as nat)
}

/// The names of `n` sweep groups.
pub fn generate_sweep_names(n: usize) -> (names: Vec<String>)
    ensures
        are_group_names(names@, n as int),
{
    let mut names: Vec<String> = Vec::with_capacity(n);
    let mut i: usize = 0;
    while i < n
        invariant
            i <= n,
            are_group_names(names@, i as int),
        decreases n - i,
    {
        let mut name = "sweep_".to_owned();
        push_decimal(&mut name, i as u64);
        names.push(name);
        i += 1;
    }
    names
}

/// Sweep groups are numbered from zero in decimal, behind `sweep_`.
pub proof fn group_names_are_numbered_from_zero(names: Seq<String>, n: int, i: int)
    requires
        are_group_names(names, n),
        0 <= i < n,
    ensures
        names.len() == n,
        names[i]@.take(6) == "sweep_"@,
        all_digits(names[i]@.skip(6)),
        digits_value(names[i]@.skip(6)) == i,
{
    reveal_strlit("sweep_");
    let number = decimal(i as nat);
    assert(names[i]@ == "sweep_"@ + number);
    assert(names[i]@.take(6) =~= "sweep_"@);
    assert(names[i]@.skip(6) =~= number);
    decimal_has_digits_only(i as nat);
    decimal_denotes_its_number(i as nat);
}

} // verus!
