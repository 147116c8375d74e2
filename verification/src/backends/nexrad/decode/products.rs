//! The moments of a NEXRAD sweep, and how to find them in a radial.

use crate::backends::nexrad::decode::messages::msg31::cfp::{cfp_value, CfpValue};
use crate::backends::nexrad::decode::model::{
    MomentModel, OwnedCfp, OwnedMoment, Radial, RadialModel,
};
use vstd::prelude::*;

verus! {

/// Geometry of a moment block.
pub trait DataMoment {
    /// Range to the centre of the first gate, in metres.
    spec fn first_gate(&self) -> u16;

    /// Gate spacing, in metres.
    spec fn interval(&self) -> u16;

    /// Number of gates.
    spec fn gates(&self) -> u16;

    /// Range to the centre of the first gate, in metres.
    fn first_gate_range_m(&self) -> (m: u16)
        ensures
            m == self.first_gate(),
    ;

    /// Gate spacing, in metres.
    fn gate_interval_m(&self) -> (m: u16)
        ensures
            m == self.interval(),
    ;

    /// Number of gates.
    fn gate_count(&self) -> (n: u16)
        ensures
            n == self.gates(),
    ;
}

impl DataMoment for OwnedMoment {
    open spec fn first_gate(&self) -> u16 {
        self.descriptor.range_to_first_gate_m
    }

    open spec fn interval(&self) -> u16 {
        self.descriptor.gate_interval_m
    }

    open spec fn gates(&self) -> u16 {
        self.descriptor.gate_count
    }

    fn first_gate_range_m(&self) -> (m: u16) {
        self.descriptor.range_to_first_gate_m
    }

    fn gate_interval_m(&self) -> (m: u16) {
        self.descriptor.gate_interval_m
    }

    fn gate_count(&self) -> (n: u16) {
        self.descriptor.gate_count
    }
}

impl DataMoment for OwnedCfp {
    open spec fn first_gate(&self) -> u16 {
        self.descriptor.range_to_first_gate_m
    }

    open spec fn interval(&self) -> u16 {
        self.descriptor.gate_interval_m
    }

    open spec fn gates(&self) -> u16 {
        self.descriptor.gate_count
    }

    fn first_gate_range_m(&self) -> (m: u16) {
        self.descriptor.range_to_first_gate_m
    }

    fn gate_interval_m(&self) -> (m: u16) {
        self.descriptor.gate_interval_m
    }

    fn gate_count(&self) -> (n: u16) {
        self.descriptor.gate_count
    }
}

/// Status of a clutter filter gate.
#[derive(Debug, Clone, Copy, PartialEq, Eq, Structural)]
pub enum CfpStatus {
    FilterNotApplied,
    PointClutterFilterApplied,
    CensorPulsesApplied,
}

/// One clutter filter gate: a raw power level or a status.
#[derive(Debug, Clone, Copy, PartialEq, Eq, Structural)]
pub enum CfpMomentValue {
    Value(u32),
    Status(CfpStatus),
}

impl CfpMomentValue {
    /// A clutter filter value with its three states under one roof.
    pub open spec fn of(v: CfpValue) -> CfpMomentValue {
        match v {
            CfpValue::FilterNotApplied => CfpMomentValue::Status(CfpStatus::FilterNotApplied),
            CfpValue::PointClutterFilterApplied => CfpMomentValue::Status(
                CfpStatus::PointClutterFilterApplied,
            ),
            CfpValue::CensorPulsesApplied => CfpMomentValue::Status(
                CfpStatus::CensorPulsesApplied,
            ),
            CfpValue::PowerDb(raw) => CfpMomentValue::Value(raw),
        }
    }
}

impl vstd::std_specs::convert::FromSpecImpl<CfpValue> for CfpMomentValue {
    open spec fn obeys_from_spec() -> bool {
        true
    }

    open spec fn from_spec(v: CfpValue) -> Self {
        CfpMomentValue::of(v)
    }
}

impl From<CfpValue> for CfpMomentValue {
    fn from(v: CfpValue) -> (r: Self) {
        match v {
            CfpValue::FilterNotApplied => CfpMomentValue::Status(CfpStatus::FilterNotApplied),
            CfpValue::PointClutterFilterApplied => CfpMomentValue::Status(
                CfpStatus::PointClutterFilterApplied,
            ),
            CfpValue::CensorPulsesApplied => CfpMomentValue::Status(
                CfpStatus::CensorPulsesApplied,
            ),
            CfpValue::PowerDb(raw) => CfpMomentValue::Value(raw),
        }
    }
}

/// The seven moments of a sweep.
#[derive(Debug, Clone, Copy, PartialEq, Eq, Structural)]
pub enum Product {
    Reflectivity,
    Velocity,
    SpectrumWidth,
    DifferentialReflectivity,
    DifferentialPhase,
    CorrelationCoefficient,
    ClutterFilterPower,
}

impl Product {
    /// The block of the product in a radial, if it has one.
    pub open spec fn block(self, r: RadialModel) -> Option<MomentModel> {
        match self {
            Product::Reflectivity => r.reflectivity,
            Product::Velocity => r.velocity,
            Product::SpectrumWidth => r.spectrum_width,
            Product::DifferentialReflectivity => r.differential_reflectivity,
            Product::DifferentialPhase => r.differential_phase,
            Product::CorrelationCoefficient => r.correlation_coefficient,
            Product::ClutterFilterPower => r.clutter_filter_power,
        }
    }

    /// The radial's block of a measured moment; `None` for clutter filter
    /// power.
    pub fn moment_data<'a>(&self, r: &'a Radial) -> (m: Option<&'a OwnedMoment>)
        ensures
            match m {
                Some(m) => *self != Product::ClutterFilterPower && self.block(r.model()) == Some(
                    m.model(),
                ),
                None => *self == Product::ClutterFilterPower || self.block(r.model()) is None,
            },
    {
        match self {
            Product::Reflectivity => r.reflectivity.as_ref(),
            Product::Velocity => r.velocity.as_ref(),
            Product::SpectrumWidth => r.spectrum_width.as_ref(),
            Product::DifferentialReflectivity => r.differential_reflectivity.as_ref(),
            Product::DifferentialPhase => r.differential_phase.as_ref(),
            Product::CorrelationCoefficient => r.correlation_coefficient.as_ref(),
            Product::ClutterFilterPower => None,
        }
    }

    /// The radial's clutter filter power block; `None` for measured moments.
    pub fn cfp_moment_data<'a>(&self, r: &'a Radial) -> (m: Option<&'a OwnedCfp>)
        ensures
            match m {
                Some(m) => *self == Product::ClutterFilterPower && self.block(r.model()) == Some(
                    m.model(),
                ),
                None => *self != Product::ClutterFilterPower || self.block(r.model()) is None,
            },
    {
        match self {
            Product::ClutterFilterPower => r.clutter_filter_power.as_ref(),
            _ => None,
        }
    }
}

/// The states of a clutter filter keep their names, and its power levels their raw
/// words.
pub proof fn clutter_filter_states_keep_their_names(raw: int)
    requires
        0 <= raw <= 0xFFFF,
    ensures
        ({
            let v = CfpMomentValue::of(cfp_value(raw));
            &&& raw == 0 ==> v == CfpMomentValue::Status(CfpStatus::FilterNotApplied)
            &&& raw == 1 ==> v == CfpMomentValue::Status(CfpStatus::PointClutterFilterApplied)
            &&& raw == 2 ==> v == CfpMomentValue::Status(CfpStatus::CensorPulsesApplied)
            &&& raw >= 3 ==> (v matches CfpMomentValue::Value(x) && x == raw)
        }),
{
}

} // verus!
