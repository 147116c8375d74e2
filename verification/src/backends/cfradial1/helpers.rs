//! What CfRadial1 attributes and texts mean.

use crate::text::{
    all_digits, decimal, decimal_denotes_its_number, decimal_has_digits_only, decimal_text,
    digits_value, lossy_text, lowercase_text, lowercased, same_text, utf8_lossy,
};
use crate::types::{PlatformType, SweepMode};
use vstd::prelude::*;

verus! {

/// Value of a NetCDF attribute, as far as this backend reads it. Numbers are
/// bit patterns of IEEE-754 singles.
#[derive(Debug, Clone, PartialEq, Eq)]
pub enum AttrValue {
    Str(String),
    Uchar(u8),
    Uchars(Vec<u8>),
    Float(u32),
    /// A value of any other type.
    Other,
}

/// The text of an attribute: a string, or bytes taken for one.
pub open spec fn text_of(v: Option<AttrValue>) -> Option<Seq<char>> {
    match v {
        Some(AttrValue::Str(s)) => Some(s@),
        Some(AttrValue::Uchar(u)) => Some(decimal(u as nat)),
        Some(AttrValue::Uchars(u)) => Some(utf8_lossy(u@)),
        _ => None,
    }
}

/// The contents of an optional text.
pub open spec fn opt_text(s: Option<String>) -> Option<Seq<char>> {
    match s {
        Some(s) => Some(s@),
        None => None,
    }
}

/// The text of an attribute: a string, or bytes taken for one.
pub fn read_string_attr(v: Option<AttrValue>) -> (s: Option<String>)
    ensures
        opt_text(s) == text_of(v),
{
    match v {
        Some(AttrValue::Str(s)) => Some(s),
        Some(AttrValue::Uchar(u)) => Some(decimal_text(u as u64)),
        Some(AttrValue::Uchars(u)) => Some(lossy_text(u.as_slice())),
        _ => None,
    }
}

/// The text of an attribute that must be a string.
pub open spec fn plain_text_of(v: Option<AttrValue>) -> Option<Seq<char>> {
    match v {
        Some(AttrValue::Str(s)) => Some(s@),
        _ => None,
    }
}

/// The text of an attribute that must be a string.
pub fn read_plain_string_attr(v: Option<AttrValue>) -> (s: Option<String>)
    ensures
        opt_text(s) == plain_text_of(v),
{
    match v {
        Some(AttrValue::Str(s)) => Some(s),
        _ => None,
    }
}

/// The number of an attribute that must be a single.
pub open spec fn single_of(v: Option<AttrValue>) -> Option<u32> {
    match v {
        Some(AttrValue::Float(bits)) => Some(bits),
        _ => None,
    }
}

/// The number of an attribute that must be a single.
pub fn read_float_attr(v: Option<AttrValue>) -> (bits: Option<u32>)
    ensures
        bits == single_of(v),
{
    match v {
        Some(AttrValue::Float(bits)) => Some(bits),
        _ => None,
    }
}

/// A text, or `"unknown"` where there is none.
pub open spec fn or_unknown(s: Option<Seq<char>>) -> Seq<char> {
    match s {
        Some(s) => s,
        None => "unknown"@,
    }
}

/// A text, or `"unknown"` where there is none.
pub fn text_or_unknown(s: Option<String>) -> (r: String)
    ensures
        r@ == or_unknown(opt_text(s)),
{
    match s {
        Some(s) => s,
        None => "unknown".to_owned(),
    }
}

/// The mode of a lower-case `sweep_mode`; azimuth surveillance if it is not
/// known.
pub open spec fn sweep_mode_of(lower: Seq<char>) -> SweepMode {
    if lower == "azimuth_surveillance"@ || lower == "ppi"@ || lower == "sur"@ {
        SweepMode::Azimuth
    } else if lower == "elevation_surveillance"@ || lower == "rhi"@ {
        SweepMode::Elevation
    } else if lower == "sector"@ || lower == "sec"@ {
        SweepMode::Sector
    } else if lower == "pointing"@ || lower == "pnt"@ {
        SweepMode::Pointing
    } else if lower == "vertical_pointing"@ || lower == "vert"@ {
        SweepMode::VerticalPointing
    } else if lower == "calibration"@ || lower == "cal"@ {
        SweepMode::Calibration
    } else {
        SweepMode::Azimuth
    }
}

/// See [`sweep_mode_of`].
pub fn sweep_mode_from_lower(lower: &str) -> (m: SweepMode)
    ensures
        m == sweep_mode_of(lower@),
{
    if same_text(lower, "azimuth_surveillance") || same_text(lower, "ppi") || same_text(
        lower,
        "sur",
    ) {
        SweepMode::Azimuth
    } else if same_text(lower, "elevation_surveillance") || same_text(lower, "rhi") {
        SweepMode::Elevation
    } else if same_text(lower, "sector") || same_text(lower, "sec") {
        SweepMode::Sector
    } else if same_text(lower, "pointing") || same_text(lower, "pnt") {
        SweepMode::Pointing
    } else if same_text(lower, "vertical_pointing") || same_text(lower, "vert") {
        SweepMode::VerticalPointing
    } else if same_text(lower, "calibration") || same_text(lower, "cal") {
        SweepMode::Calibration
    } else {
        SweepMode::Azimuth
    }
}

/// The mode of a CfRadial `sweep_mode`, in any case.
pub fn parse_sweep_mode(mode_str: &str) -> (m: SweepMode)
    ensures
        m == sweep_mode_of(lowercased(mode_str@)),
{
    sweep_mode_from_lower(lowercase_text(mode_str).as_str())
}

/// The platform of a lower-case `platform_type`, if it is known.
pub open spec fn platform_of(lower: Seq<char>) -> Option<PlatformType> {
    if lower == "fixed"@ {
        Some(PlatformType::Fixed)
    } else if lower == "vehicle"@ {
        Some(PlatformType::Vehicle)
    } else if lower == "ship"@ {
        Some(PlatformType::Ship)
    } else if lower == "aircraft"@ {
        Some(PlatformType::Aircraft)
    } else if lower == "satellite"@ {
        Some(PlatformType::Satellite)
    } else {
        None
    }
}

/// See [`platform_of`].
pub fn platform_from_lower(lower: &str) -> (p: Option<PlatformType>)
    ensures
        p == platform_of(lower@),
{
    if same_text(lower, "fixed") {
        Some(PlatformType::Fixed)
    } else if same_text(lower, "vehicle") {
        Some(PlatformType::Vehicle)
    } else if same_text(lower, "ship") {
        Some(PlatformType::Ship)
    } else if same_text(lower, "aircraft") {
        Some(PlatformType::Aircraft)
    } else if same_text(lower, "satellite") {
        Some(PlatformType::Satellite)
    } else {
        None
    }
}

/// The platform of a CfRadial `platform_type`, in any case.
pub fn parse_platform_type(type_str: &str) -> (p: Option<PlatformType>)
    ensures
        p == platform_of(lowercased(type_str@)),
{
    platform_from_lower(lowercase_text(type_str).as_str())
}

/// Modes go by their CfRadial names and their short ones; a name that is not
/// known stands for azimuth surveillance.
pub proof fn sweep_modes_go_by_their_names(lower: Seq<char>)
    ensures
        ({
            let m = sweep_mode_of(lower);
            &&& m == SweepMode::Elevation <==> lower == "elevation_surveillance"@ || lower
                == "rhi"@
            &&& m == SweepMode::Sector <==> lower == "sector"@ || lower == "sec"@
            &&& m == SweepMode::Pointing <==> lower == "pointing"@ || lower == "pnt"@
            &&& m == SweepMode::VerticalPointing <==> lower == "vertical_pointing"@ || lower
                == "vert"@
            &&& m == SweepMode::Calibration <==> lower == "calibration"@ || lower == "cal"@
        }),
{
    reveal_strlit("azimuth_surveillance");
    reveal_strlit("ppi");
    reveal_strlit("sur");
    reveal_strlit("elevation_surveillance");
    reveal_strlit("rhi");
    reveal_strlit("sector");
    reveal_strlit("sec");
    reveal_strlit("pointing");
    reveal_strlit("pnt");
    reveal_strlit("vertical_pointing");
    reveal_strlit("vert");
    reveal_strlit("calibration");
    reveal_strlit("cal");
    assert("azimuth_surveillance"@.len() == 20);
    assert("ppi"@.len() == 3 && "ppi"@[1] == 'p');
    assert("sur"@.len() == 3 && "sur"@[1] == 'u');
    assert("elevation_surveillance"@.len() == 22);
    assert("rhi"@.len() == 3 && "rhi"@[1] == 'h');
    assert("sector"@.len() == 6);
    assert("sec"@.len() == 3 && "sec"@[1] == 'e');
    assert("pointing"@.len() == 8);
    assert("pnt"@.len() == 3 && "pnt"@[1] == 'n');
    assert("vertical_pointing"@.len() == 17);
    assert("vert"@.len() == 4);
    assert("calibration"@.len() == 11);
    assert("cal"@.len() == 3 && "cal"@[1] == 'a');
}

/// Platforms go by their names; no other name stands for one.
pub proof fn platforms_go_by_their_names(lower: Seq<char>)
    ensures
        platform_of(lower) == Some(PlatformType::Fixed) <==> lower == "fixed"@,
        platform_of(lower) == Some(PlatformType::Vehicle) <==> lower == "vehicle"@,
        platform_of(lower) == Some(PlatformType::Ship) <==> lower == "ship"@,
        platform_of(lower) == Some(PlatformType::Aircraft) <==> lower == "aircraft"@,
        platform_of(lower) == Some(PlatformType::Satellite) <==> lower == "satellite"@,
{
    reveal_strlit("fixed");
    reveal_strlit("vehicle");
    reveal_strlit("ship");
    reveal_strlit("aircraft");
    reveal_strlit("satellite");
    assert("fixed"@.len() == 5);
    assert("vehicle"@.len() == 7);
    assert("ship"@.len() == 4);
    assert("aircraft"@.len() == 8);
    assert("satellite"@.len() == 9);
}

/// An attribute that is a string is its own text, a byte is its number, and
/// what is not there, or a number, has no text. Only a single is read as a
/// number.
pub proof fn attributes_are_read_by_their_type(v: Option<AttrValue>)
    ensures
        match v {
            Some(AttrValue::Str(s)) => {
                &&& text_of(v) == Some(s@) && plain_text_of(v) == Some(s@)
                &&& single_of(v) is None
            },
            Some(AttrValue::Uchar(u)) => {
                &&& text_of(v) matches Some(t) && all_digits(t) && digits_value(t) == u
                &&& plain_text_of(v) is None && single_of(v) is None
            },
            Some(AttrValue::Uchars(u)) => {
                &&& text_of(v) == Some(utf8_lossy(u@))
                &&& plain_text_of(v) is None && single_of(v) is None
            },
            Some(AttrValue::Float(bits)) => {
                &&& single_of(v) == Some(bits)
                &&& text_of(v) is None && plain_text_of(v) is None
            },
            _ => text_of(v) is None && plain_text_of(v) is None && single_of(v) is None,
        },
{
    if let Some(AttrValue::Uchar(u)) = v {
        decimal_has_digits_only(u as nat);
        decimal_denotes_its_number(u as nat);
    }
}

} // verus!
