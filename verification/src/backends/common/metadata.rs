//! CF metadata of the ODIM moments, one table for every backend.
//!
//! Backends differ in how they identify a moment; the target is the same short
//! name and the same attribute strings.

use crate::text::same_text;
use vstd::prelude::*;

verus! {

/// CF metadata of one moment.
#[derive(Debug, Clone, Copy)]
pub struct OdimMomentMeta {
    /// Short name, and the name of the resulting variable.
    pub odim_name: &'static str,
    /// `units` attribute.
    pub units: &'static str,
    /// `standard_name` attribute.
    pub standard_name: &'static str,
    /// `long_name` attribute.
    pub long_name: &'static str,
}

/// The metadata with these strings.
pub open spec fn meta(
    odim_name: &'static str,
    units: &'static str,
    standard_name: &'static str,
    long_name: &'static str,
) -> OdimMomentMeta {
    OdimMomentMeta { odim_name, units, standard_name, long_name }
}

/// All moments that backends emit.
pub open spec fn table() -> Seq<OdimMomentMeta> {
    seq![
        meta(
            "DBZH",
            "dBZ",
            "radar_equivalent_reflectivity_factor_h",
            "Equivalent reflectivity factor H",
        ),
        meta("DBTH", "dBZ", "radar_equivalent_reflectivity_factor_h", "Total power H"),
        meta(
            "VRADH",
            "meters per seconds",
            "radial_velocity_of_scatterers_away_from_instrument_h",
            "Radial velocity of scatterers away from instrument H",
        ),
        meta(
            "WRADH",
            "meters per seconds",
            "radar_doppler_spectrum_width_h",
            "Doppler spectrum width H",
        ),
        meta(
            "ZDR",
            "dB",
            "radar_differential_reflectivity_hv",
            "Log differential reflectivity H/V",
        ),
        meta("PHIDP", "degrees", "radar_differential_phase_hv", "Differential phase HV"),
        meta(
            "RHOHV",
            "unitless",
            "radar_correlation_coefficient_hv",
            "Correlation coefficient HV",
        ),
        meta("CCORH", "unitless", "clutter_correction_h", "Clutter Correction H"),
        meta(
            "KDP",
            "degrees per kilometer",
            "radar_specific_differential_phase_hv",
            "Specific differential phase HV",
        ),
        meta("SQIH", "unitless", "radar_signal_quality_index_h", "Signal Quality Index H"),
        meta("SNRH", "dB", "radar_signal_to_noise_ratio_h", "Signal to noise ratio H"),
    ]
}

fn entry(i: usize) -> (m: OdimMomentMeta)
    requires
        i < table().len(),
    ensures
        m == table()[i as int],
{
    match i {
        0 => OdimMomentMeta {
            odim_name: "DBZH",
            units: "dBZ",
            standard_name: "radar_equivalent_reflectivity_factor_h",
            long_name: "Equivalent reflectivity factor H",
        },
        1 => OdimMomentMeta {
            odim_name: "DBTH",
            units: "dBZ",
            standard_name: "radar_equivalent_reflectivity_factor_h",
            long_name: "Total power H",
        },
        2 => OdimMomentMeta {
            odim_name: "VRADH",
            units: "meters per seconds",
            standard_name: "radial_velocity_of_scatterers_away_from_instrument_h",
            long_name: "Radial velocity of scatterers away from instrument H",
        },
        3 => OdimMomentMeta {
            odim_name: "WRADH",
            units: "meters per seconds",
            standard_name: "radar_doppler_spectrum_width_h",
            long_name: "Doppler spectrum width H",
        },
        4 => OdimMomentMeta {
            odim_name: "ZDR",
            units: "dB",
            standard_name: "radar_differential_reflectivity_hv",
            long_name: "Log differential reflectivity H/V",
        },
        5 => OdimMomentMeta {
            odim_name: "PHIDP",
            units: "degrees",
            standard_name: "radar_differential_phase_hv",
            long_name: "Differential phase HV",
        },
        6 => OdimMomentMeta {
            odim_name: "RHOHV",
            units: "unitless",
            standard_name: "radar_correlation_coefficient_hv",
            long_name: "Correlation coefficient HV",
        },
        7 => OdimMomentMeta {
            odim_name: "CCORH",
            units: "unitless",
            standard_name: "clutter_correction_h",
            long_name: "Clutter Correction H",
        },
        8 => OdimMomentMeta {
            odim_name: "KDP",
            units: "degrees per kilometer",
            standard_name: "radar_specific_differential_phase_hv",
            long_name: "Specific differential phase HV",
        },
        9 => OdimMomentMeta {
            odim_name: "SQIH",
            units: "unitless",
            standard_name: "radar_signal_quality_index_h",
            long_name: "Signal Quality Index H",
        },
        _ => OdimMomentMeta {
            odim_name: "SNRH",
            units: "dB",
            standard_name: "radar_signal_to_noise_ratio_h",
            long_name: "Signal to noise ratio H",
        },
    }
}

/// The metadata of a short name; `None` if the table has no such entry.
pub fn meta_for(odim_name: &str) -> (r: Option<OdimMomentMeta>)
    ensures
        match r {
            Some(m) => exists|i: int|
                0 <= i < table().len() && m == #[trigger] table()[i] && m.odim_name@ == odim_name@,
            None => forall|i: int|
                0 <= i < table().len() ==> (#[trigger] table()[i]).odim_name@ != odim_name@,
        },
{
    let mut i: usize = 0;
    while i < 11
        invariant
            i <= 11 == table().len(),
            forall|j: int| 0 <= j < i ==> (#[trigger] table()[j]).odim_name@ != odim_name@,
        decreases 11 - i,
    {
        let m = entry(i);
        if same_text(m.odim_name, odim_name) {
            assert(m == table()[i as int]);
            return Some(m);
        }
        i += 1;
    }
    None
}

/// No short name stands twice in the table, so a name has one entry.
pub proof fn names_are_distinct(i: int, j: int)
    requires
        0 <= i < table().len(),
        0 <= j < table().len(),
        table()[i].odim_name@ == table()[j].odim_name@,
    ensures
        i == j,
{
    reveal_strlit("DBZH");
    reveal_strlit("DBTH");
    reveal_strlit("VRADH");
    reveal_strlit("WRADH");
    reveal_strlit("ZDR");
    reveal_strlit("PHIDP");
    reveal_strlit("RHOHV");
    reveal_strlit("CCORH");
    reveal_strlit("KDP");
    reveal_strlit("SQIH");
    reveal_strlit("SNRH");
    let n = table()[i].odim_name@;
    let m = table()[j].odim_name@;
    assert(n.len() == m.len());
    assert(n[0] == m[0] && n[1] == m[1] && n[2] == m[2]);
}

/// The attributes of the moments that more than one backend may emit, by their
/// names.
pub proof fn moments_have_the_attributes_of_their_names(m: OdimMomentMeta, i: int)
    requires
        0 <= i < table().len(),
        m == table()[i],
    ensures
        table().len() == 11,
        m.odim_name@ == "DBTH"@ ==> m.units@ == "dBZ"@ && m.standard_name@
            == "radar_equivalent_reflectivity_factor_h"@ && m.long_name@ == "Total power H"@,
        m.odim_name@ == "KDP"@ ==> m.units@ == "degrees per kilometer"@ && m.standard_name@
            == "radar_specific_differential_phase_hv"@ && m.long_name@
            == "Specific differential phase HV"@,
        m.odim_name@ == "SQIH"@ ==> m.units@ == "unitless"@ && m.standard_name@
            == "radar_signal_quality_index_h"@ && m.long_name@ == "Signal Quality Index H"@,
        m.odim_name@ == "SNRH"@ ==> m.units@ == "dB"@ && m.standard_name@
            == "radar_signal_to_noise_ratio_h"@ && m.long_name@ == "Signal to noise ratio H"@,
{
    assert(table()[1].odim_name@ == "DBTH"@);
    assert(table()[8].odim_name@ == "KDP"@);
    assert(table()[9].odim_name@ == "SQIH"@);
    assert(table()[10].odim_name@ == "SNRH"@);
    if m.odim_name@ == "DBTH"@ {
        names_are_distinct(i, 1);
    }
    if m.odim_name@ == "KDP"@ {
        names_are_distinct(i, 8);
    }
    if m.odim_name@ == "SQIH"@ {
        names_are_distinct(i, 9);
    }
    if m.odim_name@ == "SNRH"@ {
        names_are_distinct(i, 10);
    }
}

} // verus!
