use radish::backends::common::metadata::meta_for;

#[test]
fn meta_for_dbzh_returns_xradar_strings() {
    let m = meta_for("DBZH").expect("DBZH is in the table");
    assert_eq!(m.units, "dBZ");
    assert_eq!(m.standard_name, "radar_equivalent_reflectivity_factor_h");
    assert_eq!(m.long_name, "Equivalent reflectivity factor H");
}

#[test]
fn velocity_units_mirror_xradar_trailing_s() {
    assert_eq!(meta_for("VRADH").unwrap().units, "meters per seconds");
    assert_eq!(meta_for("WRADH").unwrap().units, "meters per seconds");
}

#[test]
fn rho_and_ccorh_emit_literal_unitless() {
    assert_eq!(meta_for("RHOHV").unwrap().units, "unitless");
    assert_eq!(meta_for("CCORH").unwrap().units, "unitless");
}

#[test]
fn unknown_odim_returns_none() {
    assert!(meta_for("DEFINITELY_NOT_AN_ODIM_NAME").is_none());
}

#[test]
fn ccorh_uses_clutter_correction_strings() {
    let m = meta_for("CCORH").unwrap();
    assert_eq!(m.standard_name, "clutter_correction_h");
    assert_eq!(m.long_name, "Clutter Correction H");
}
