use radish::backends::nexrad::decode::products::Product;
use radish::backends::nexrad::mapping::{moment_meta, supported_products};

#[test]
fn reflectivity_maps_to_dbzh_with_xradar_strings() {
    let m = moment_meta(Product::Reflectivity);
    assert_eq!(m.odim_name, "DBZH");
    assert_eq!(m.units, "dBZ");
    assert_eq!(m.standard_name, "radar_equivalent_reflectivity_factor_h");
    assert_eq!(m.long_name, "Equivalent reflectivity factor H");
}

#[test]
fn velocity_uses_xradar_units_string() {
    assert_eq!(moment_meta(Product::Velocity).units, "meters per seconds");
    assert_eq!(
        moment_meta(Product::SpectrumWidth).units,
        "meters per seconds"
    );
}

#[test]
fn rho_uses_unitless_not_empty_string() {
    assert_eq!(
        moment_meta(Product::CorrelationCoefficient).units,
        "unitless"
    );
    assert_eq!(moment_meta(Product::ClutterFilterPower).units, "unitless");
}

#[test]
fn ccorh_present_in_supported_products() {
    assert!(supported_products().contains(&Product::ClutterFilterPower));
}

#[test]
fn names_match_radish_types_constants() {
    assert_eq!(moment_meta(Product::Reflectivity).odim_name, "DBZH");
    assert_eq!(moment_meta(Product::Velocity).odim_name, "VRADH");
    assert_eq!(
        moment_meta(Product::CorrelationCoefficient).odim_name,
        "RHOHV"
    );
}

#[test]
fn every_supported_product_has_metadata() {
    for p in supported_products() {
        let m = moment_meta(p);
        assert!(!m.units.is_empty(), "{p:?} has empty units");
    }
}
