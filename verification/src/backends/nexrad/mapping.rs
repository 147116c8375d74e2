//! NEXRAD products as ODIM moments.

use crate::backends::common::metadata::{meta_for, table, OdimMomentMeta};
use crate::backends::nexrad::decode::products::Product;
use vstd::prelude::*;

verus! {

/// Place of a product's moment in the metadata table.
pub open spec fn product_entry(p: Product) -> int {
    match p {
        Product::Reflectivity => 0,
        Product::Velocity => 2,
        Product::SpectrumWidth => 3,
        Product::DifferentialReflectivity => 4,
        Product::DifferentialPhase => 5,
        Product::CorrelationCoefficient => 6,
        Product::ClutterFilterPower => 7,
    }
}

/// ODIM short name of a product.
pub open spec fn odim_name(p: Product) -> &'static str {
    match p {
        Product::Reflectivity => "DBZH",
        Product::Velocity => "VRADH",
        Product::SpectrumWidth => "WRADH",
        Product::DifferentialReflectivity => "ZDR",
        Product::DifferentialPhase => "PHIDP",
        Product::CorrelationCoefficient => "RHOHV",
        Product::ClutterFilterPower => "CCORH",
    }
}

/// ODIM short name of a product.
pub fn product_to_odim_name(product: Product) -> (s: &'static str)
    ensures
        s == odim_name(product),
{
    match product {
        Product::Reflectivity => "DBZH",
        Product::Velocity => "VRADH",
        Product::SpectrumWidth => "WRADH",
        Product::DifferentialReflectivity => "ZDR",
        Product::DifferentialPhase => "PHIDP",
        Product::CorrelationCoefficient => "RHOHV",
        Product::ClutterFilterPower => "CCORH",
    }
}

/// Metadata of a product's moment. The table has an entry for every product.
pub fn moment_meta(product: Product) -> (m: OdimMomentMeta)
    ensures
        m == table()[product_entry(product)],
        m.odim_name@ == odim_name(product)@,
{
    let found = meta_for(product_to_odim_name(product));
    proof {
        let i = product_entry(product);
        assert(table()[i].odim_name == odim_name(product));
        if let Some(m) = found {
            let j = choose|j: int|
                0 <= j < table().len() && m == #[trigger] table()[j] && m.odim_name@ == odim_name(
                    product,
                )@;
            crate::backends::common::metadata::names_are_distinct(i, j);
        }
    }
    found.unwrap()
}

/// The products of a sweep in the order in which they are emitted.
pub open spec fn product_order() -> Seq<Product> {
    seq![
        Product::Reflectivity,
        Product::Velocity,
        Product::SpectrumWidth,
        Product::DifferentialReflectivity,
        Product::DifferentialPhase,
        Product::CorrelationCoefficient,
        Product::ClutterFilterPower,
    ]
}

/// The products of a sweep in the order in which they are emitted.
pub fn supported_products() -> (a: [Product; 7])
    ensures
        a@ == product_order(),
{
    let a = [
        Product::Reflectivity,
        Product::Velocity,
        Product::SpectrumWidth,
        Product::DifferentialReflectivity,
        Product::DifferentialPhase,
        Product::CorrelationCoefficient,
        Product::ClutterFilterPower,
    ];
    assert(a@ =~= product_order());
    a
}

} // verus!
