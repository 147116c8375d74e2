//! A decoded scan in the common data model.
//!
//! The rays of a sweep are sorted by azimuth once, and that order serves every
//! axis and every moment. The range axis is that of the moment with the most
//! gates; gates that a moment lacks, rays that lack the moment, and gates
//! without a measurement are cells without a value.

use crate::backends::common::buffer::{
    decode_into_array, is_shape_overflow, lemma_cell_bounds, shape_fits,
    shapes_fit_if_their_cells_can_be_counted, CellArray,
};
use crate::backends::common::coords::{assemble_ppi_coordinates, Coordinates};
use crate::backends::common::geometry::{build_range_axis, range_axis, MomentGeometry};
use crate::backends::common::metadata::table;
use crate::backends::common::parallel::par_enumerate_map;
use crate::backends::common::sort::{
    angle_keys, angle_order, is_ascending_arrangement, is_stable_order,
    key_order_arranges_by_number, precedes, ray_key, ray_key_of, ray_keys, ray_keys_order_numbers,
    reordering_keeps_items, sort_indices_by_key, stable_order_is_unique,
};
use crate::backends::nexrad::attrs::{
    are_time_ranges, cut_attrs, sweep_attrs_at, sweep_attrs_from_cut, volume_attrs,
    volume_flags_are_bits,
};
use crate::backends::nexrad::decode::messages::msg31::cfp::cfp_values;
use crate::backends::nexrad::decode::messages::msg31::moment::{
    gate_word, gate_words, gate_words_are_big_endian, moment_values, MomentValue,
};
use crate::backends::nexrad::decode::messages::msg5::{
    binary_angle, binary_angles_are_fractions_of_a_turn, pulse_width_label, vcp_description,
    ElevationCut,
};
use crate::backends::nexrad::decode::model::{
    is_median, is_time_range, lemma_same_model, medians_are_unique, medians_stand_in_the_middle,
    radial_models, radials_wf, sweep_models, time_ranges_are_unique, MedianAngle, MomentModel, Radial, RadialModel, Scan,
    Site, Sweep,
};
use crate::backends::nexrad::decode::products::{CfpMomentValue, DataMoment, Product};
use crate::backends::nexrad::decode::same_scan;
use crate::backends::nexrad::mapping::{
    moment_meta, product_entry, product_order, supported_products,
};
use crate::backends::nexrad::sniff::{icao_from_filename, is_canonical_name};
use crate::errors::RadishError;
use crate::float32::{finite, nan, scaled};
use crate::text::{
    decimal, decimal_denotes_its_number, decimal_text, digits_value, push_decimal, push_text,
    utf8_lossy,
};
use crate::time::Timestamp;
use crate::types::{
    are_group_names, generate_sweep_names, MomentData, NexradVolumeAttrs, PlatformType, Quantity,
    RowScaling, SweepData, SweepMetadata, SweepMode, VolumeData, VolumeMetadata,
};
use vstd::prelude::*;

verus! {

/// The cell of a measured gate: its raw word, if it is a measurement.
pub open spec fn moment_cell(v: MomentValue) -> Option<u32> {
    match v {
        MomentValue::Value(raw) => Some(raw),
        _ => None,
    }
}

/// The cell of a measured gate: its raw word, if it is a measurement.
pub fn scaled_moment(value: MomentValue) -> (c: Option<u32>)
    ensures
        c == moment_cell(value),
{
    match value {
        MomentValue::Value(raw) => Some(raw),
        MomentValue::BelowThreshold | MomentValue::RangeFolded => None,
    }
}

/// The cell of a clutter filter gate: its raw word, if it is a power level.
pub open spec fn cfp_cell(v: CfpMomentValue) -> Option<u32> {
    match v {
        CfpMomentValue::Value(raw) => Some(raw),
        CfpMomentValue::Status(_) => None,
    }
}

/// The cell of a clutter filter gate: its raw word, if it is a power level.
pub fn scaled_cfp(value: CfpMomentValue) -> (c: Option<u32>)
    ensures
        c == cfp_cell(value),
{
    match value {
        CfpMomentValue::Value(raw) => Some(raw),
        CfpMomentValue::Status(_) => None,
    }
}

/// The cell of a raw word: measured moments reserve 0 and 1, clutter filter
/// power 0 to 2.
pub open spec fn word_cell(p: Product, raw: int) -> Option<u32> {
    if raw >= (if p == Product::ClutterFilterPower {
        3int
    } else {
        2
    }) {
        Some(raw as u32)
    } else {
        None
    }
}

/// The cells of a block.
pub open spec fn block_cells(p: Product, b: MomentModel) -> Seq<Option<u32>> {
    let width = b.descriptor.word_bytes();
    Seq::new(
        gate_words(b.gates, width) as nat,
        |i: int| word_cell(p, gate_word(b.gates, width, i)),
    )
}

/// The cells of a product in a radial; none if the radial lacks it.
pub open spec fn radial_cells(p: Product, r: RadialModel) -> Seq<Option<u32>> {
    match p.block(r) {
        Some(b) => block_cells(p, b),
        None => Seq::empty(),
    }
}

/// The cells of a product in a radial.
pub fn product_cells(r: &Radial, product: Product) -> (cells: Vec<Option<u32>>)
    requires
        r.model().wf(),
    ensures
        cells@ == radial_cells(product, r.model()),
{
    let mut cells: Vec<Option<u32>> = Vec::new();
    if let Some(m) = product.moment_data(r) {
        let values = m.values();
        let mut i: usize = 0;
        while i < values.len()
            invariant
                i <= values@.len(),
                values@ == moment_values(m.gate_bytes@, m.descriptor.word_bytes()),
                product != Product::ClutterFilterPower,
                cells@.len() == i,
                forall|j: int|
                    0 <= j < i ==> #[trigger] cells@[j] == block_cells(product, m.model())[j],
            decreases values@.len() - i,
        {
            cells.push(scaled_moment(values[i]));
            i += 1;
        }
        assert(cells@ =~= block_cells(product, m.model()));
    }
    if let Some(m) = product.cfp_moment_data(r) {
        let values = m.values();
        cells.clear();
        let mut i: usize = 0;
        while i < values.len()
            invariant
                i <= values@.len(),
                values@ == cfp_values(m.gate_bytes@, m.descriptor.word_bytes()),
                product == Product::ClutterFilterPower,
                cells@.len() == i,
                forall|j: int|
                    0 <= j < i ==> #[trigger] cells@[j] == block_cells(product, m.model())[j],
            decreases values@.len() - i,
        {
            cells.push(scaled_cfp(CfpMomentValue::from(values[i])));
            i += 1;
        }
        assert(cells@ =~= block_cells(product, m.model()));
    }
    assert(product.block(r.model()) is None ==> cells@ =~= Seq::empty());
    cells
}

/// The first block of a product in the radials from the `i`-th on.
pub open spec fn first_block(radials: Seq<RadialModel>, p: Product, i: int) -> Option<MomentModel>
    decreases radials.len() - i,
{
    if i >= radials.len() {
        None
    } else {
        match p.block(radials[i]) {
            Some(b) => Some(b),
            None => first_block(radials, p, i + 1),
        }
    }
}

/// The geometry of a product in a sweep: that of its first block.
pub open spec fn product_geometry(radials: Seq<RadialModel>, p: Product) -> Option<
    MomentGeometry,
> {
    match first_block(radials, p, 0) {
        Some(b) => Some(
            MomentGeometry {
                first_gate_m: b.descriptor.range_to_first_gate_m,
                gate_interval_m: b.descriptor.gate_interval_m,
                gate_count: b.descriptor.gate_count,
            },
        ),
        None => None,
    }
}

/// The geometry of the first radial that carries a product.
pub fn probe_geometry(radials: &[Radial], product: Product) -> (g: Option<MomentGeometry>)
    ensures
        g == product_geometry(radial_models(radials@), product),
{
    let ghost models = radial_models(radials@);
    let mut i: usize = 0;
    while i < radials.len()
        invariant
            i <= radials@.len(),
            models == radial_models(radials@),
            first_block(models, product, 0) == first_block(models, product, i as int),
        decreases radials@.len() - i,
    {
        assert(models[i as int] == radials@[i as int].model());
        if let Some(m) = product.moment_data(&radials[i]) {
            return Some(
                MomentGeometry {
                    first_gate_m: m.first_gate_range_m(),
                    gate_interval_m: m.gate_interval_m(),
                    gate_count: m.gate_count(),
                },
            );
        }
        if let Some(m) = product.cfp_moment_data(&radials[i]) {
            return Some(
                MomentGeometry {
                    first_gate_m: m.first_gate_range_m(),
                    gate_interval_m: m.gate_interval_m(),
                    gate_count: m.gate_count(),
                },
            );
        }
        i += 1;
    }
    None
}

/// The products among the first `n` that a sweep carries, with their
/// geometries.
pub open spec fn present_products(radials: Seq<RadialModel>, n: int) -> Seq<
    (Product, MomentGeometry),
>
    decreases n,
{
    if n <= 0 {
        Seq::empty()
    } else {
        let p = product_order()[n - 1];
        match product_geometry(radials, p) {
            Some(g) => present_products(radials, n - 1).push((p, g)),
            None => present_products(radials, n - 1),
        }
    }
}

/// The geometry with the most gates; of several, the last.
pub open spec fn canonical_geometry(present: Seq<(Product, MomentGeometry)>) -> MomentGeometry
    decreases present.len(),
{
    if present.len() <= 1 {
        present[0].1
    } else {
        let before = canonical_geometry(present.drop_last());
        if present.last().1.gate_count >= before.gate_count {
            present.last().1
        } else {
            before
        }
    }
}

/// No moment has more gates than the canonical geometry.
pub proof fn canonical_geometry_is_widest(present: Seq<(Product, MomentGeometry)>, i: int)
    requires
        0 <= i < present.len(),
    ensures
        present[i].1.gate_count <= canonical_geometry(present).gate_count,
    decreases present.len(),
{
    if present.len() > 1 && i < present.len() - 1 {
        canonical_geometry_is_widest(present.drop_last(), i);
    } else if present.len() > 1 {
        assert(present.last() == present[i]);
    }
}

/// The products that a sweep carries, with their geometries.
fn probe_products(radials: &[Radial]) -> (present: Vec<(Product, MomentGeometry)>)
    ensures
        present@ == present_products(radial_models(radials@), 7),
{
    let all = supported_products();
    let mut present: Vec<(Product, MomentGeometry)> = Vec::new();
    let mut i: usize = 0;
    while i < 7
        invariant
            i <= 7,
            all@ == product_order(),
            present@ == present_products(radial_models(radials@), i as int),
        decreases 7 - i,
    {
        let product = all[i];
        if let Some(g) = probe_geometry(radials, product) {
            present.push((product, g));
        }
        i += 1;
    }
    present
}

/// The geometry with the most gates; of several, the last.
fn pick_canonical(present: &[(Product, MomentGeometry)]) -> (g: MomentGeometry)
    requires
        present@.len() > 0,
    ensures
        g == canonical_geometry(present@),
{
    let mut g = present[0].1;
    let mut i: usize = 1;
    assert(present@.take(1).len() == 1);
    while i < present.len()
        invariant
            1 <= i <= present@.len(),
            g == canonical_geometry(present@.take(i as int)),
        decreases present@.len() - i,
    {
        assert(present@.take(i + 1).drop_last() =~= present@.take(i as int));
        assert(present@.take(i + 1).last() == present@[i as int]);
        if present[i].1.gate_count >= g.gate_count {
            g = present[i].1;
        }
        i += 1;
    }
    assert(present@.take(present@.len() as int) =~= present@);
    g
}

/// The scaling of a product's words in a radial.
pub open spec fn row_scaling(p: Product, r: RadialModel) -> Option<RowScaling> {
    match p.block(r) {
        Some(b) => Some(RowScaling { scale: b.descriptor.scale, offset: b.descriptor.offset }),
        None => None,
    }
}

fn scaling_of(r: &Radial, product: Product) -> (s: Option<RowScaling>)
    ensures
        s == row_scaling(product, r.model()),
{
    if let Some(m) = product.moment_data(r) {
        return Some(RowScaling { scale: m.descriptor.scale, offset: m.descriptor.offset });
    }
    if let Some(m) = product.cfp_moment_data(r) {
        return Some(RowScaling { scale: m.descriptor.scale, offset: m.descriptor.offset });
    }
    None
}

/// The array of a product: a row per radial, in the order given, of `max_gates`
/// cells, of which the radial fills no more than the product's own gate count.
pub open spec fn is_product_array(
    a: CellArray<u32>,
    radials: Seq<RadialModel>,
    order: Seq<usize>,
    p: Product,
    g: MomentGeometry,
    max_gates: int,
) -> bool {
    &&& a.wf()
    &&& a.rows == order.len()
    &&& a.cols == max_gates
    &&& forall|r: int|
        0 <= r < order.len() ==> a.row_holds(
            r,
            radial_cells(p, radials[#[trigger] order[r] as int]),
            g.gate_count as int,
        )
}

/// Lay down the array of a product.
pub fn decode_product(
    radials: &[Radial],
    order: &[usize],
    product: Product,
    geometry: &MomentGeometry,
    max_gates: usize,
) -> (result: Result<CellArray<u32>, RadishError>)
    requires
        radials_wf(radial_models(radials@)),
        geometry.gate_count <= max_gates,
        forall|i: int| 0 <= i < order@.len() ==> (#[trigger] order@[i]) < radials@.len(),
    ensures
        match result {
            Ok(a) => {
                &&& shape_fits(order@.len() as int, max_gates as int)
                &&& is_product_array(
                    a,
                    radial_models(radials@),
                    order@,
                    product,
                    *geometry,
                    max_gates as int,
                )
            },
            Err(e) => !shape_fits(order@.len() as int, max_gates as int) && is_shape_overflow(e),
        },
{
    let ghost models = radial_models(radials@);
    let row = |r: &Radial| -> (v: Vec<Option<u32>>)
        requires
            r.model().wf(),
        ensures
            v@ == radial_cells(product, r.model()),
        { product_cells(r, product) };
    proof {
        assert forall|i: int| 0 <= i < radials@.len() implies (#[trigger] radials@[i]).model().wf() by {
            assert(models[i] == radials@[i].model());
        }
    }
    let a = decode_into_array(radials, order, geometry.gate_count as usize, max_gates, row)?;
    proof {
        assert forall|r: int| 0 <= r < order@.len() implies a.row_holds(
            r,
            radial_cells(product, models[#[trigger] order@[r] as int]),
            geometry.gate_count as int,
        ) by {
            assert(models[order@[r] as int] == radials@[order@[r] as int].model());
        }
    }
    Ok(a)
}

/// A median as a quantity.
pub open spec fn median_quantity(m: MedianAngle) -> Quantity {
    match m {
        MedianAngle::Middle(a) => Quantity::Single(a),
        MedianAngle::MeanOf(a, b) => Quantity::MeanOfSingles(a, b),
    }
}

/// `q` is the elevation of a sweep: the commanded angle if there is a cut,
/// otherwise the median of the radials' angles, if there are any.
pub open spec fn is_fixed_angle(
    q: Option<Quantity>,
    cut: Option<ElevationCut>,
    elevations: Seq<u32>,
) -> bool {
    match cut {
        Some(c) => q == Some(Quantity::Of8192ths(binary_angle(c.elevation_angle_raw) as u32)),
        None => exists|m: Option<MedianAngle>|
            #[trigger] is_median(m, elevations) && q == (match m {
                Some(m) => Some(median_quantity(m)),
                None => None,
            }),
    }
}

/// The contents of an optional reference.
pub open spec fn deref_cut(cut: Option<&ElevationCut>) -> Option<ElevationCut> {
    match cut {
        Some(c) => Some(*c),
        None => None,
    }
}

/// The elevation of a sweep: commanded rather than achieved.
pub fn fixed_angle_for(cut: Option<&ElevationCut>, sweep: &Sweep) -> (q: Option<Quantity>)
    ensures
        is_fixed_angle(q, deref_cut(cut), sweep.elevations()),
{
    match cut {
        Some(c) => Some(Quantity::Of8192ths(c.elevation_angle_degrees())),
        None => {
            let m = sweep.elevation_angle_degrees();
            match m {
                Some(MedianAngle::Middle(a)) => Some(Quantity::Single(a)),
                Some(MedianAngle::MeanOf(a, b)) => Some(Quantity::MeanOfSingles(a, b)),
                None => None,
            }
        },
    }
}

/// `q` is the upper median of angles; of none it is missing.
pub open spec fn is_upper_median(q: Quantity, angles: Seq<u32>) -> bool {
    if angles.len() == 0 {
        q == Quantity::Missing
    } else {
        exists|order: Seq<usize>|
            #[trigger] is_stable_order(order, angle_keys(angles)) && q == Quantity::Single(
                angles[order[angles.len() as int / 2] as int],
            )
    }
}

/// The upper median of elevation angles given as bit patterns.
pub fn median_elevation(elevations: &[u32]) -> (q: Quantity)
    ensures
        is_upper_median(q, elevations@),
{
    let n: usize = elevations.len();
    if n == 0 {
        return Quantity::Missing;
    }
    let order = angle_order(elevations);
    assert(order@[n as int / 2] < n);
    Quantity::Single(elevations[order[n / 2]])
}

/// The text that names a sweep in an error.
pub open spec fn sweep_error_text(idx: int, what: Seq<char>) -> Seq<char> {
    "sweep "@ + decimal(idx as nat) + what
}

fn sweep_error(idx: usize, what: &str) -> (s: String)
    ensures
        s@ == sweep_error_text(idx as int, what@),
{
    let mut s = "sweep ".to_owned();
    push_decimal(&mut s, idx as u64);
    push_text(&mut s, what);
    s
}

/// The azimuth angles of radials.
pub open spec fn azimuths(radials: Seq<RadialModel>) -> Seq<u32> {
    radials.map_values(|r: RadialModel| r.azimuth_angle_degrees)
}

fn azimuth_of(r: &Radial) -> (a: u32)
    ensures
        a == r.azimuth_angle_degrees,
{
    r.azimuth_angle_degrees
}

fn azimuth_key_of(r: &Radial) -> (k: i64)
    ensures
        k == ray_key(r.azimuth_angle_degrees),
{
    ray_key_of(r.azimuth_angle_degrees)
}

fn elevation_of(r: &Radial) -> (a: u32)
    ensures
        a == r.elevation_angle_degrees,
{
    r.elevation_angle_degrees
}

fn time_of(r: &Radial) -> (t: Option<Timestamp>)
    ensures
        t == r.collection_time,
{
    r.collection_time
}

/// `c` holds the coordinates of the radials in the order given.
pub open spec fn are_coordinates(
    c: Coordinates,
    radials: Seq<RadialModel>,
    order: Seq<usize>,
    canonical: MomentGeometry,
) -> bool {
    &&& c.range@ == range_axis(canonical)
    &&& c.azimuth@ == Seq::new(
        order.len(),
        |i: int| radials[order[i] as int].azimuth_angle_degrees,
    )
    &&& c.elevation@ == Seq::new(
        order.len(),
        |i: int| radials[order[i] as int].elevation_angle_degrees,
    )
    &&& c.time@ == Seq::new(order.len(), |i: int| radials[order[i] as int].collection_time)
}

/// `m` is the moment of a product.
pub open spec fn is_moment(
    m: MomentData,
    radials: Seq<RadialModel>,
    order: Seq<usize>,
    p: Product,
    g: MomentGeometry,
    max_gates: int,
) -> bool {
    let meta = table()[product_entry(p)];
    &&& m.name@ == meta.odim_name@
    &&& m.units@ == meta.units@
    &&& m.standard_name@ == meta.standard_name@
    &&& m.long_name@ == meta.long_name@
    &&& m.fill_value == Quantity::Missing
    &&& m.scale_factor == Quantity::Whole(1)
    &&& m.add_offset == Quantity::Whole(0)
    &&& is_product_array(m.data, radials, order, p, g, max_gates)
    &&& m.scaling@ == Seq::new(order.len(), |r: int| row_scaling(p, radials[order[r] as int]))
}

/// `moments` are the moments that a sweep carries.
pub open spec fn are_moments(
    moments: Seq<MomentData>,
    present: Seq<(Product, MomentGeometry)>,
    radials: Seq<RadialModel>,
    order: Seq<usize>,
    max_gates: int,
) -> bool {
    &&& moments.len() == present.len()
    &&& forall|k: int|
        0 <= k < present.len() ==> is_moment(
            #[trigger] moments[k],
            radials,
            order,
            present[k].0,
            present[k].1,
            max_gates,
        )
}

/// `m` is the metadata of a sweep.
pub open spec fn is_sweep_metadata(
    m: SweepMetadata,
    elevation_number: u8,
    elevations: Seq<u32>,
    cut: Option<ElevationCut>,
) -> bool {
    &&& m.sweep_number == elevation_number
    &&& m.sweep_mode == SweepMode::Azimuth
    &&& is_fixed_angle(Some(m.fixed_angle), cut, elevations)
    &&& match (m.nexrad, cut) {
        (Some(a), Some(c)) => a.model() == cut_attrs(c),
        (None, None) => true,
        _ => false,
    }
}

/// `d` is a sweep in the common data model, its rays in ascending order of
/// azimuth.
pub open spec fn is_sweep_data(d: SweepData, sweep: Sweep, cut: Option<ElevationCut>) -> bool {
    let radials = sweep.model().radials;
    let present = present_products(radials, 7);
    let canonical = canonical_geometry(present);
    &&& is_sweep_metadata(d.metadata, sweep.elevation_number, sweep.elevations(), cut)
    &&& exists|order: Seq<usize>|
        {
            &&& #[trigger] is_stable_order(order, ray_keys(azimuths(radials)))
            &&& are_coordinates(d.coordinates, radials, order, canonical)
            &&& are_moments(d.moments@, present, radials, order, canonical.gate_count as int)
        }
}

/// The rays of a converted sweep are in ascending order of azimuth; those whose
/// azimuth is NaN come first.
pub proof fn rays_ascend_by_azimuth(
    d: SweepData,
    sweep: Sweep,
    cut: Option<ElevationCut>,
    i: int,
    j: int,
)
    requires
        is_sweep_data(d, sweep, cut),
        0 <= i < j < d.coordinates.azimuth@.len(),
    ensures
        ray_key(d.coordinates.azimuth@[i]) <= ray_key(d.coordinates.azimuth@[j]),
{
    let radials = sweep.model().radials;
    let keys = ray_keys(azimuths(radials));
    let order = ray_order(d, sweep);
    assert(precedes(keys, order[i], order[j]));
    assert(order[i] < keys.len() && order[j] < keys.len());
}

/// The rays of a converted sweep are its radials, each as often as it occurs.
pub proof fn rays_are_the_radials(d: SweepData, sweep: Sweep, cut: Option<ElevationCut>)
    requires
        is_sweep_data(d, sweep, cut),
    ensures
        d.coordinates.azimuth@.to_multiset() == azimuths(sweep.model().radials).to_multiset(),
{
    let radials = sweep.model().radials;
    let order = ray_order(d, sweep);
    reordering_keeps_items(azimuths(radials), order, ray_keys(azimuths(radials)));
    assert(d.coordinates.azimuth@ =~= Seq::new(
        order.len(),
        |k: int| azimuths(radials)[order[k] as int],
    ));
}

/// The order of the radials that makes them the rays of a converted sweep.
spec fn ray_order(d: SweepData, sweep: Sweep) -> Seq<usize> {
    let radials = sweep.model().radials;
    let present = present_products(radials, 7);
    let canonical = canonical_geometry(present);
    choose|order: Seq<usize>|
        {
            &&& #[trigger] is_stable_order(order, ray_keys(azimuths(radials)))
            &&& are_coordinates(d.coordinates, radials, order, canonical)
            &&& are_moments(d.moments@, present, radials, order, canonical.gate_count as int)
        }
}

/// Two sweeps have the same rays and the same cells in the same moments.
pub open spec fn same_rays(a: SweepData, b: SweepData) -> bool {
    &&& a.coordinates.range@ == b.coordinates.range@
    &&& a.coordinates.azimuth@ == b.coordinates.azimuth@
    &&& a.coordinates.elevation@ == b.coordinates.elevation@
    &&& a.coordinates.time@ == b.coordinates.time@
    &&& a.moments@.len() == b.moments@.len()
    &&& forall|k: int|
        0 <= k < a.moments@.len() ==> {
            &&& (#[trigger] a.moments@[k]).name@ == b.moments@[k].name@
            &&& a.moments@[k].scaling@ == b.moments@[k].scaling@
            &&& a.moments@[k].data.rows == b.moments@[k].data.rows
            &&& a.moments@[k].data.cols == b.moments@[k].data.cols
            &&& a.moments@[k].data.cells@ == b.moments@[k].data.cells@
        }
}

/// What a sweep converts to is decided by its radials.
pub proof fn conversion_is_decided_by_the_radials(
    a: SweepData,
    b: SweepData,
    s: Sweep,
    t: Sweep,
    cut_s: Option<ElevationCut>,
    cut_t: Option<ElevationCut>,
)
    requires
        s.model().radials == t.model().radials,
        is_sweep_data(a, s, cut_s),
        is_sweep_data(b, t, cut_t),
    ensures
        same_rays(a, b),
{
    let radials = s.model().radials;
    let present = present_products(radials, 7);
    let canonical = canonical_geometry(present);
    let gates = canonical.gate_count as int;
    let keys = ray_keys(azimuths(radials));
    let order = ray_order(a, s);
    let other = ray_order(b, t);
    stable_order_is_unique(order, other, keys);
    assert forall|k: int| 0 <= k < a.moments@.len() implies {
        &&& (#[trigger] a.moments@[k]).name@ == b.moments@[k].name@
        &&& a.moments@[k].scaling@ == b.moments@[k].scaling@
        &&& a.moments@[k].data.rows == b.moments@[k].data.rows
        &&& a.moments@[k].data.cols == b.moments@[k].data.cols
        &&& a.moments@[k].data.cells@ == b.moments@[k].data.cells@
    } by {
        let (p, g) = present[k];
        let (m, n) = (a.moments@[k], b.moments@[k]);
        assert(is_moment(m, radials, order, p, g, gates));
        assert(is_moment(n, radials, order, p, g, gates));
        assert forall|c: int| 0 <= c < m.data.cells@.len() implies m.data.cells@[c]
            == n.data.cells@[c] by {
            let cols = m.data.cols as int;
            let rows = m.data.rows as int;
            assert(cols > 0) by (nonlinear_arith)
                requires
                    0 <= c < rows * cols,
                    cols >= 0,
            ;
            lemma_cell_bounds(c, cols, rows);
            let (r, col) = (c / cols, c % cols);
            let values = radial_cells(p, radials[order[r] as int]);
            assert(m.data.row_holds(r, values, g.gate_count as int));
            assert(n.data.row_holds(r, values, g.gate_count as int));
            assert(m.data.cell(r, col) == n.data.cell(r, col));
        }
        assert(m.data.cells@ =~= n.data.cells@);
    }
}

/// An elevation has one fixed angle.
proof fn lemma_one_fixed_angle(
    a: Option<Quantity>,
    b: Option<Quantity>,
    cut: Option<ElevationCut>,
    elevations: Seq<u32>,
)
    requires
        is_fixed_angle(a, cut, elevations),
        is_fixed_angle(b, cut, elevations),
    ensures
        a == b,
{
    if cut is None {
        let x = choose|m: Option<MedianAngle>|
            #[trigger] is_median(m, elevations) && a == (match m {
                Some(m) => Some(median_quantity(m)),
                None => None,
            });
        let y = choose|m: Option<MedianAngle>|
            #[trigger] is_median(m, elevations) && b == (match m {
                Some(m) => Some(median_quantity(m)),
                None => None,
            });
        medians_are_unique(x, y, elevations);
    }
}

/// Two sweeps have the same number, mode, angle and attributes.
pub open spec fn same_sweep_metadata(a: SweepMetadata, b: SweepMetadata) -> bool {
    &&& a.sweep_number == b.sweep_number
    &&& a.sweep_mode == b.sweep_mode
    &&& a.fixed_angle == b.fixed_angle
    &&& match (a.nexrad, b.nexrad) {
        (Some(x), Some(y)) => x.model() == y.model(),
        (None, None) => true,
        _ => false,
    }
}

/// The metadata of a converted sweep is decided by its radials and its cut.
pub proof fn sweep_metadata_is_decided_by_radials_and_cut(
    a: SweepData,
    b: SweepData,
    s: Sweep,
    t: Sweep,
    cut: Option<ElevationCut>,
)
    requires
        s.model() == t.model(),
        is_sweep_data(a, s, cut),
        is_sweep_data(b, t, cut),
    ensures
        same_sweep_metadata(a.metadata, b.metadata),
{
    lemma_same_model(s, t);
    lemma_one_fixed_angle(
        Some(a.metadata.fixed_angle),
        Some(b.metadata.fixed_angle),
        cut,
        s.elevations(),
    );
}

/// The sweep has radials, a moment, and no more cells than can be counted.
pub open spec fn sweep_converts(sweep: Sweep) -> bool {
    let radials = sweep.model().radials;
    let present = present_products(radials, 7);
    &&& radials.len() > 0
    &&& present.len() > 0
    &&& shape_fits(radials.len() as int, canonical_geometry(present).gate_count as int)
}

/// `e` is what is wrong with a sweep that does not convert.
pub open spec fn is_sweep_error(e: RadishError, sweep: Sweep, idx: int) -> bool {
    let radials = sweep.model().radials;
    if radials.len() == 0 {
        e matches RadishError::MalformedRecord { offset, msg } && offset == 0 && msg@
            == sweep_error_text(idx, " has no radials"@)
    } else if present_products(radials, 7).len() == 0 {
        e matches RadishError::MalformedRecord { offset, msg } && offset == 0 && msg@
            == sweep_error_text(idx, " has no supported moments"@)
    } else {
        is_shape_overflow(e)
    }
}

fn build_moment(
    radials: &[Radial],
    order: &[usize],
    product: Product,
    geometry: &MomentGeometry,
    max_gates: usize,
) -> (result: Result<MomentData, RadishError>)
    requires
        radials_wf(radial_models(radials@)),
        geometry.gate_count <= max_gates,
        forall|i: int| 0 <= i < order@.len() ==> (#[trigger] order@[i]) < radials@.len(),
    ensures
        match result {
            Ok(m) => {
                &&& shape_fits(order@.len() as int, max_gates as int)
                &&& is_moment(
                    m,
                    radial_models(radials@),
                    order@,
                    product,
                    *geometry,
                    max_gates as int,
                )
            },
            Err(e) => !shape_fits(order@.len() as int, max_gates as int) && is_shape_overflow(e),
        },
{
    let ghost models = radial_models(radials@);
    let data = decode_product(radials, order, product, geometry, max_gates)?;
    let mut scaling: Vec<Option<RowScaling>> = Vec::with_capacity(order.len());
    let mut r: usize = 0;
    while r < order.len()
        invariant
            r <= order@.len(),
            models == radial_models(radials@),
            forall|i: int| 0 <= i < order@.len() ==> (#[trigger] order@[i]) < radials@.len(),
            scaling@.len() == r,
            forall|k: int|
                0 <= k < r ==> #[trigger] scaling@[k] == row_scaling(
                    product,
                    models[order@[k] as int],
                ),
        decreases order@.len() - r,
    {
        let item: usize = order[r];
        assert(order@[r as int] < radials@.len());
        scaling.push(scaling_of(&radials[item], product));
        r += 1;
    }
    assert(scaling@ =~= Seq::new(
        order@.len(),
        |r: int| row_scaling(product, models[order@[r] as int]),
    ));
    let meta = moment_meta(product);
    Ok(
        MomentData {
            name: meta.odim_name.to_owned(),
            units: meta.units.to_owned(),
            standard_name: meta.standard_name.to_owned(),
            long_name: meta.long_name.to_owned(),
            fill_value: Quantity::Missing,
            scale_factor: Quantity::Whole(1),
            add_offset: Quantity::Whole(0),
            data,
            scaling,
        },
    )
}

fn build_moments(
    radials: &[Radial],
    order: &[usize],
    present: &[(Product, MomentGeometry)],
    max_gates: usize,
) -> (result: Result<Vec<MomentData>, RadishError>)
    requires
        radials_wf(radial_models(radials@)),
        present@.len() > 0,
        forall|k: int|
            0 <= k < present@.len() ==> (#[trigger] present@[k]).1.gate_count <= max_gates,
        forall|i: int| 0 <= i < order@.len() ==> (#[trigger] order@[i]) < radials@.len(),
    ensures
        match result {
            Ok(moments) => {
                &&& shape_fits(order@.len() as int, max_gates as int)
                &&& are_moments(
                    moments@,
                    present@,
                    radial_models(radials@),
                    order@,
                    max_gates as int,
                )
            },
            Err(e) => !shape_fits(order@.len() as int, max_gates as int) && is_shape_overflow(e),
        },
{
    let mut moments: Vec<MomentData> = Vec::with_capacity(present.len());
    let mut k: usize = 0;
    while k < present.len()
        invariant
            k <= present@.len(),
            radials_wf(radial_models(radials@)),
            forall|k: int|
                0 <= k < present@.len() ==> (#[trigger] present@[k]).1.gate_count <= max_gates,
            forall|i: int| 0 <= i < order@.len() ==> (#[trigger] order@[i]) < radials@.len(),
            k > 0 ==> shape_fits(order@.len() as int, max_gates as int),
            moments@.len() == k,
            forall|j: int|
                0 <= j < k ==> is_moment(
                    #[trigger] moments@[j],
                    radial_models(radials@),
                    order@,
                    present@[j].0,
                    present@[j].1,
                    max_gates as int,
                ),
        decreases present@.len() - k,
    {
        assert(present@[k as int].1.gate_count <= max_gates);
        let (product, geometry): (Product, MomentGeometry) = present[k];
        moments.push(build_moment(radials, order, product, &geometry, max_gates)?);
        k += 1;
    }
    Ok(moments)
}

/// The coordinates of the radials in the order given.
fn build_coordinates(radials: &[Radial], order: &[usize], canonical: &MomentGeometry) -> (c:
    Coordinates)
    requires
        forall|i: int| 0 <= i < order@.len() ==> (#[trigger] order@[i]) < radials@.len(),
    ensures
        are_coordinates(c, radial_models(radials@), order@, *canonical),
{
    let c = assemble_ppi_coordinates(
        radials,
        order,
        build_range_axis(canonical),
        azimuth_of,
        elevation_of,
        time_of,
    );
    proof {
        let models = radial_models(radials@);
        assert(c.azimuth@ =~= Seq::new(
            order@.len(),
            |i: int| models[order@[i] as int].azimuth_angle_degrees,
        ));
        assert(c.elevation@ =~= Seq::new(
            order@.len(),
            |i: int| models[order@[i] as int].elevation_angle_degrees,
        ));
        assert(c.time@ =~= Seq::new(
            order@.len(),
            |i: int| models[order@[i] as int].collection_time,
        ));
    }
    c
}

/// The order of radials by azimuth.
fn azimuth_order(radials: &[Radial]) -> (order: Vec<usize>)
    ensures
        is_stable_order(order@, ray_keys(azimuths(radial_models(radials@)))),
{
    let order = sort_indices_by_key(radials, azimuth_key_of);
    proof {
        let keys = choose|keys: Seq<i64>|
            {
                &&& keys.len() == radials@.len()
                &&& forall|i: int|
                    0 <= i < radials@.len() ==> call_ensures(
                        azimuth_key_of,
                        (&#[trigger] radials@[i],),
                        keys[i],
                    )
                &&& #[trigger] is_stable_order(order@, keys)
            };
        let expected = ray_keys(azimuths(radial_models(radials@)));
        assert forall|i: int| 0 <= i < keys.len() implies keys[i] == expected[i] by {
            assert(call_ensures(azimuth_key_of, (&radials@[i],), keys[i]));
        }
        assert(keys =~= expected);
    }
    order
}

/// Convert a sweep. It must have radials and at least one moment.
pub fn convert_sweep(sweep: &Sweep, sweep_idx: usize, cut: Option<&ElevationCut>) -> (r: Result<
    SweepData,
    RadishError,
>)
    requires
        radials_wf(sweep.model().radials),
    ensures
        match r {
            Ok(d) => sweep_converts(*sweep) && is_sweep_data(d, *sweep, deref_cut(cut)),
            Err(e) => !sweep_converts(*sweep) && is_sweep_error(e, *sweep, sweep_idx as int),
        },
{
    let radials = sweep.radials.as_slice();
    let ghost models = sweep.model().radials;
    let nrays: usize = radials.len();
    if nrays == 0 {
        return Err(
            RadishError::MalformedRecord {
                offset: 0,
                msg: sweep_error(sweep_idx, " has no radials"),
            },
        );
    }
    let present = probe_products(radials);
    if present.len() == 0 {
        return Err(
            RadishError::MalformedRecord {
                offset: 0,
                msg: sweep_error(sweep_idx, " has no supported moments"),
            },
        );
    }
    let canonical = pick_canonical(present.as_slice());
    let max_gates: usize = canonical.gate_count as usize;
    proof {
        assert forall|k: int| 0 <= k < present@.len() implies (
        #[trigger] present@[k]).1.gate_count <= max_gates by {
            canonical_geometry_is_widest(present@, k);
        }
    }
    let order = azimuth_order(radials);
    let coordinates = build_coordinates(radials, order.as_slice(), &canonical);
    let fixed_angle = match fixed_angle_for(cut, sweep) {
        Some(q) => q,
        None => median_elevation(coordinates.elevation.as_slice()),
    };
    let nexrad = match cut {
        Some(c) => Some(sweep_attrs_from_cut(c)),
        None => None,
    };
    let metadata = SweepMetadata {
        sweep_number: sweep.elevation_number as u32,
        sweep_mode: SweepMode::Azimuth,
        fixed_angle,
        nexrad,
    };
    let moments = build_moments(radials, order.as_slice(), present.as_slice(), max_gates)?;
    Ok(SweepData { metadata, moments, coordinates })
}

/// The instrument name: the site's identifier, else that of a canonical file
/// name, else `UNKN`.
pub open spec fn instrument_name(site: Option<Site>, source_name: Seq<char>) -> Seq<char> {
    match site {
        Some(s) => utf8_lossy(s.identifier@),
        None => if is_canonical_name(source_name) {
            source_name.take(4)
        } else {
            "UNKN"@
        },
    }
}

fn pick_instrument_name(site: &Option<Site>, source_name: &str) -> (s: String)
    ensures
        s@ == instrument_name(*site, source_name@),
{
    match site {
        Some(s) => s.icao_str(),
        None => match icao_from_filename(source_name) {
            Some(icao) => icao.to_owned(),
            None => "UNKN".to_owned(),
        },
    }
}

/// `angles` are the elevations of the sweeps.
pub open spec fn are_fixed_angles(
    angles: Seq<Quantity>,
    sweeps: Seq<Sweep>,
    cuts: Seq<ElevationCut>,
) -> bool {
    &&& angles.len() == sweeps.len()
    &&& forall|i: int|
        0 <= i < sweeps.len() ==> is_fixed_angle_or_missing(
            #[trigger] angles[i],
            cut_at_index(cuts, i),
            sweeps[i].elevations(),
        )
}

/// `q` is the elevation of a sweep, missing if it has none.
pub open spec fn is_fixed_angle_or_missing(
    q: Quantity,
    cut: Option<ElevationCut>,
    elevations: Seq<u32>,
) -> bool {
    is_fixed_angle(Some(q), cut, elevations) || (q == Quantity::Missing && is_fixed_angle(
        None,
        cut,
        elevations,
    ))
}

/// Cut `i`, if the pattern has it.
pub open spec fn cut_at_index(cuts: Seq<ElevationCut>, i: int) -> Option<ElevationCut> {
    if i < cuts.len() {
        Some(cuts[i])
    } else {
        None
    }
}

fn nth_cut<'a>(cuts: &'a [ElevationCut], i: usize) -> (c: Option<&'a ElevationCut>)
    ensures
        deref_cut(c) == cut_at_index(cuts@, i as int),
{
    if i < cuts.len() {
        Some(&cuts[i])
    } else {
        None
    }
}

fn fixed_angles(sweeps: &[Sweep], cuts: &[ElevationCut]) -> (angles: Vec<Quantity>)
    ensures
        are_fixed_angles(angles@, sweeps@, cuts@),
{
    let mut angles: Vec<Quantity> = Vec::with_capacity(sweeps.len());
    let mut i: usize = 0;
    while i < sweeps.len()
        invariant
            i <= sweeps@.len(),
            angles@.len() == i,
            forall|j: int|
                0 <= j < i ==> is_fixed_angle_or_missing(
                    #[trigger] angles@[j],
                    cut_at_index(cuts@, j),
                    sweeps@[j].elevations(),
                ),
        decreases sweeps@.len() - i,
    {
        let q = match fixed_angle_for(nth_cut(cuts, i), &sweeps[i]) {
            Some(q) => q,
            None => Quantity::Missing,
        };
        angles.push(q);
        i += 1;
    }
    angles
}

/// The latitude of a site, as a quantity.
pub open spec fn site_latitude(site: Option<Site>) -> Quantity {
    match site {
        Some(s) => Quantity::Single(s.latitude_degrees),
        None => Quantity::Missing,
    }
}

/// The longitude of a site, as a quantity.
pub open spec fn site_longitude(site: Option<Site>) -> Quantity {
    match site {
        Some(s) => Quantity::Single(s.longitude_degrees),
        None => Quantity::Missing,
    }
}

/// The altitude of the antenna: site height and tower height.
pub open spec fn site_altitude(site: Option<Site>) -> Quantity {
    match site {
        Some(s) => Quantity::Whole((s.site_height_m + s.tower_height_m) as i64),
        None => Quantity::Missing,
    }
}

/// The height of the antenna above ground.
pub open spec fn site_altitude_agl(site: Option<Site>) -> Option<Quantity> {
    match site {
        Some(s) => Some(Quantity::Whole(s.tower_height_m as i64)),
        None => None,
    }
}

/// `attributes` names the coverage pattern.
pub open spec fn are_vcp_attributes(attributes: Seq<(String, String)>, number: u16) -> bool {
    &&& attributes.len() == 3
    &&& attributes[0].0@ == "scan_name"@
    &&& attributes[0].1@ == "VCP-"@ + decimal(number as nat)
    &&& attributes[1].0@ == "vcp"@
    &&& attributes[1].1@ == decimal(number as nat)
    &&& attributes[2].0@ == "vcp_description"@
    &&& attributes[2].1@ == vcp_description(number)
}

/// The time coverage in `m` is the range of the scan's points in time, or the
/// start of 1970 if it has none.
pub open spec fn covers(m: VolumeMetadata, scan: Scan) -> bool {
    let epoch = Timestamp { secs: 0, nanos: 0 };
    let has = |t: Timestamp| scan.has_time(t);
    is_time_range(Some((m.time_coverage_start, m.time_coverage_end)), has) || (is_time_range(
        None,
        has,
    ) && m.time_coverage_start == epoch && m.time_coverage_end == epoch)
}

/// `m` is the metadata of a scan from a source of this name.
pub open spec fn is_volume_metadata(m: VolumeMetadata, scan: Scan, source_name: Seq<char>) -> bool {
    &&& m.instrument_name@ == instrument_name(scan.site, source_name)
    &&& m.institution@ == "NOAA/NWS"@
    &&& m.platform_type == Some(PlatformType::Fixed)
    &&& m.latitude == site_latitude(scan.site)
    &&& m.longitude == site_longitude(scan.site)
    &&& m.altitude == site_altitude(scan.site)
    &&& m.altitude_agl == site_altitude_agl(scan.site)
    &&& covers(m, scan)
    &&& m.volume_number == 0
    &&& m.frequency is None
    &&& are_group_names(m.sweep_group_names@, scan.sweeps@.len() as int)
    &&& are_fixed_angles(
        m.sweep_fixed_angles@,
        scan.sweeps@,
        scan.coverage_pattern.elevation_cuts@,
    )
    &&& are_vcp_attributes(m.attributes@, scan.coverage_pattern.pattern_number)
    &&& m.nexrad is Some
    &&& m.nexrad->0.is_of(
        scan.coverage_pattern,
        match scan.rda_status {
            Some(s) => Some(&s),
            None => None,
        },
        scan.sweeps@,
        (scan.sweeps@.len() as int % 0x1_0000_0000) as u32,
    )
}

fn vcp_attributes(number: u16, description: &str) -> (attributes: Vec<(String, String)>)
    requires
        description@ == vcp_description(number),
    ensures
        are_vcp_attributes(attributes@, number),
{
    let mut scan_name = "VCP-".to_owned();
    push_decimal(&mut scan_name, number as u64);
    let mut attributes: Vec<(String, String)> = Vec::new();
    attributes.push(("scan_name".to_owned(), scan_name));
    attributes.push(("vcp".to_owned(), decimal_text(number as u64)));
    attributes.push(("vcp_description".to_owned(), description.to_owned()));
    attributes
}

/// The metadata of a scan. `source_name` is the name of the file that it came
/// from and stands in for a missing site.
pub fn build_volume_metadata(scan: &Scan, source_name: &str) -> (m: VolumeMetadata)
    ensures
        is_volume_metadata(m, *scan, source_name@),
{
    let instrument_name = pick_instrument_name(&scan.site, source_name);
    let (latitude, longitude, altitude, altitude_agl): (
        Quantity,
        Quantity,
        Quantity,
        Option<Quantity>,
    ) = match &scan.site {
        Some(s) => (
            Quantity::Single(s.latitude_degrees),
            Quantity::Single(s.longitude_degrees),
            Quantity::Whole(s.site_height_m as i64 + s.tower_height_m as i64),
            Some(Quantity::Whole(s.tower_height_m as i64)),
        ),
        None => (Quantity::Missing, Quantity::Missing, Quantity::Missing, None),
    };
    let range = scan.time_range();
    let (time_coverage_start, time_coverage_end): (Timestamp, Timestamp) = match range {
        Some((s, e)) => (s, e),
        None => (Timestamp::unix_epoch(), Timestamp::unix_epoch()),
    };
    let num_sweeps: usize = scan.sweeps.len();
    let actual: u32 = (num_sweeps as u64 % 0x1_0000_0000) as u32;
    let rda_status = scan.rda_status.as_ref();
    let nexrad = volume_attrs(
        &scan.coverage_pattern,
        rda_status,
        scan.sweeps.as_slice(),
        actual,
    );
    VolumeMetadata {
        instrument_name,
        institution: "NOAA/NWS".to_owned(),
        platform_type: Some(PlatformType::Fixed),
        latitude,
        longitude,
        altitude,
        altitude_agl,
        time_coverage_start,
        time_coverage_end,
        volume_number: 0,
        frequency: None,
        sweep_group_names: generate_sweep_names(num_sweeps),
        sweep_fixed_angles: fixed_angles(
            scan.sweeps.as_slice(),
            scan.coverage_pattern.elevation_cuts(),
        ),
        attributes: vcp_attributes(
            scan.coverage_pattern.number(),
            scan.coverage_pattern.description(),
        ),
        nexrad: Some(nexrad),
    }
}

/// Two volumes have the same NEXRAD attributes.
pub open spec fn same_volume_attrs(a: NexradVolumeAttrs, b: NexradVolumeAttrs) -> bool {
    &&& a.dynamic_scan_type@ == b.dynamic_scan_type@
    &&& a.mpda_vcp == b.mpda_vcp
    &&& a.base_tilt_vcp == b.base_tilt_vcp
    &&& a.num_base_tilts == b.num_base_tilts
    &&& a.vcp_truncated == b.vcp_truncated
    &&& a.vcp_sequence_active == b.vcp_sequence_active
    &&& a.number_elevation_cuts == b.number_elevation_cuts
    &&& a.doppler_velocity_resolution == b.doppler_velocity_resolution
    &&& a.vcp_pulse_width@ == b.vcp_pulse_width@
    &&& a.avset_enabled == b.avset_enabled
    &&& a.ebc_enabled == b.ebc_enabled
    &&& a.super_res_status == b.super_res_status
    &&& a.rda_build_number == b.rda_build_number
    &&& a.operational_mode == b.operational_mode
    &&& a.actual_elevation_cuts == b.actual_elevation_cuts
    &&& a.sweep_attrs@.len() == b.sweep_attrs@.len()
    &&& forall|i: int|
        0 <= i < a.sweep_attrs@.len() ==> (#[trigger] a.sweep_attrs@[i]).model()
            == b.sweep_attrs@[i].model()
    &&& a.sweep_time_ranges@ == b.sweep_time_ranges@
}

/// Two volumes have the same metadata but for the instrument's name, which a
/// file name may lend to a volume without a site.
pub open spec fn same_metadata(a: VolumeMetadata, b: VolumeMetadata) -> bool {
    &&& a.institution@ == b.institution@
    &&& a.platform_type == b.platform_type
    &&& a.latitude == b.latitude
    &&& a.longitude == b.longitude
    &&& a.altitude == b.altitude
    &&& a.altitude_agl == b.altitude_agl
    &&& a.time_coverage_start == b.time_coverage_start
    &&& a.time_coverage_end == b.time_coverage_end
    &&& a.volume_number == b.volume_number
    &&& a.frequency == b.frequency
    &&& a.sweep_group_names@.len() == b.sweep_group_names@.len()
    &&& forall|i: int|
        0 <= i < a.sweep_group_names@.len() ==> (#[trigger] a.sweep_group_names@[i])@
            == b.sweep_group_names@[i]@
    &&& a.sweep_fixed_angles@ == b.sweep_fixed_angles@
    &&& a.attributes@.len() == b.attributes@.len()
    &&& forall|i: int|
        0 <= i < a.attributes@.len() ==> (#[trigger] a.attributes@[i]).0@ == b.attributes@[i].0@
            && a.attributes@[i].1@ == b.attributes@[i].1@
    &&& match (a.nexrad, b.nexrad) {
        (Some(x), Some(y)) => same_volume_attrs(x, y),
        (None, None) => true,
        _ => false,
    }
}

proof fn lemma_same_times(a: Scan, b: Scan)
    requires
        sweep_models(a.sweeps@) == sweep_models(b.sweeps@),
    ensures
        a.sweeps@.len() == b.sweeps@.len(),
        forall|i: int|
            0 <= i < a.sweeps@.len() ==> (#[trigger] a.sweeps@[i]).model() == b.sweeps@[i].model(),
        forall|t: Timestamp| #[trigger] a.has_time(t) == b.has_time(t),
{
    let (x, y) = (sweep_models(a.sweeps@), sweep_models(b.sweeps@));
    assert(x.len() == a.sweeps@.len() && y.len() == b.sweeps@.len());
    assert forall|i: int| 0 <= i < a.sweeps@.len() implies (#[trigger] a.sweeps@[i]).model()
        == b.sweeps@[i].model() by {
        assert(x[i] == y[i]);
    }
    assert forall|t: Timestamp| #[trigger] a.has_time(t) == b.has_time(t) by {
        if a.has_time(t) {
            let k = choose|k: int|
                0 <= k < a.sweeps@.len() && (#[trigger] a.sweeps@[k]).has_time(t);
            lemma_same_model(a.sweeps@[k], b.sweeps@[k]);
            assert(b.sweeps@[k].has_time(t));
        }
        if b.has_time(t) {
            let k = choose|k: int|
                0 <= k < b.sweeps@.len() && (#[trigger] b.sweeps@[k]).has_time(t);
            lemma_same_model(a.sweeps@[k], b.sweeps@[k]);
            assert(a.sweeps@[k].has_time(t));
        }
    }
}

proof fn lemma_same_time_ranges(
    a: Seq<Option<(Timestamp, Timestamp)>>,
    b: Seq<Option<(Timestamp, Timestamp)>>,
    s: Seq<Sweep>,
    t: Seq<Sweep>,
)
    requires
        are_time_ranges(a, s),
        are_time_ranges(b, t),
        s.len() == t.len(),
        forall|i: int| 0 <= i < s.len() ==> (#[trigger] s[i]).model() == t[i].model(),
    ensures
        a == b,
{
    assert forall|i: int| 0 <= i < s.len() implies a[i] == b[i] by {
        let has_a = |x: Timestamp| s[i].has_time(x);
        let has_b = |x: Timestamp| t[i].has_time(x);
        assert(s[i].model() == t[i].model());
        lemma_same_model(s[i], t[i]);
        assert(is_time_range(a[i], has_a));
        assert(is_time_range(b[i], has_b));
        assert forall|x: Timestamp| #[trigger] has_a(x) == has_b(x) by {
            assert(s[i].has_time(x) == t[i].has_time(x));
        }
        time_ranges_are_unique(a[i], b[i], has_a, has_b);
    }
    assert(a =~= b);
}

proof fn lemma_same_coverage(m: VolumeMetadata, n: VolumeMetadata, a: Scan, b: Scan)
    requires
        sweep_models(a.sweeps@) == sweep_models(b.sweeps@),
        covers(m, a),
        covers(n, b),
    ensures
        m.time_coverage_start == n.time_coverage_start,
        m.time_coverage_end == n.time_coverage_end,
{
    lemma_same_times(a, b);
    let has_a = |t: Timestamp| a.has_time(t);
    let has_b = |t: Timestamp| b.has_time(t);
    assert forall|t: Timestamp| #[trigger] has_a(t) == has_b(t) by {
        assert(a.has_time(t) == b.has_time(t));
    }
    let x = Some((m.time_coverage_start, m.time_coverage_end));
    let y = Some((n.time_coverage_start, n.time_coverage_end));
    if is_time_range(x, has_a) {
        if is_time_range(y, has_b) {
            time_ranges_are_unique(x, y, has_a, has_b);
        } else {
            time_ranges_are_unique(x, None, has_a, has_b);
        }
    } else if is_time_range(y, has_b) {
        time_ranges_are_unique(None, y, has_a, has_b);
    }
}

/// The metadata of a volume is decided by its scan, its name also by the name
/// of the source.
pub proof fn metadata_is_decided_by_the_scan(
    m: VolumeMetadata,
    n: VolumeMetadata,
    a: Scan,
    b: Scan,
    source_m: Seq<char>,
    source_n: Seq<char>,
)
    requires
        same_scan(a, b),
        is_volume_metadata(m, a, source_m),
        is_volume_metadata(n, b, source_n),
    ensures
        same_metadata(m, n),
        source_m == source_n || a.site is Some ==> m.instrument_name@ == n.instrument_name@,
{
    lemma_same_times(a, b);
    lemma_same_coverage(m, n, a, b);
    let cuts = a.coverage_pattern.elevation_cuts@;
    assert forall|i: int| 0 <= i < m.sweep_fixed_angles@.len() implies m.sweep_fixed_angles@[i]
        == n.sweep_fixed_angles@[i] by {
        let (p, q) = (m.sweep_fixed_angles@[i], n.sweep_fixed_angles@[i]);
        let (s, t) = (a.sweeps@[i], b.sweeps@[i]);
        assert(s.model() == t.model());
        lemma_same_model(s, t);
        let cut = cut_at_index(cuts, i);
        assert(is_fixed_angle_or_missing(p, cut, s.elevations()));
        assert(is_fixed_angle_or_missing(q, cut, t.elevations()));
        let x = if is_fixed_angle(Some(p), cut, s.elevations()) {
            Some(p)
        } else {
            None
        };
        let y = if is_fixed_angle(Some(q), cut, s.elevations()) {
            Some(q)
        } else {
            None
        };
        lemma_one_fixed_angle(x, y, cut, s.elevations());
    }
    assert(m.sweep_fixed_angles@ =~= n.sweep_fixed_angles@);
    let (x, y) = (m.nexrad->0, n.nexrad->0);
    lemma_same_time_ranges(
        x.sweep_time_ranges@,
        y.sweep_time_ranges@,
        a.sweeps@,
        b.sweeps@,
    );
    assert(same_volume_attrs(x, y));
}

/// `r` is what converting sweep `idx` gives.
pub open spec fn is_sweep_result(
    r: Result<SweepData, RadishError>,
    sweep: Sweep,
    idx: int,
    cut: Option<ElevationCut>,
) -> bool {
    match r {
        Ok(d) => sweep_converts(sweep) && is_sweep_data(d, sweep, cut),
        Err(e) => !sweep_converts(sweep) && is_sweep_error(e, sweep, idx),
    }
}

/// `d` is a scan in the common data model.
pub open spec fn is_volume_data(d: VolumeData, scan: Scan, source_name: Seq<char>) -> bool {
    let cuts = scan.coverage_pattern.elevation_cuts@;
    &&& is_volume_metadata(d.metadata, scan, source_name)
    &&& d.sweeps@.len() == scan.sweeps@.len()
    &&& forall|i: int|
        0 <= i < scan.sweeps@.len() ==> is_sweep_data(
            #[trigger] d.sweeps@[i],
            scan.sweeps@[i],
            cut_at_index(cuts, i),
        )
}

/// Every sweep of the scan converts.
pub open spec fn scan_converts(scan: Scan) -> bool {
    forall|i: int| 0 <= i < scan.sweeps@.len() ==> sweep_converts(#[trigger] scan.sweeps@[i])
}

/// `e` is what is wrong with one of the sweeps that do not convert.
pub open spec fn is_scan_error(e: RadishError, scan: Scan) -> bool {
    exists|i: int|
        0 <= i < scan.sweeps@.len() && !sweep_converts(#[trigger] scan.sweeps@[i])
            && is_sweep_error(e, scan.sweeps@[i], i)
}

/// Convert a scan. Sweeps are converted in parallel; of several that fail any
/// one may be named.
pub fn convert_scan(scan: &Scan, source_name: &str) -> (r: Result<VolumeData, RadishError>)
    requires
        scan.wf(),
    ensures
        match r {
            Ok(d) => scan_converts(*scan) && is_volume_data(d, *scan, source_name@),
            Err(e) => !scan_converts(*scan) && is_scan_error(e, *scan),
        },
{
    let metadata = build_volume_metadata(scan, source_name);
    let cuts = scan.coverage_pattern.elevation_cuts();
    let convert = |idx: usize, sweep: &Sweep| -> (r: Result<SweepData, RadishError>)
        requires
            radials_wf(sweep.model().radials),
        ensures
            is_sweep_result(r, *sweep, idx as int, cut_at_index(cuts@, idx as int)),
        { convert_sweep(sweep, idx, nth_cut(cuts, idx)) };
    proof {
        let models = sweep_models(scan.sweeps@);
        assert(scan.sweeps@.len() == scan.sweeps.len());
        assert forall|j: int| 0 <= j < scan.sweeps@.len() implies radials_wf(
            (#[trigger] scan.sweeps@[j]).model().radials,
        ) by {
            assert(models[j] == scan.sweeps@[j].model());
        }
    }
    match par_enumerate_map(scan.sweeps.as_slice(), convert) {
        Ok(sweeps) => {
            proof {
                assert forall|j: int| 0 <= j < scan.sweeps@.len() implies is_sweep_result(
                    Ok(#[trigger] sweeps@[j]),
                    scan.sweeps@[j],
                    j,
                    cut_at_index(cuts@, j),
                ) by {
                    assert(call_ensures(convert, (j as usize, &scan.sweeps@[j]), Ok(sweeps@[j])));
                }
                assert forall|j: int| 0 <= j < scan.sweeps@.len() implies sweep_converts(
                    #[trigger] scan.sweeps@[j],
                ) by {
                    assert(is_sweep_result(
                        Ok(sweeps@[j]),
                        scan.sweeps@[j],
                        j,
                        cut_at_index(cuts@, j),
                    ));
                }
            }
            Ok(VolumeData { metadata, sweeps })
        },
        Err(e) => {
            proof {
                let j = choose|j: int|
                    0 <= j < scan.sweeps@.len() && is_sweep_result(
                        Err(e),
                        #[trigger] scan.sweeps@[j],
                        j,
                        cut_at_index(cuts@, j),
                    );
                assert(!sweep_converts(scan.sweeps@[j]));
            }
            Err(e)
        },
    }
}

/// The canonical geometry is that of one of the moments: no moment has more
/// gates, and none that follows has as many.
pub proof fn canonical_geometry_is_one_of_the_moments(
    present: Seq<(Product, MomentGeometry)>,
) -> (i: int)
    requires
        present.len() > 0,
    ensures
        0 <= i < present.len(),
        canonical_geometry(present) == present[i].1,
        forall|j: int|
            0 <= j < present.len() ==> (#[trigger] present[j]).1.gate_count
                <= present[i].1.gate_count,
        forall|j: int|
            i < j < present.len() ==> (#[trigger] present[j]).1.gate_count
                < present[i].1.gate_count,
    decreases present.len(),
{
    assert forall|j: int| 0 <= j < present.len() implies (#[trigger] present[j]).1.gate_count
        <= canonical_geometry(present).gate_count by {
        canonical_geometry_is_widest(present, j);
    }
    if present.len() == 1 {
        0
    } else {
        let before = canonical_geometry(present.drop_last());
        if present.last().1.gate_count >= before.gate_count {
            present.len() - 1
        } else {
            let i = canonical_geometry_is_one_of_the_moments(present.drop_last());
            assert forall|j: int| i < j < present.len() implies (#[trigger] present[j]).1.gate_count
                < present[i].1.gate_count by {
                if j < present.len() - 1 {
                    assert(present[j] == present.drop_last()[j]);
                }
            }
            i
        }
    }
}

/// A volume lies where its site does: the latitude is the site's latitude and
/// the longitude its longitude. The altitude is that of the antenna, the site's
/// height and the tower's together, and above ground it is the tower's.
pub proof fn volumes_lie_where_their_sites_do(m: VolumeMetadata, scan: Scan, source: Seq<char>)
    requires
        is_volume_metadata(m, scan, source),
    ensures
        match scan.site {
            Some(site) => {
                &&& m.latitude == Quantity::Single(site.latitude_degrees)
                &&& m.longitude == Quantity::Single(site.longitude_degrees)
                &&& m.altitude matches Quantity::Whole(h) && h == site.site_height_m
                    + site.tower_height_m
                &&& m.altitude_agl == Some(Quantity::Whole(site.tower_height_m as i64))
                &&& m.instrument_name@ == utf8_lossy(site.identifier@)
            },
            None => {
                &&& m.latitude == Quantity::Missing
                &&& m.longitude == Quantity::Missing
                &&& m.altitude == Quantity::Missing
                &&& m.altitude_agl is None
            },
        },
{
}

/// Sweep `i` has the commanded elevation of cut `i` of the coverage pattern, in
/// the volume's metadata and in its own, and the attributes of that cut. The
/// elevation is a multiple of 1/8192 degree; one turn is 65536 raw units, of
/// which the three lowest bits are left out.
pub proof fn sweeps_follow_the_cuts_of_the_same_index(
    v: VolumeData,
    scan: Scan,
    source: Seq<char>,
    i: int,
)
    requires
        is_volume_data(v, scan, source),
        0 <= i < scan.sweeps@.len(),
        i < scan.coverage_pattern.elevation_cuts@.len(),
    ensures
        v.sweeps@.len() == scan.sweeps@.len(),
        v.metadata.sweep_fixed_angles@.len() == scan.sweeps@.len(),
        ({
            let cut = scan.coverage_pattern.elevation_cuts@[i];
            let raw = cut.elevation_angle_raw;
            let q = v.metadata.sweep_fixed_angles@[i];
            &&& q matches Quantity::Of8192ths(a) && a * 65536 == (raw - raw % 8) * 360 * 8192
            &&& v.sweeps@[i].metadata.fixed_angle == q
            &&& v.metadata.nexrad is Some
            &&& v.metadata.nexrad->0.sweep_attrs@[i].model() == cut_attrs(cut)
            &&& v.sweeps@[i].metadata.nexrad is Some
            &&& v.sweeps@[i].metadata.nexrad->0.model() == cut_attrs(cut)
        }),
{
    let cuts = scan.coverage_pattern.elevation_cuts@;
    binary_angles_are_fractions_of_a_turn(cuts[i].elevation_angle_raw);
    assert(is_sweep_data(v.sweeps@[i], scan.sweeps@[i], cut_at_index(cuts, i)));
    assert(is_fixed_angle_or_missing(
        v.metadata.sweep_fixed_angles@[i],
        cut_at_index(cuts, i),
        scan.sweeps@[i].elevations(),
    ));
    assert(v.metadata.nexrad->0.sweep_attrs@[i].model() == sweep_attrs_at(cuts, i));
}

/// The metadata alone gives sweep `i` the commanded elevation and the attributes
/// of cut `i`.
pub proof fn metadata_follows_the_cuts_of_the_same_index(
    m: VolumeMetadata,
    scan: Scan,
    source: Seq<char>,
    i: int,
)
    requires
        is_volume_metadata(m, scan, source),
        0 <= i < scan.sweeps@.len(),
        i < scan.coverage_pattern.elevation_cuts@.len(),
    ensures
        m.sweep_fixed_angles@.len() == scan.sweeps@.len(),
        ({
            let cut = scan.coverage_pattern.elevation_cuts@[i];
            let raw = cut.elevation_angle_raw;
            &&& m.sweep_fixed_angles@[i] matches Quantity::Of8192ths(a) && a * 65536 == (raw - raw
                % 8) * 360 * 8192
            &&& m.nexrad is Some
            &&& m.nexrad->0.sweep_attrs@.len() == scan.sweeps@.len()
            &&& m.nexrad->0.sweep_attrs@[i].model() == cut_attrs(cut)
        }),
{
    let cuts = scan.coverage_pattern.elevation_cuts@;
    binary_angles_are_fractions_of_a_turn(cuts[i].elevation_angle_raw);
    assert(is_fixed_angle_or_missing(
        m.sweep_fixed_angles@[i],
        cut_at_index(cuts, i),
        scan.sweeps@[i].elevations(),
    ));
    assert(m.nexrad->0.sweep_attrs@[i].model() == sweep_attrs_at(cuts, i));
}

/// A converted sweep has the number that its radials give it. With a cut it has
/// the cut's elevation and attributes; without one the median of its radials'
/// elevations, and no attributes.
pub proof fn sweep_metadata_is_that_of_its_cut(
    d: SweepData,
    sweep: Sweep,
    cut: Option<ElevationCut>,
)
    requires
        is_sweep_data(d, sweep, cut),
    ensures
        d.metadata.sweep_number == sweep.elevation_number,
        d.metadata.sweep_mode == SweepMode::Azimuth,
        match cut {
            Some(c) => {
                let raw = c.elevation_angle_raw;
                &&& d.metadata.fixed_angle matches Quantity::Of8192ths(a) && a * 65536 == (raw - raw
                    % 8) * 360 * 8192
                &&& d.metadata.nexrad matches Some(a) && a.model() == cut_attrs(c)
            },
            None => {
                &&& d.metadata.nexrad is None
                &&& exists|m: MedianAngle| #[trigger]
                    is_median(Some(m), sweep.elevations()) && d.metadata.fixed_angle == (match m {
                        MedianAngle::Middle(x) => Quantity::Single(x),
                        MedianAngle::MeanOf(x, y) => Quantity::MeanOfSingles(x, y),
                    })
            },
        },
{
    match cut {
        Some(c) => {
            binary_angles_are_fractions_of_a_turn(c.elevation_angle_raw);
        },
        None => {
            let m = choose|m: Option<MedianAngle>|
                #[trigger] is_median(m, sweep.elevations()) && Some(d.metadata.fixed_angle) == (
                match m {
                    Some(m) => Some(median_quantity(m)),
                    None => None,
                });
            assert(is_median(Some(m->0), sweep.elevations()));
        },
    }
}

proof fn lemma_first_block(radials: Seq<RadialModel>, p: Product, i: int)
    requires
        0 <= i <= radials.len(),
    ensures
        match first_block(radials, p, i) {
            Some(b) => exists|j: int|
                {
                    &&& i <= j < radials.len()
                    &&& p.block(#[trigger] radials[j]) == Some(b)
                    &&& forall|h: int| i <= h < j ==> p.block(#[trigger] radials[h]) is None
                },
            None => forall|h: int|
                i <= h < radials.len() ==> p.block(#[trigger] radials[h]) is None,
        },
    decreases radials.len() - i,
{
    if i < radials.len() && p.block(radials[i]) is None {
        lemma_first_block(radials, p, i + 1);
    }
}

/// The geometry of a product is that of the first radial that carries it; a
/// product that no radial carries has none.
pub proof fn product_geometry_is_that_of_the_first_carrier(radials: Seq<RadialModel>, p: Product)
    ensures
        match product_geometry(radials, p) {
            Some(g) => exists|j: int|
                {
                    &&& 0 <= j < radials.len()
                    &&& p.block(#[trigger] radials[j]) is Some
                    &&& forall|h: int| 0 <= h < j ==> p.block(#[trigger] radials[h]) is None
                    &&& g.first_gate_m == p.block(radials[j])->0.descriptor.range_to_first_gate_m
                    &&& g.gate_interval_m == p.block(radials[j])->0.descriptor.gate_interval_m
                    &&& g.gate_count == p.block(radials[j])->0.descriptor.gate_count
                },
            None => forall|h: int|
                0 <= h < radials.len() ==> p.block(#[trigger] radials[h]) is None,
        },
{
    lemma_first_block(radials, p, 0);
}

/// Place of a product in a sweep.
pub open spec fn product_rank(p: Product) -> int {
    match p {
        Product::Reflectivity => 0,
        Product::Velocity => 1,
        Product::SpectrumWidth => 2,
        Product::DifferentialReflectivity => 3,
        Product::DifferentialPhase => 4,
        Product::CorrelationCoefficient => 5,
        Product::ClutterFilterPower => 6,
    }
}

#[verifier::rlimit(50)]
proof fn lemma_present_products(radials: Seq<RadialModel>, n: int)
    requires
        0 <= n <= 7,
    ensures
        ({
            let present = present_products(radials, n);
            &&& forall|k: int|
                0 <= k < present.len() ==> {
                    &&& product_rank((#[trigger] present[k]).0) < n
                    &&& product_geometry(radials, present[k].0) == Some(present[k].1)
                }
            &&& forall|j: int, k: int|
                0 <= j < k < present.len() ==> product_rank((#[trigger] present[j]).0)
                    < product_rank((#[trigger] present[k]).0)
            &&& forall|p: Product|
                product_rank(p) < n && #[trigger] product_geometry(radials, p) is Some
                    ==> present.contains((p, product_geometry(radials, p)->0))
        }),
    decreases n,
{
    if n > 0 {
        lemma_present_products(radials, n - 1);
        let before = present_products(radials, n - 1);
        let present = present_products(radials, n);
        let q = product_order()[n - 1];
        assert(product_rank(q) == n - 1);
        assert forall|p: Product|
            product_rank(p) < n && #[trigger] product_geometry(
                radials,
                p,
            ) is Some implies present.contains((p, product_geometry(radials, p)->0)) by {
            let x = (p, product_geometry(radials, p)->0);
            if product_rank(p) < n - 1 {
                let i = choose|i: int| 0 <= i < before.len() && before[i] == x;
                assert(present[i] == x);
            } else {
                assert(p == q);
                assert(present.last() == x);
            }
        }
    }
}

/// A sweep carries a product if some radial of it does, each once, in the order
/// reflectivity, velocity, spectrum width, differential reflectivity,
/// differential phase, correlation coefficient, clutter filter power.
pub proof fn sweeps_carry_what_their_radials_carry(radials: Seq<RadialModel>)
    ensures
        ({
            let present = present_products(radials, 7);
            &&& forall|k: int|
                0 <= k < present.len() ==> product_geometry(radials, (#[trigger] present[k]).0)
                    == Some(present[k].1)
            &&& forall|j: int, k: int|
                0 <= j < k < present.len() ==> product_rank((#[trigger] present[j]).0)
                    < product_rank((#[trigger] present[k]).0)
            &&& forall|p: Product, h: int|
                0 <= h < radials.len() && (#[trigger] p.block(radials[h])) is Some
                    ==> exists|k: int| 0 <= k < present.len() && (#[trigger] present[k]).0 == p
        }),
{
    lemma_present_products(radials, 7);
    let present = present_products(radials, 7);
    assert forall|p: Product, h: int|
        0 <= h < radials.len() && (#[trigger] p.block(radials[h])) is Some implies exists|k: int|
        0 <= k < present.len() && (#[trigger] present[k]).0 == p by {
        product_geometry_is_that_of_the_first_carrier(radials, p);
        let x = (p, product_geometry(radials, p)->0);
        assert(present.contains(x));
        let k = choose|k: int| 0 <= k < present.len() && present[k] == x;
        assert(present[k].0 == p);
    }
}

/// The range axis of a converted sweep is that of one moment, the widest, of
/// several as wide the last: its gates lie at its first range and at its
/// interval, and there are as many as it has.
#[verifier::rlimit(50)]
pub proof fn range_axis_is_that_of_the_widest_moment(
    d: SweepData,
    sweep: Sweep,
    cut: Option<ElevationCut>,
) -> (i: int)
    requires
        is_sweep_data(d, sweep, cut),
        present_products(sweep.model().radials, 7).len() > 0,
    ensures
        ({
            let present = present_products(sweep.model().radials, 7);
            let range = d.coordinates.range@;
            &&& 0 <= i < present.len()
            &&& range.len() == present[i].1.gate_count
            &&& forall|g: int|
                0 <= g < range.len() ==> #[trigger] range[g] == present[i].1.first_gate_m + g
                    * present[i].1.gate_interval_m
            &&& forall|j: int|
                0 <= j < present.len() ==> (#[trigger] present[j]).1.gate_count <= range.len()
            &&& forall|j: int|
                i < j < present.len() ==> (#[trigger] present[j]).1.gate_count < range.len()
            &&& forall|j: int|
                0 <= j < d.moments@.len() ==> (#[trigger] d.moments@[j]).data.cols == range.len()
        }),
{
    let present = present_products(sweep.model().radials, 7);
    let i = canonical_geometry_is_one_of_the_moments(present);
    let order = ray_order(d, sweep);
    let geom = present[i].1;
    assert(are_coordinates(d.coordinates, sweep.model().radials, order, geom));
    let range = d.coordinates.range@;
    assert forall|g: int| 0 <= g < range.len() implies #[trigger] range[g] == geom.first_gate_m + g
        * geom.gate_interval_m by {
        assert(0 <= g * geom.gate_interval_m <= 0xFFFF * 0xFFFF - 0xFFFF) by (nonlinear_arith)
            requires
                0 <= g <= 0xFFFE,
                0 <= geom.gate_interval_m <= 0xFFFF,
        ;
    }
    assert forall|j: int| 0 <= j < d.moments@.len() implies (#[trigger] d.moments@[j]).data.cols
        == range.len() by {
        assert(is_moment(
            d.moments@[j],
            sweep.model().radials,
            order,
            present[j].0,
            present[j].1,
            geom.gate_count as int,
        ));
    }
    i
}

/// What cell `g` of a row holds of a block: the raw word of gate `g`, one byte or
/// two, the first of which weighs 256. Nothing where the block has no such gate,
/// where the moment has fewer gates, or where the word is a reserved one.
pub open spec fn is_cell_of(
    cell: Option<u32>,
    b: Option<MomentModel>,
    gate_count: int,
    reserved: int,
    g: int,
) -> bool {
    match b {
        None => cell is None,
        Some(b) => {
            let two = b.descriptor.data_word_size_bits == 16;
            let len = b.gates.len() as int;
            let raw = if two {
                b.gates[2 * g] * 256 + b.gates[2 * g + 1]
            } else {
                b.gates[g] as int
            };
            let there = g < gate_count && (if two {
                2 * g + 1 < len
            } else {
                g < len
            });
            if there && raw >= reserved {
                cell matches Some(w) && w == raw
            } else {
                cell is None
            }
        },
    }
}

/// Ray `k` of a converted sweep is one radial throughout: its azimuth, elevation
/// and time, and in every moment the scaling and the cells of that radial's
/// block. Words 0 and 1 are reserved, and 2 as well for clutter filter power.
#[verifier::rlimit(50)]
pub proof fn every_ray_is_one_radial(
    d: SweepData,
    sweep: Sweep,
    cut: Option<ElevationCut>,
    k: int,
) -> (j: int)
    requires
        is_sweep_data(d, sweep, cut),
        radials_wf(sweep.model().radials),
        0 <= k < d.coordinates.azimuth@.len(),
    ensures
        ({
            let radials = sweep.model().radials;
            let present = present_products(radials, 7);
            let r = radials[j];
            &&& 0 <= j < radials.len()
            &&& d.coordinates.azimuth@.len() == radials.len()
            &&& d.coordinates.elevation@.len() == radials.len()
            &&& d.coordinates.time@.len() == radials.len()
            &&& d.coordinates.azimuth@[k] == r.azimuth_angle_degrees
            &&& d.coordinates.elevation@[k] == r.elevation_angle_degrees
            &&& d.coordinates.time@[k] == r.collection_time
            &&& d.moments@.len() == present.len()
            &&& forall|m: int|
                0 <= m < present.len() ==> {
                    let b = present[m].0.block(r);
                    &&& (#[trigger] d.moments@[m]).data.rows == radials.len()
                    &&& d.moments@[m].scaling@[k] == (match b {
                        Some(b) => Some(
                            RowScaling { scale: b.descriptor.scale, offset: b.descriptor.offset },
                        ),
                        None => None,
                    })
                    &&& forall|g: int|
                        0 <= g < d.moments@[m].data.cols ==> is_cell_of(
                            #[trigger] d.moments@[m].data.cell(k, g),
                            b,
                            present[m].1.gate_count as int,
                            if present[m].0 == Product::ClutterFilterPower {
                                3
                            } else {
                                2
                            },
                            g,
                        )
                }
        }),
{
    let radials = sweep.model().radials;
    let present = present_products(radials, 7);
    let canonical = canonical_geometry(present);
    let order = ray_order(d, sweep);
    let j = order[k] as int;
    let r = radials[j];
    assert(order[k] < radials.len());
    assert forall|m: int| 0 <= m < present.len() implies {
        let b = present[m].0.block(r);
        &&& (#[trigger] d.moments@[m]).data.rows == radials.len()
        &&& d.moments@[m].scaling@[k] == row_scaling(present[m].0, r)
        &&& forall|g: int|
            0 <= g < d.moments@[m].data.cols ==> is_cell_of(
                #[trigger] d.moments@[m].data.cell(k, g),
                b,
                present[m].1.gate_count as int,
                if present[m].0 == Product::ClutterFilterPower {
                    3
                } else {
                    2
                },
                g,
            )
    } by {
        let moment = d.moments@[m];
        let (p, geom) = present[m];
        assert(is_moment(moment, radials, order, p, geom, canonical.gate_count as int));
        assert(moment.data.row_holds(
            k,
            radial_cells(p, radials[order[k] as int]),
            geom.gate_count as int,
        ));
        assert(r.wf());
        assert forall|g: int| 0 <= g < moment.data.cols implies is_cell_of(
            #[trigger] moment.data.cell(k, g),
            p.block(r),
            geom.gate_count as int,
            if p == Product::ClutterFilterPower {
                3
            } else {
                2
            },
            g,
        ) by {
            if let Some(b) = p.block(r) {
                assert(b.descriptor.wf());
                gate_words_are_big_endian(b.gates, g);
                assert(b.descriptor.word_bytes() == (if b.descriptor.data_word_size_bits == 16 {
                    2int
                } else {
                    1
                }));
            }
        }
    }
    j
}

/// The moment of a product carries the product's name and CF attributes, and its
/// raw words as they were transmitted, without a factor or an offset.
pub proof fn moments_carry_their_names_and_units(
    d: SweepData,
    sweep: Sweep,
    cut: Option<ElevationCut>,
    m: int,
)
    requires
        is_sweep_data(d, sweep, cut),
        0 <= m < d.moments@.len(),
    ensures
        ({
            let moment = d.moments@[m];
            let is = |name: &str, units: &str, standard: &str, long: &str|
                moment.name@ == name@ && moment.units@ == units@ && moment.standard_name@
                    == standard@ && moment.long_name@ == long@;
            &&& moment.fill_value == Quantity::Missing
            &&& moment.scale_factor == Quantity::Whole(1)
            &&& moment.add_offset == Quantity::Whole(0)
            &&& match present_products(sweep.model().radials, 7)[m].0 {
                Product::Reflectivity => is(
                    "DBZH",
                    "dBZ",
                    "radar_equivalent_reflectivity_factor_h",
                    "Equivalent reflectivity factor H",
                ),
                Product::Velocity => is(
                    "VRADH",
                    "meters per seconds",
                    "radial_velocity_of_scatterers_away_from_instrument_h",
                    "Radial velocity of scatterers away from instrument H",
                ),
                Product::SpectrumWidth => is(
                    "WRADH",
                    "meters per seconds",
                    "radar_doppler_spectrum_width_h",
                    "Doppler spectrum width H",
                ),
                Product::DifferentialReflectivity => is(
                    "ZDR",
                    "dB",
                    "radar_differential_reflectivity_hv",
                    "Log differential reflectivity H/V",
                ),
                Product::DifferentialPhase => is(
                    "PHIDP",
                    "degrees",
                    "radar_differential_phase_hv",
                    "Differential phase HV",
                ),
                Product::CorrelationCoefficient => is(
                    "RHOHV",
                    "unitless",
                    "radar_correlation_coefficient_hv",
                    "Correlation coefficient HV",
                ),
                Product::ClutterFilterPower => is(
                    "CCORH",
                    "unitless",
                    "clutter_correction_h",
                    "Clutter Correction H",
                ),
            }
        }),
{
    let radials = sweep.model().radials;
    let present = present_products(radials, 7);
    let canonical = canonical_geometry(present);
    assert(is_moment(
        d.moments@[m],
        radials,
        ray_order(d, sweep),
        present[m].0,
        present[m].1,
        canonical.gate_count as int,
    ));
}

/// A volume names its coverage pattern three times: as `VCP-` and its number, as
/// the number alone, and by what it is for.
pub proof fn volumes_name_their_coverage_pattern(m: VolumeMetadata, scan: Scan, source: Seq<char>)
    requires
        is_volume_metadata(m, scan, source),
    ensures
        ({
            let number = scan.coverage_pattern.pattern_number as nat;
            let a = m.attributes@;
            &&& a.len() == 3
            &&& a[0].0@ == "scan_name"@ && a[0].1@ == "VCP-"@ + decimal(number)
            &&& a[1].0@ == "vcp"@ && a[1].1@ == decimal(number)
            &&& digits_value(a[1].1@) == number
            &&& a[2].0@ == "vcp_description"@
            &&& a[2].1@ == vcp_description(scan.coverage_pattern.pattern_number)
            &&& m.institution@ == "NOAA/NWS"@
            &&& m.platform_type == Some(PlatformType::Fixed)
            &&& m.volume_number == 0
            &&& m.frequency is None
        }),
{
    decimal_denotes_its_number(scan.coverage_pattern.pattern_number as nat);
}

/// The time coverage of a volume is the range of its radials' collection times:
/// no radial was collected before its start or behind its end, and one was at
/// either. Without any it is the start of 1970.
pub proof fn time_coverage_is_that_of_the_radials(m: VolumeMetadata, scan: Scan, source: Seq<char>)
    requires
        is_volume_metadata(m, scan, source),
    ensures
        ({
            let (start, end) = (m.time_coverage_start, m.time_coverage_end);
            &&& forall|t: Timestamp| #[trigger]
                scan.has_time(t) ==> start.at_or_before(t) && t.at_or_before(end)
            &&& (exists|t: Timestamp| #[trigger] scan.has_time(t)) ==> scan.has_time(start)
                && scan.has_time(end)
            &&& (forall|t: Timestamp| !#[trigger] scan.has_time(t)) ==> start.secs == 0
                && start.nanos == 0 && end.secs == 0 && end.nanos == 0
        }),
{
    let has = |t: Timestamp| scan.has_time(t);
    assert forall|t: Timestamp| #[trigger] scan.has_time(t) == has(t) by {}
    if is_time_range(None, has) {
        assert forall|t: Timestamp| !#[trigger] scan.has_time(t) by {
            assert(has(t) == false);
        }
        if is_time_range(Some((m.time_coverage_start, m.time_coverage_end)), has) {
            assert(has(m.time_coverage_start));
        }
    } else {
        assert(has(m.time_coverage_start) && has(m.time_coverage_end));
    }
}

/// The rays of a converted sweep go from smaller azimuths to larger ones, those
/// without a number in front.
pub proof fn azimuths_of_rays_ascend_as_numbers(
    d: SweepData,
    sweep: Sweep,
    cut: Option<ElevationCut>,
    i: int,
    j: int,
)
    requires
        is_sweep_data(d, sweep, cut),
        0 <= i < j < d.coordinates.azimuth@.len(),
    ensures
        ({
            let (a, b) = (d.coordinates.azimuth@[i], d.coordinates.azimuth@[j]);
            &&& finite(a) && finite(b) ==> scaled(a) <= scaled(b)
            &&& nan(b) ==> nan(a)
        }),
{
    rays_ascend_by_azimuth(d, sweep, cut, i, j);
    ray_keys_order_numbers(d.coordinates.azimuth@[i], d.coordinates.azimuth@[j]);
    ray_keys_order_numbers(d.coordinates.azimuth@[j], d.coordinates.azimuth@[i]);
}

/// The upper median of elevations stands in the middle of their ascending
/// arrangement, at the upper of the two places where their number is even.
pub proof fn upper_medians_stand_in_the_middle(q: Quantity, angles: Seq<u32>)
    requires
        is_upper_median(q, angles),
    ensures
        q == Quantity::Missing <==> angles.len() == 0,
        angles.len() > 0 ==> exists|sorted: Seq<u32>, k: int|
            {
                &&& #[trigger] is_ascending_arrangement(sorted, angles)
                &&& 2 * k <= angles.len() <= 2 * k + 1
                &&& q == Quantity::Single(#[trigger] sorted[k])
            },
{
    if angles.len() > 0 {
        let order = choose|order: Seq<usize>|
            #[trigger] is_stable_order(order, angle_keys(angles)) && q == Quantity::Single(
                angles[order[angles.len() as int / 2] as int],
            );
        key_order_arranges_by_number(angles, order);
        let sorted = Seq::new(order.len(), |k: int| angles[order[k] as int]);
        let k = angles.len() as int / 2;
        assert(is_ascending_arrangement(sorted, angles) && q == Quantity::Single(sorted[k]));
    }
}

/// The attributes of a volume are those of its coverage pattern and of its
/// status, by their bits; the cuts that were made are its sweeps.
pub proof fn volume_attributes_are_those_of_pattern_and_status(
    m: VolumeMetadata,
    scan: Scan,
    source: Seq<char>,
)
    requires
        is_volume_metadata(m, scan, source),
    ensures
        m.nexrad is Some,
        ({
            let a = m.nexrad->0;
            let vcp = scan.coverage_pattern;
            let (s, q) = (vcp.vcp_supplemental as int, vcp.vcp_sequencing as int);
            &&& a.mpda_vcp == ((s / 2048) % 2 == 1)
            &&& a.base_tilt_vcp == ((s / 4096) % 2 == 1)
            &&& a.num_base_tilts == s / 8192
            &&& a.vcp_truncated == ((q / 16384) % 2 == 1)
            &&& a.vcp_sequence_active == ((q / 8192) % 2 == 1)
            &&& vcp.number_of_elevation_cuts <= 255 ==> a.number_elevation_cuts
                == vcp.number_of_elevation_cuts
            &&& a.vcp_pulse_width@ == pulse_width_label(vcp.pulse_width)
            &&& scan.sweeps@.len() < 0x1_0000_0000 ==> a.actual_elevation_cuts
                == scan.sweeps@.len()
            &&& match scan.rda_status {
                Some(status) => {
                    let flags = status.rda_scan_and_data_flags as int;
                    &&& a.avset_enabled == ((flags / 2) % 2 == 1)
                    &&& a.ebc_enabled == ((flags / 8) % 2 == 1)
                    &&& a.super_res_status == status.super_resolution_status
                    &&& a.rda_build_number == status.rda_build_number
                    &&& a.operational_mode == status.operational_mode
                },
                None => {
                    &&& !a.avset_enabled && !a.ebc_enabled
                    &&& a.super_res_status == 0
                    &&& a.rda_build_number == 0
                    &&& a.operational_mode == 0
                },
            }
        }),
{
    let n = (scan.sweeps@.len() as int % 0x1_0000_0000) as u32;
    match scan.rda_status {
        Some(status) => {
            volume_flags_are_bits(
                m.nexrad->0,
                scan.coverage_pattern,
                Some(&status),
                scan.sweeps@,
                n,
            );
        },
        None => {
            volume_flags_are_bits(m.nexrad->0, scan.coverage_pattern, None, scan.sweeps@, n);
        },
    }
}

/// The time range of sweep `i` is that of its own radials: none was collected
/// before its start or behind its end, and one was at either.
#[verifier::rlimit(50)]
pub proof fn time_ranges_are_those_of_the_sweeps(
    m: VolumeMetadata,
    scan: Scan,
    source: Seq<char>,
    i: int,
    j: int,
    t: Timestamp,
)
    requires
        is_volume_metadata(m, scan, source),
        0 <= i < scan.sweeps@.len(),
        0 <= j < scan.sweeps@[i].radials@.len(),
        scan.sweeps@[i].radials@[j].collection_time == Some(t),
    ensures
        m.nexrad is Some,
        m.nexrad->0.sweep_time_ranges@.len() == scan.sweeps@.len(),
        m.nexrad->0.sweep_time_ranges@[i] matches Some((start, end)) && {
            &&& start.at_or_before(t) && t.at_or_before(end)
            &&& exists|k: int|
                0 <= k < scan.sweeps@[i].radials@.len() && (
                #[trigger] scan.sweeps@[i].radials@[k]).collection_time == Some(start)
            &&& exists|k: int|
                0 <= k < scan.sweeps@[i].radials@.len() && (
                #[trigger] scan.sweeps@[i].radials@[k]).collection_time == Some(end)
        },
        m.time_coverage_start.at_or_before(t) && t.at_or_before(m.time_coverage_end),
{
    let sweeps = scan.sweeps@;
    let ranges = m.nexrad->0.sweep_time_ranges@;
    let has = |t: Timestamp| sweeps[i].has_time(t);
    assert(are_time_ranges(ranges, sweeps));
    assert(is_time_range(ranges[i], has));
    assert(sweeps[i].has_time(t));
    assert(has(t));
    if let Some((start, end)) = ranges[i] {
        assert(has(start) && has(end));
    }
    time_coverage_is_that_of_the_radials(m, scan, source);
    assert(scan.has_time(t));
}

/// Without a site the instrument is named after the four letters in front of a
/// canonical file name, and `UNKN` otherwise.
pub proof fn instruments_without_a_site_go_by_the_file_name(
    m: VolumeMetadata,
    scan: Scan,
    source: Seq<char>,
)
    requires
        is_volume_metadata(m, scan, source),
        scan.site is None,
    ensures
        is_canonical_name(source) ==> m.instrument_name@.len() == 4 && forall|i: int|
            0 <= i < 4 ==> #[trigger] m.instrument_name@[i] == source[i],
        !is_canonical_name(source) ==> m.instrument_name@ == "UNKN"@,
{
}

/// A sweep converts if some radial of it carries a moment, unless it has more
/// cells than can be counted; one without radials or without moments does not,
/// and the error names it by its index.
#[verifier::rlimit(50)]
pub proof fn sweeps_with_a_moment_convert(sweep: Sweep)
    ensures
        ({
            let radials = sweep.model().radials;
            let carried = exists|p: Product, h: int|
                0 <= h < radials.len() && (#[trigger] p.block(radials[h])) is Some;
            &&& sweep_converts(sweep) ==> carried
            &&& carried && radials.len() * 0xFFFF <= isize::MAX ==> sweep_converts(sweep)
        }),
{
    let radials = sweep.model().radials;
    let present = present_products(radials, 7);
    sweeps_carry_what_their_radials_carry(radials);
    if sweep_converts(sweep) {
        let p = present[0].0;
        assert(product_geometry(radials, p) == Some(present[0].1));
        product_geometry_is_that_of_the_first_carrier(radials, p);
        let h = choose|h: int| 0 <= h < radials.len() && p.block(#[trigger] radials[h]) is Some;
        assert(p.block(radials[h]) is Some);
    }
    if exists|p: Product, h: int|
        0 <= h < radials.len() && (#[trigger] p.block(radials[h])) is Some {
        let (p, h) = choose|p: Product, h: int|
            0 <= h < radials.len() && (#[trigger] p.block(radials[h])) is Some;
        assert(present.len() > 0);
        let n = canonical_geometry(present).gate_count as int;
        let rows = radials.len() as int;
        if rows * 0xFFFF <= isize::MAX {
            shapes_fit_if_their_cells_can_be_counted(rows, n);
            assert(rows * n <= rows * 0xFFFF) by (nonlinear_arith)
                requires
                    0 <= n <= 0xFFFF,
                    rows >= 0,
            ;
        }
    }
}

/// A sweep that does not convert is named by its index.
pub proof fn sweep_errors_name_the_sweep(e: RadishError, sweep: Sweep, idx: int)
    requires
        idx >= 0,
        is_sweep_error(e, sweep, idx),
        present_products(sweep.model().radials, 7).len() == 0,
    ensures
        e matches RadishError::MalformedRecord { offset, msg } && {
            &&& offset == 0
            &&& sweep.model().radials.len() == 0 ==> msg@ == "sweep "@ + decimal(idx as nat)
                + " has no radials"@
            &&& sweep.model().radials.len() > 0 ==> msg@ == "sweep "@ + decimal(idx as nat)
                + " has no supported moments"@
        },
{
}

/// A sweep behind the last cut has, in the volume's metadata, the median of its
/// own radials' elevations: the middle one of their ascending arrangement, or the
/// mean of the two middle ones. Without radials it has none.
#[verifier::rlimit(50)]
pub proof fn sweeps_behind_the_cuts_have_their_median(
    m: VolumeMetadata,
    scan: Scan,
    source: Seq<char>,
    i: int,
)
    requires
        is_volume_metadata(m, scan, source),
        scan.coverage_pattern.elevation_cuts@.len() <= i < scan.sweeps@.len(),
    ensures
        ({
            let radials = scan.sweeps@[i].radials@;
            let angles = Seq::new(radials.len(), |k: int| radials[k].elevation_angle_degrees);
            let n = angles.len() as int;
            match m.sweep_fixed_angles@[i] {
                Quantity::Single(a) => exists|sorted: Seq<u32>, k: int|
                    {
                        &&& #[trigger] is_ascending_arrangement(sorted, angles)
                        &&& n == 2 * k + 1 && a == #[trigger] sorted[k]
                    },
                Quantity::MeanOfSingles(a, b) => exists|sorted: Seq<u32>, k: int|
                    {
                        &&& #[trigger] is_ascending_arrangement(sorted, angles)
                        &&& n == 2 * k + 2 && a == #[trigger] sorted[k] && b == sorted[k + 1]
                    },
                Quantity::Missing => n == 0,
                _ => false,
            }
        }),
{
    let cuts = scan.coverage_pattern.elevation_cuts@;
    let sweep = scan.sweeps@[i];
    let radials = sweep.radials@;
    let angles = Seq::new(radials.len(), |k: int| radials[k].elevation_angle_degrees);
    assert(sweep.elevations() =~= angles);
    let q = m.sweep_fixed_angles@[i];
    assert(is_fixed_angle_or_missing(q, cut_at_index(cuts, i), angles));
    let found = if is_fixed_angle(Some(q), None, angles) {
        Some(q)
    } else {
        None
    };
    let median = choose|x: Option<MedianAngle>|
        #[trigger] is_median(x, angles) && found == (match x {
            Some(x) => Some(median_quantity(x)),
            None => None,
        });
    medians_stand_in_the_middle(median, angles);
}

} // verus!
