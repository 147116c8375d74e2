use radish::backends::common::geometry::{build_range_axis, MomentGeometry};

#[test]
fn build_range_axis_starts_at_first_gate_and_steps_correctly() {
    let geom = MomentGeometry {
        first_gate_m: 2000,
        gate_interval_m: 250,
        gate_count: 4,
    };
    assert_eq!(build_range_axis(&geom), vec![2000, 2250, 2500, 2750]);
}

#[test]
fn build_range_axis_handles_zero_count() {
    let geom = MomentGeometry {
        first_gate_m: 1000,
        gate_interval_m: 500,
        gate_count: 0,
    };
    assert_eq!(build_range_axis(&geom), Vec::<u32>::new());
}
