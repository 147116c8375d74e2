use radish::backends::common::coords::assemble_ppi_coordinates;
use radish::time::Timestamp;

struct Ray {
    az: f32,
    el: f32,
    t: i64,
}

fn at(secs: i64) -> Option<Timestamp> {
    Some(Timestamp { secs, nanos: 0 })
}

#[test]
fn assemble_uses_sort_order_for_each_axis() {
    let rays = vec![
        Ray {
            az: 90.0,
            el: 1.0,
            t: 100,
        },
        Ray {
            az: 10.0,
            el: 1.5,
            t: 110,
        },
        Ray {
            az: 50.0,
            el: 2.0,
            t: 120,
        },
    ];
    let order = vec![1, 2, 0];
    let range_axis = vec![1000, 1100, 1200];

    let coords = assemble_ppi_coordinates(
        &rays,
        &order,
        range_axis.clone(),
        |r: &Ray| r.az.to_bits(),
        |r: &Ray| r.el.to_bits(),
        |r: &Ray| at(r.t),
    );
    let degrees = |bits: &[u32]| bits.iter().map(|b| f32::from_bits(*b)).collect::<Vec<f32>>();
    assert_eq!(degrees(&coords.azimuth), vec![10.0, 50.0, 90.0]);
    assert_eq!(degrees(&coords.elevation), vec![1.5, 2.0, 1.0]);
    assert_eq!(coords.time, vec![at(110), at(120), at(100)]);
    assert_eq!(coords.range, range_axis);
}
