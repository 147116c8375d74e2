use radish::backends::common::parallel::{par_enumerate_map, par_map};

#[test]
fn par_map_preserves_order_and_short_circuits() {
    let items = vec![1, 2, 3, 4, 5];
    let out: Result<Vec<i32>, &'static str> =
        par_map(&items, |x: &i32| if *x == 4 { Err("boom") } else { Ok(x * 2) });
    assert_eq!(out, Err("boom"));

    let ok: Result<Vec<i32>, &'static str> = par_map(&items, |x: &i32| Ok(x * 2));
    assert_eq!(ok, Ok(vec![2, 4, 6, 8, 10]));
}

#[test]
fn par_enumerate_map_passes_index() {
    let items = vec!["a", "b", "c"];
    let out: Result<Vec<String>, &'static str> =
        par_enumerate_map(&items, |idx: usize, item: &&str| Ok(format!("{idx}:{item}")));
    assert_eq!(
        out,
        Ok(vec![
            "0:a".to_string(),
            "1:b".to_string(),
            "2:c".to_string()
        ])
    );
}
