use radish::backends::common::sort::{
    angle_order, ray_key_of, sort_indices_by_key, stable_order,
};

#[test]
fn sort_indices_by_f32_key() {
    let items = vec![3.5_f32, 1.0, 2.5, 0.5];
    let order = sort_indices_by_key(&items, |x: &f32| ray_key_of(x.to_bits()));
    assert_eq!(order, vec![3, 1, 2, 0]);
}

#[test]
fn sort_indices_handles_empty() {
    let items: Vec<f32> = vec![];
    let order = sort_indices_by_key(&items, |x: &f32| ray_key_of(x.to_bits()));
    assert!(order.is_empty());
}

#[test]
fn sort_indices_with_nan_does_not_panic_and_preserves_indices() {
    let items = vec![3.0_f32, f32::NAN, 1.0, f32::NAN, 2.0];
    let order = sort_indices_by_key(&items, |x: &f32| ray_key_of(x.to_bits()));
    assert_eq!(order.len(), items.len());
    let mut seen: Vec<usize> = order.clone();
    seen.sort();
    assert_eq!(seen, (0..items.len()).collect::<Vec<_>>());
}

#[test]
fn equal_keys_keep_their_order() {
    assert_eq!(stable_order(&[5, 1, 5, 1, 0]), vec![4, 1, 3, 0, 2]);
    assert_eq!(stable_order(&[]), Vec::<usize>::new());
}

#[test]
fn angles_sort_as_numbers_with_nan_last() {
    let angles: Vec<u32> = [0.0_f32, -0.0, f32::NAN, -1.5, 359.9, f32::NEG_INFINITY]
        .iter()
        .map(|a| a.to_bits())
        .collect();
    assert_eq!(angle_order(&angles), vec![5, 3, 0, 1, 4, 2]);
}

#[test]
fn rays_with_missing_angles_come_first() {
    let items = vec![3.0_f32, f32::NAN, 1.0, -f32::NAN, 2.0];
    let order = sort_indices_by_key(&items, |x: &f32| ray_key_of(x.to_bits()));
    assert_eq!(order, vec![1, 3, 2, 4, 0]);
}
