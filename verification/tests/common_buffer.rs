use radish::backends::common::buffer::{decode_into_array, CellArray};

fn cell<C: Copy>(a: &CellArray<C>, row: usize, col: usize) -> Option<C> {
    a.cells[row * a.cols + col]
}

#[test]
fn untouched_cells_stay_nan() {
    let items = vec![1u8, 2, 3];
    let order = vec![2, 0, 1];
    let arr = decode_into_array(&items, &order, 3, 5, |&v: &u8| vec![Some(u32::from(v)); 3])
        .unwrap();
    assert_eq!((arr.rows, arr.cols), (3, 5));
    assert_eq!(cell(&arr, 0, 0), Some(3));
    assert_eq!(cell(&arr, 0, 1), Some(3));
    assert_eq!(cell(&arr, 0, 2), Some(3));
    assert!(cell(&arr, 0, 3).is_none());
    assert!(cell(&arr, 0, 4).is_none());
    assert_eq!(cell(&arr, 1, 0), Some(1));
    assert_eq!(cell(&arr, 2, 0), Some(2));
}

#[test]
fn empty_order_produces_zero_row_array() {
    let items: Vec<u8> = vec![];
    let order: Vec<usize> = vec![];
    let arr = decode_into_array(&items, &order, 0, 5, |_: &u8| Vec::<Option<u32>>::new()).unwrap();
    assert_eq!((arr.rows, arr.cols), (0, 5));
    assert!(arr.cells.is_empty());
}

#[test]
fn closure_decides_how_to_fill_each_cell() {
    let items = vec!["a", "b"];
    let order = vec![0, 1];
    let arr = decode_into_array(&items, &order, 4, 4, |_: &&str| {
        (0..4u32).map(Some).collect::<Vec<_>>()
    })
    .unwrap();
    assert_eq!(cell(&arr, 0, 0), Some(0));
    assert_eq!(cell(&arr, 0, 3), Some(3));
    assert_eq!(cell(&arr, 1, 0), Some(0));
    assert_eq!(cell(&arr, 1, 3), Some(3));
}

#[test]
fn values_past_the_gates_of_a_moment_are_dropped() {
    let items = vec![(), ()];
    let arr = decode_into_array(&items, &[1, 0], 2, 3, |_: &()| vec![Some(7u32), None, Some(9)])
        .unwrap();
    assert_eq!(arr.cells, vec![Some(7), None, None, Some(7), None, None]);
}
