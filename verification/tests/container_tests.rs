use vorpal::array2d::Array2D;
use vorpal::ndarray::NdArray;

#[test]
fn ndarray_zeros_has_the_product_length() {
    let a: NdArray<u32> = NdArray::zeros(vec![2, 3, 4]);
    assert_eq!(a.len(), 24);
    assert_eq!(a.shape(), &[2, 3, 4]);
    assert!(a.data().iter().all(|x| *x == 0));
}

#[test]
fn ndarray_calc_index_walks_row_major() {
    let a: NdArray<u8> = NdArray::zeros(vec![2, 3, 4]);
    assert_eq!(a.calc_index(&[0, 0, 0]), Some(0));
    assert_eq!(a.calc_index(&[0, 0, 1]), Some(1));
    assert_eq!(a.calc_index(&[0, 1, 0]), Some(4));
    assert_eq!(a.calc_index(&[1, 0, 0]), Some(12));
    assert_eq!(a.calc_index(&[1, 2, 3]), Some(23));
    assert_eq!(a.calc_index_or_panic(&[1, 2, 3]), 23);
}

#[test]
fn ndarray_rejects_out_of_range_coordinates() {
    let a: NdArray<u8> = NdArray::zeros(vec![2, 3]);
    assert_eq!(a.calc_index(&[0, 4]), None);
    assert_eq!(a.calc_index(&[3, 0]), None);
}

#[test]
fn ndarray_data_mut_changes_are_visible() {
    let mut a: NdArray<u32> = NdArray::zeros(vec![2, 2]);
    a.data_mut()[3] = 9;
    assert_eq!(a.data()[3], 9);
}

#[test]
fn array2d_shape_and_cells() {
    let mut a: Array2D<u32> = Array2D::new(4, 3);
    assert_eq!(a.width(), 4);
    assert_eq!(a.height(), 3);
    assert_eq!(a.data().len(), 12);
    a.set((2, 1), 7);
    assert_eq!(*a.get((2, 1)), 7);
    assert_eq!(a.data()[2 + 1 * 4], 7);
}

#[test]
fn array2d_from_array_keeps_the_buffer() {
    let a = Array2D::from_array(2, vec![1u8, 2, 3, 4, 5, 6]);
    assert_eq!(a.width(), 2);
    assert_eq!(a.height(), 3);
    assert_eq!(*a.get((1, 2)), 6);
}

#[test]
fn array2d_data_mut_changes_are_visible() {
    let mut a: Array2D<i64> = Array2D::new(2, 2);
    a.data_mut()[0] = -5;
    assert_eq!(a.data()[0], -5);
}
