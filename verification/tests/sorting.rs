use dstructs::sorting::{calc_prefix_sum, create_count_arr, max_elem};

#[test]
fn max_elem_of_sample() {
    let array: [usize; 5] = [10, 100, 1000, 500, 200];
    assert_eq!(max_elem(&array), 1000);
}

#[test]
fn max_elem_of_empty_is_zero() {
    let array: [usize; 0] = [];
    assert_eq!(max_elem(&array), 0);
}

#[test]
fn max_elem_of_equal_values() {
    let array: [usize; 3] = [7, 7, 7];
    assert_eq!(max_elem(&array), 7);
}

#[test]
fn count_arr_of_unit_digits() {
    let arr: [usize; 6] = [1, 2, 2, 3, 12, 22];
    let counts = create_count_arr(&arr, 6, 6, 1);
    // Digits mod 6 of the elements: 1, 2, 2, 3, 0, 4.
    assert_eq!(counts, vec![1, 1, 2, 1, 1, 0]);
}

#[test]
fn count_arr_of_tens_digits() {
    let arr: [usize; 5] = [10, 100, 1000, 500, 200];
    let counts = create_count_arr(&arr, 5, 5, 10);
    // (x / 10) % 5 of the elements: 1, 0, 0, 0, 0.
    assert_eq!(counts, vec![4, 1, 0, 0, 0]);
}

#[test]
fn prefix_sum_of_sample() {
    let arr: [usize; 5] = [10, 100, 1000, 500, 200];
    assert_eq!(calc_prefix_sum(&arr, 5), vec![10, 110, 1110, 1610, 1810]);
}

#[test]
fn prefix_sum_of_single_element() {
    let arr: [usize; 1] = [9];
    assert_eq!(calc_prefix_sum(&arr, 1), vec![9]);
}
