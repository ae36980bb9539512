use zknn_circuit::activation::relu_vec;
use zknn_circuit::lenet_large::{
    flatten, max_pool2d, predicted_class, quantized_conv2d_accumulators, quantized_fc_accumulators, relu,
    vector1d_from_lines, vector2d_from_lines, vector4d_from_lines,
};

fn lines(text: &str) -> Vec<Vec<char>> {
    text.lines().map(|l| l.chars().collect()).collect()
}

#[test]
fn one_value_per_line() {
    let values = vector1d_from_lines(&lines("  12 \n\n7\n1 2\n+3\n300\n\u{3000}9\u{2029}"));
    assert_eq!(values, vec![12u8, 7, 3, 9]);
}

#[test]
fn matrix_from_lines_keeps_the_count_of_all_values() {
    let (data, count) = vector2d_from_lines(&lines("1\n2\n3\n4\n5"), 2, 2);
    assert_eq!(data, vec![vec![1u8, 2], vec![3u8, 4]]);
    assert_eq!(count, 5);
    let (short, n) = vector2d_from_lines(&lines("9"), 1, 3);
    assert_eq!(short, vec![vec![9u8, 0, 0]]);
    assert_eq!(n, 1);
}

#[test]
fn tensor_from_lines() {
    let (data, count) = vector4d_from_lines(&lines("1\n2\n3\n4\n5\n6"), 1, 2, 1, 3);
    assert_eq!(data, vec![vec![vec![vec![1u8, 2, 3]], vec![vec![4u8, 5, 6]]]]);
    assert_eq!(count, 6);
}

#[test]
fn conv_accumulators_of_one_image_match_padding_with_the_zero_point() {
    let input = vec![vec![vec![2u8, 3], vec![4u8, 5]]];
    let weights = vec![vec![vec![vec![1u8, 1], vec![1u8, 1]]], vec![vec![vec![2u8, 1], vec![1u8, 1]]]];
    let acc = quantized_conv2d_accumulators(&input, &weights, 1, 1, 2, 1, 1).unwrap();
    // (x - 1) * (w - 1): only the first weight of the second kernel counts.
    assert_eq!(acc[0], vec![vec![0, 0, 0], vec![0, 0, 0], vec![0, 0, 0]]);
    assert_eq!(acc[1], vec![vec![0, 0, 0], vec![0, 1, 2], vec![0, 3, 4]]);
}

#[test]
fn relu_in_place_on_ragged_arrays() {
    let mut x = vec![vec![vec![1u8, 200, 5], vec![]], vec![vec![100u8]]];
    relu(&mut x, 100);
    assert_eq!(x, vec![vec![vec![100u8, 200, 100], vec![]], vec![vec![100u8]]]);
}

#[test]
fn max_pool_with_bounds_check() {
    let input = vec![vec![vec![1u8, 2, 3], vec![4u8, 5, 6], vec![7u8, 8, 9]]];
    assert_eq!(max_pool2d(&input, 2, 1), vec![vec![vec![5u8, 6], vec![8u8, 9]]]);
    assert_eq!(max_pool2d(&input, 3, 2), vec![vec![vec![9u8]]]);
}

#[test]
fn flatten_concatenates_ragged_arrays() {
    let input = vec![vec![vec![1u8, 2], vec![3u8]], vec![], vec![vec![], vec![4u8, 5, 6]]];
    assert_eq!(flatten(&input), vec![1u8, 2, 3, 4, 5, 6]);
}

#[test]
fn fc_accumulators_read_the_first_row_length() {
    let input = vec![3u8, 4, 250];
    let weights = vec![vec![1u8, 2], vec![3u8, 4, 5]];
    let acc = quantized_fc_accumulators(&input, &weights, 2, 1).unwrap();
    // (3-2)(1-1) + (4-2)(2-1) = 2; (3-2)(3-1) + (4-2)(4-1) = 8
    assert_eq!(acc, vec![2, 8]);
}

#[test]
fn fc_relu_raises_to_the_zero_point() {
    assert_eq!(relu_vec(&vec![1u8, 50, 200], 50), vec![50u8, 50, 200]);
}

#[test]
fn predicted_class_is_the_first_maximum() {
    assert_eq!(predicted_class(&vec![3u8, 9, 1, 9, 2]), 1);
    assert_eq!(predicted_class(&vec![7u8]), 0);
    assert_eq!(predicted_class(&vec![0u8, 0, 0]), 0);
    assert_eq!(predicted_class(&vec![1u8, 2, 3, 250]), 3);
}
