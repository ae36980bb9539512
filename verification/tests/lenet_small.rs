use zknn_circuit::lenet_small::{
    first_cifar_image, flatten, max_pool2d, quantized_conv2d_accumulators, quantized_linear_accumulators,
    relu_quantized, vector1d_from_lines, vector2d_from_lines, vector4d_from_lines, zero_point_or_default,
};

fn lines(text: &str) -> Vec<Vec<char>> {
    text.lines().map(|l| l.chars().collect()).collect()
}

#[test]
fn vector1d_reads_every_byte_token() {
    let values = vector1d_from_lines(&lines("1 2 3\n\n  +4\t007  x 256 -1 255\n12\u{a0}34"));
    assert_eq!(values, vec![1u8, 2, 3, 4, 7, 255, 12, 34]);
}

#[test]
fn vector2d_fills_row_major_and_pads_with_zero() {
    let loaded = vector2d_from_lines(&lines("1 2\n3"), 2, 3);
    assert_eq!(loaded.data, vec![vec![1u8, 2, 3], vec![0u8, 0, 0]]);
    assert_eq!(loaded.values_read, 3);
    assert_eq!(loaded.surplus_lines, 0);
}

#[test]
fn vector2d_counts_lines_with_surplus_values() {
    let loaded = vector2d_from_lines(&lines("1 2 3\n4 5\nbad\n6\n7 8"), 2, 2);
    assert_eq!(loaded.data, vec![vec![1u8, 2], vec![3u8, 4]]);
    assert_eq!(loaded.values_read, 4);
    // Lines "4 5", "6" and "7 8" each hold a value past the fourth.
    assert_eq!(loaded.surplus_lines, 3);
}

#[test]
fn vector4d_fills_row_major() {
    let loaded = vector4d_from_lines(&lines("0 1 2 3 4 5 6 7 8 9 10 11 12"), 2, 3, 1, 2);
    assert_eq!(
        loaded.data,
        vec![
            vec![vec![vec![0u8, 1]], vec![vec![2u8, 3]], vec![vec![4u8, 5]]],
            vec![vec![vec![6u8, 7]], vec![vec![8u8, 9]], vec![vec![10u8, 11]]],
        ]
    );
    assert_eq!(loaded.values_read, 12);
    assert_eq!(loaded.surplus_lines, 1);
    let empty = vector4d_from_lines(&lines(""), 1, 1, 1, 2);
    assert_eq!(empty.data, vec![vec![vec![vec![0u8, 0]]]]);
    assert_eq!(empty.values_read, 0);
}

#[test]
fn first_cifar_image_reshapes_row_major() {
    let values: Vec<u8> = (0..3100u32).map(|i| (i % 251) as u8).collect();
    let x = first_cifar_image(&values);
    assert_eq!(x.len(), 1);
    assert_eq!(x[0].len(), 3);
    assert_eq!(x[0][2].len(), 32);
    assert_eq!(x[0][2][31].len(), 32);
    assert_eq!(x[0][1][2][3], values[1024 + 2 * 32 + 3]);
    assert_eq!(x[0][2][31][31], values[3071]);
}

#[test]
fn zero_point_defaults_to_128() {
    assert_eq!(zero_point_or_default(&vec![]), 128);
    assert_eq!(zero_point_or_default(&vec![7, 9]), 7);
}

#[test]
fn conv_accumulators_with_zero_points() {
    // One 1 x 3 x 3 image, one 1 x 2 x 2 kernel, stride 1, no padding.
    let input = vec![vec![vec![vec![1u8, 2, 3], vec![4u8, 5, 6], vec![7u8, 8, 9]]]];
    let weights = vec![vec![vec![vec![1u8, 0], vec![0u8, 2]]]];
    let acc = quantized_conv2d_accumulators(&input, &weights, 1, 0, 1, 0).unwrap();
    // (x - 1) * w: top-left window 0*1 + 4*2 = 8.
    assert_eq!(acc, vec![vec![vec![vec![8, 11], vec![17, 20]]]]);
}

#[test]
fn conv_accumulators_skip_the_padding() {
    let input = vec![vec![vec![vec![2u8, 3], vec![4u8, 5]]]];
    let weights = vec![vec![vec![vec![1u8, 1], vec![1u8, 1]]]];
    // Padding 1, stride 1: a 3 x 3 output; corners see one input entry.
    let acc = quantized_conv2d_accumulators(&input, &weights, 0, 0, 1, 1).unwrap();
    assert_eq!(acc, vec![vec![vec![vec![2, 5, 3], vec![6, 14, 8], vec![4, 9, 5]]]]);
    // Stride 2 keeps the corners only.
    let strided = quantized_conv2d_accumulators(&input, &weights, 0, 0, 2, 1).unwrap();
    assert_eq!(strided, vec![vec![vec![vec![2, 3], vec![4, 5]]]]);
}

#[test]
fn conv_accumulators_report_overflow() {
    // 182 * 182 = 33124 terms of 255 * 255 exceed i32::MAX.
    let input = vec![vec![vec![vec![0u8; 182]; 182]]];
    let weights = vec![vec![vec![vec![0u8; 182]; 182]]];
    assert_eq!(quantized_conv2d_accumulators(&input, &weights, 255, 255, 1, 0), None);
    assert_eq!(
        quantized_conv2d_accumulators(&input, &weights, 0, 0, 1, 0),
        Some(vec![vec![vec![vec![0]]]])
    );
}

#[test]
fn relu_quantized_in_place() {
    let mut x = vec![vec![vec![vec![10u8, 200], vec![128u8, 0]]]];
    relu_quantized(&mut x, 128);
    assert_eq!(x, vec![vec![vec![vec![128u8, 200], vec![128u8, 128]]]]);
}

#[test]
fn lenet_max_pool2d_takes_window_maxima() {
    let input = vec![vec![
        vec![vec![1u8, 2, 3, 4], vec![5u8, 6, 7, 8], vec![9u8, 10, 11, 12], vec![13u8, 14, 15, 16]],
        vec![vec![0u8; 4]; 4],
    ]];
    let out = max_pool2d(&input, 2, 2);
    assert_eq!(out, vec![vec![vec![vec![6u8, 8], vec![14u8, 16]], vec![vec![0u8, 0], vec![0u8, 0]]]]);
}

#[test]
fn lenet_flatten_is_row_major() {
    let input = vec![
        vec![vec![vec![1u8, 2], vec![3u8, 4]], vec![vec![5u8, 6], vec![7u8, 8]]],
        vec![vec![vec![9u8, 10], vec![11u8, 12]], vec![vec![13u8, 14], vec![15u8, 16]]],
    ];
    let out = flatten(&input);
    assert_eq!(out, vec![(1u8..=8).collect::<Vec<u8>>(), (9u8..=16).collect::<Vec<u8>>()]);
}

#[test]
fn flatten_undoes_reading_a_tensor() {
    let text = "3 1 4 1 5 9 2 6 5 3 5 8";
    let loaded = vector4d_from_lines(&lines(text), 1, 3, 2, 2);
    let flat = flatten(&loaded.data);
    assert_eq!(flat, vec![vector1d_from_lines(&lines(text))]);
}

#[test]
fn linear_accumulators_with_zero_points() {
    let input = vec![vec![3u8, 5], vec![1u8, 1]];
    let weights = vec![vec![2u8, 4], vec![0u8, 0], vec![4u8, 2, 99]];
    let acc = quantized_linear_accumulators(&input, &weights, 1, 2).unwrap();
    // (3-1)(2-2) + (5-1)(4-2) = 8; (3-1)(0-2) + (5-1)(0-2) = -12; (3-1)(4-2) + (5-1)(2-2) = 4
    assert_eq!(acc, vec![vec![8, -12, 4], vec![0, 0, 0]]);
}

#[test]
fn linear_accumulators_report_overflow() {
    let input = vec![vec![0u8; 40000]];
    let weights = vec![vec![0u8; 40000]];
    assert_eq!(quantized_linear_accumulators(&input, &weights, 255, 255), None);
    // Negative products: (0 - 255) * (255 - 0) per term.
    let high = vec![vec![255u8; 40000]];
    assert_eq!(quantized_linear_accumulators(&input, &high, 255, 0), None);
    assert_eq!(quantized_linear_accumulators(&input, &high, 0, 0), Some(vec![vec![0]]));
}

#[test]
fn conv_accumulators_vanish_for_zero_point_weights_or_inputs() {
    let input = vec![vec![vec![vec![7u8, 250, 3], vec![0u8, 99, 128]]]];
    let weights = vec![vec![vec![vec![5u8, 5], vec![5u8, 5]]], vec![vec![vec![5u8, 5], vec![5u8, 5]]]];
    let acc = quantized_conv2d_accumulators(&input, &weights, 17, 5, 1, 1).unwrap();
    assert_eq!(acc, vec![vec![vec![vec![0; 4]; 3]; 2]]);
    let flat = vec![vec![vec![vec![17u8; 3]; 2]]];
    let varied = vec![vec![vec![vec![1u8, 200], vec![9u8, 0]]]];
    let acc2 = quantized_conv2d_accumulators(&flat, &varied, 17, 5, 1, 0).unwrap();
    assert_eq!(acc2, vec![vec![vec![vec![0, 0]]]]);
}
