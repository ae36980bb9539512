use zknn_circuit::quantized::clamp_to_u8;
use zknn_circuit::resnet18::{
    avg_pool2d_u8, block_residual, conv2d_u8, fully_connected_sums, max_pool2d_u8, memory_estimate,
    rand_2d_vec_generator, rand_4d_vec_generator, relu_u8, ResNet18Benchmark,
};

#[test]
fn test_conv2d_basic() {
    let input = vec![vec![vec![vec![1u8, 2u8], vec![3u8, 4u8]]]];
    let kernel = vec![vec![vec![vec![1u8, 0u8], vec![0u8, 1u8]]]];

    let output = conv2d_u8(&input, &kernel, 1, 0, 0);
    assert_eq!(output.len(), 1);
    assert_eq!(output[0].len(), 1);
}

#[test]
fn test_relu_activation() {
    let input = vec![vec![vec![vec![100u8, 200u8], vec![50u8, 150u8]]]];
    let zero_point = 128u8;

    let output = relu_u8(&input, zero_point);
    assert_eq!(output[0][0][0][0], 128); // 100 < 128, so clamped to 128
    assert_eq!(output[0][0][0][1], 200); // 200 > 128, so kept as 200
    assert_eq!(output[0][0][1][0], 128); // 50 < 128, so clamped to 128
    assert_eq!(output[0][0][1][1], 150); // 150 > 128, so kept as 150
}

#[test]
fn test_max_pool2d() {
    let input = vec![vec![vec![vec![1u8, 2u8, 3u8, 4u8],
                              vec![5u8, 6u8, 7u8, 8u8],
                              vec![9u8, 10u8, 11u8, 12u8],
                              vec![13u8, 14u8, 15u8, 16u8]]]];

    let output = max_pool2d_u8(&input, 2, 2);
    assert_eq!(output.len(), 1);
    assert_eq!(output[0].len(), 1);
    assert_eq!(output[0][0].len(), 2);
    assert_eq!(output[0][0][0].len(), 2);
    assert_eq!(output[0][0][0][0], 6);  // max of [1,2,5,6]
    assert_eq!(output[0][0][0][1], 8);  // max of [3,4,7,8]
    assert_eq!(output[0][0][1][0], 14); // max of [9,10,13,14]
    assert_eq!(output[0][0][1][1], 16); // max of [11,12,15,16]
}

#[test]
fn test_avg_pool2d() {
    let input = vec![vec![vec![vec![2u8, 2u8, 6u8, 6u8],
                              vec![2u8, 2u8, 6u8, 6u8],
                              vec![10u8, 10u8, 14u8, 14u8],
                              vec![10u8, 10u8, 14u8, 14u8]]]];

    let output = avg_pool2d_u8(&input, 2);
    assert_eq!(output.len(), 1);
    assert_eq!(output[0].len(), 1);
    assert_eq!(output[0][0].len(), 2);
    assert_eq!(output[0][0][0].len(), 2);
    assert_eq!(output[0][0][0][0], 2);  // avg of [2,2,2,2]
    assert_eq!(output[0][0][0][1], 6);  // avg of [6,6,6,6]
    assert_eq!(output[0][0][1][0], 10); // avg of [10,10,10,10]
    assert_eq!(output[0][0][1][1], 14); // avg of [14,14,14,14]
}

#[test]
fn conv2d_u8_has_the_convolution_shape() {
    // 4 x 5 input, 3 x 3 kernel, stride 2, padding 1: (4 + 2 - 3) / 2 + 1 = 2 rows,
    // (5 + 2 - 3) / 2 + 1 = 3 columns.
    let input = vec![vec![vec![vec![9u8; 5]; 4]; 3]; 2];
    let kernel = vec![vec![vec![vec![1u8; 3]; 3]; 3]; 7];
    let output = conv2d_u8(&input, &kernel, 2, 1, 42);
    assert_eq!(output.len(), 2);
    for image in &output {
        assert_eq!(image.len(), 7);
        for plane in image {
            assert_eq!(plane.len(), 2);
            for row in plane {
                assert_eq!(row, &vec![42u8; 3]);
            }
        }
    }
}

#[test]
fn conv2d_u8_without_padding_shrinks_the_plane() {
    let input = vec![vec![vec![vec![1u8, 2u8], vec![3u8, 4u8]]]];
    let kernel = vec![vec![vec![vec![1u8, 0u8], vec![0u8, 1u8]]]];
    let output = conv2d_u8(&input, &kernel, 1, 0, 5);
    assert_eq!(output, vec![vec![vec![vec![5u8]]]]);
}

#[test]
fn relu_u8_is_idempotent_and_keeps_ragged_shape() {
    let input = vec![vec![vec![vec![0u8, 127, 128, 129, 255], vec![3u8]], vec![vec![]]]];
    let once = relu_u8(&input, 128);
    let twice = relu_u8(&once, 128);
    assert_eq!(once, vec![vec![vec![vec![128u8, 128, 128, 129, 255], vec![128u8]], vec![vec![]]]]);
    assert_eq!(once, twice);
}

#[test]
fn max_pool2d_u8_skips_partial_windows_and_uses_stride() {
    // 3 x 3 plane, 2 x 2 window, stride 1: four overlapping windows.
    let input = vec![vec![vec![vec![1u8, 9, 2], vec![3u8, 4, 8], vec![7u8, 5, 6]]]];
    let output = max_pool2d_u8(&input, 2, 1);
    assert_eq!(output, vec![vec![vec![vec![9u8, 9], vec![7u8, 8]]]]);
    // A window of size zero yields zero.
    let empty_window = max_pool2d_u8(&input, 0, 2);
    assert_eq!(empty_window, vec![vec![vec![vec![0u8, 0], vec![0u8, 0]]]]);
}

#[test]
fn avg_pool2d_u8_rounds_down_and_drops_the_remainder() {
    // 3 x 3 plane with a 2 x 2 window: one output, the last row and column are unused.
    let input = vec![vec![vec![vec![1u8, 2, 100], vec![3u8, 5, 100], vec![100u8, 100, 100]]]];
    let output = avg_pool2d_u8(&input, 2);
    assert_eq!(output, vec![vec![vec![vec![2u8]]]]); // (1 + 2 + 3 + 5) / 4 = 2
    let whole = avg_pool2d_u8(&vec![vec![vec![vec![255u8; 2]; 2]; 2]], 2);
    assert_eq!(whole, vec![vec![vec![vec![255u8]], vec![vec![255u8]]]]);
}

#[test]
fn fully_connected_sums_of_a_small_image() {
    let input = vec![vec![vec![vec![1u8, 2u8], vec![3u8, 4u8]]]]; // 1x1x2x2
    let weights = vec![vec![1u8, 1u8, 1u8, 1u8], vec![2u8, 2u8, 2u8, 2u8]]; // 2x4
    let sums = fully_connected_sums(&input, &weights).unwrap();
    assert_eq!(sums, vec![vec![10, 20]]);
    assert_eq!(clamp_to_u8(sums[0][0]), 10);
    assert_eq!(clamp_to_u8(sums[0][1]), 20);
}

#[test]
fn fully_connected_sums_stop_at_the_shorter_of_image_and_row() {
    let input = vec![vec![vec![vec![1u8, 2u8], vec![3u8, 4u8]]], vec![vec![vec![5u8, 6u8], vec![7u8, 8u8]]]];
    let weights = vec![vec![1u8, 1u8], vec![1u8, 1u8, 1u8, 1u8, 9u8, 9u8]];
    let sums = fully_connected_sums(&input, &weights).unwrap();
    assert_eq!(sums, vec![vec![3, 10], vec![11, 26]]);
}

#[test]
fn fully_connected_sums_report_overflow() {
    // 40000 products of 255 * 255 exceed i32::MAX.
    let input = vec![vec![vec![vec![255u8; 200]; 200]]];
    let weights = vec![vec![255u8; 40000]];
    assert_eq!(fully_connected_sums(&input, &weights), None);
    let short = vec![vec![255u8; 30000]];
    assert_eq!(fully_connected_sums(&input, &short), Some(vec![vec![30000 * 65025]]));
}

#[test]
fn clamp_to_u8_saturates() {
    assert_eq!(clamp_to_u8(-5), 0);
    assert_eq!(clamp_to_u8(0), 0);
    assert_eq!(clamp_to_u8(180), 180);
    assert_eq!(clamp_to_u8(255), 255);
    assert_eq!(clamp_to_u8(256), 255);
    assert_eq!(clamp_to_u8(i32::MAX), 255);
}

#[test]
fn block_residual_keeps_the_input_when_shapes_agree() {
    let input = vec![vec![vec![vec![1u8, 2], vec![3u8, 4]]]];
    let conv_out = vec![vec![vec![vec![0u8; 2]; 2]]];
    assert_eq!(block_residual(&input, &conv_out, 1, 128), input);
}

#[test]
fn block_residual_crops_and_pads_to_the_block_output() {
    let input = vec![vec![vec![vec![1u8, 2, 3], vec![4u8, 5, 6]]]]; // 1 x 1 x 2 x 3
    // Block output 1 x 2 x 1 x 4 with stride 2: crop rows, pad columns and channels.
    let conv_out = vec![vec![vec![vec![0u8; 4]]; 2]];
    let residual = block_residual(&input, &conv_out, 2, 128);
    assert_eq!(residual, vec![vec![vec![vec![1u8, 2, 3, 128]], vec![vec![128u8, 128, 128, 128]]]]);
}

#[test]
fn memory_estimate_of_a_cifar_input() {
    let estimate = memory_estimate(1, 3, 32, 32);
    assert_eq!(estimate.input_size, 3072);
    // 3072 + 65536 + 16384 + 8192 + 4096 + 2048
    assert_eq!(estimate.activation_size, 99328);
    assert_eq!(estimate.weight_size, 11_000_000);
    assert_eq!(estimate.total_size, 11_099_328);
}

#[test]
fn benchmark_settings() {
    let bench = ResNet18Benchmark::new(2, 3, 32, 16, 5);
    assert_eq!(bench.input_size, (2, 3, 32, 16));
    assert_eq!(bench.num_iterations, 5);
}

#[test]
fn resnet_generators_fill_with_128() {
    let t = rand_4d_vec_generator(2, 3, 1, 4);
    assert_eq!(t, vec![vec![vec![vec![128u8; 4]; 1]; 3]; 2]);
    let m = rand_2d_vec_generator(3, 2);
    assert_eq!(m, vec![vec![128u8; 2]; 3]);
    assert_eq!(rand_2d_vec_generator(0, 5), Vec::<Vec<u8>>::new());
}

#[test]
fn avg_pool2d_u8_reads_only_whole_windows() {
    // Row 2 lies past the last whole window and may be short.
    let input = vec![vec![vec![vec![4u8, 8u8, 1u8], vec![12u8, 16u8, 1u8], vec![200u8]]]];
    let output = avg_pool2d_u8(&input, 2);
    assert_eq!(output, vec![vec![vec![vec![10u8]]]]);
}

#[test]
fn avg_pool2d_u8_with_a_kernel_larger_than_the_plane() {
    let input = vec![vec![vec![vec![7u8]], vec![vec![9u8]]]];
    let output = avg_pool2d_u8(&input, 2);
    assert_eq!(output, vec![vec![Vec::<Vec<u8>>::new(), Vec::new()]]);
}

#[test]
fn max_pool2d_u8_reads_only_the_windows() {
    // With a 2 x 2 window moved by 2 over a 3 x 3 plane, row 2 is never read.
    let input = vec![vec![vec![vec![3u8, 9u8, 1u8], vec![4u8, 2u8, 1u8], vec![250u8]]]];
    let output = max_pool2d_u8(&input, 2, 2);
    assert_eq!(output, vec![vec![vec![vec![9u8]]]]);
}
