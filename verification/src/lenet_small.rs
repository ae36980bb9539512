use vstd::prelude::*;
use crate::activation::{relu_applied4, relu_tensor4};
use crate::pool::{
    max_pool_geometry_ok, max_pool_reads_ok4, max_pool_tensor4, max_pooled4,
};
use crate::quantized::{
    conv_accumulate_image, conv_fits_image, conv_geometry_ok, conv_image_result, conv_reads_ok, dot_accumulate,
    dot_term, fits1, sum1,
};
use crate::tensor::{
    Tensor4, channels_of, covers3, covers4, fill_matrix, fill_tensor4, flat_index3, flatten_image, has_shape2,
    has_shape4, height_of, leading_entries, value_or_zero, flat_index4, width_of,
};
use crate::text::{all_line_values, surplus_lines, values_from_lines};

verus! {

/// A matrix read from a file of whitespace-separated values, with what the
/// reader reports about the file.
pub struct LoadedMatrix {
    /// The matrix, filled in row-major order; zero where the file ran short.
    pub data: Vec<Vec<u8>>,
    /// How many values were placed: the file's values, at most the matrix's size.
    pub values_read: usize,
    /// How many lines held a value beyond the matrix's size.
    pub surplus_lines: usize,
}

/// A tensor read from a file of whitespace-separated values, with what the
/// reader reports about the file.
pub struct LoadedTensor {
    /// The tensor, filled in row-major order; zero where the file ran short.
    pub data: Tensor4<u8>,
    /// How many values were placed: the file's values, at most the tensor's size.
    pub values_read: usize,
    /// How many lines held a value beyond the tensor's size.
    pub surplus_lines: usize,
}

/// The values of a file of whitespace-separated bytes, given as its lines:
/// every token that parses as a `u8`, in order.
pub fn vector1d_from_lines(lines: &Vec<Vec<char>>) -> (out: Vec<u8>)
    ensures
        out@ == all_line_values(lines@),
{
    let (values, _surplus) = values_from_lines(lines, 0);
    values
}

/// A `dim1 x dim2` matrix read in row-major order from a file of
/// whitespace-separated bytes, given as its lines.
pub fn vector2d_from_lines(lines: &Vec<Vec<char>>, dim1: usize, dim2: usize) -> (r: LoadedMatrix)
    requires
        dim1 * dim2 <= usize::MAX,
    ensures
        has_shape2(&r.data, dim1 as int, dim2 as int),
        forall|i: int, j: int|
            0 <= i < dim1 && 0 <= j < dim2 ==> #[trigger] r.data[i][j]
                == value_or_zero(all_line_values(lines@), i * dim2 + j),
        r.values_read == if all_line_values(lines@).len() <= dim1 * dim2 {
            all_line_values(lines@).len() as int
        } else {
            dim1 * dim2
        },
        r.surplus_lines == surplus_lines(lines@, dim1 * dim2),
{
    let total = dim1 * dim2;
    let (values, surplus) = values_from_lines(lines, total);
    let data = fill_matrix(&values, dim1, dim2);
    let values_read = if values.len() <= total { values.len() } else { total };
    LoadedMatrix { data, values_read, surplus_lines: surplus }
}

/// A `dim1 x dim2 x dim3 x dim4` tensor read in row-major order from a file of
/// whitespace-separated bytes, given as its lines.
pub fn vector4d_from_lines(lines: &Vec<Vec<char>>, dim1: usize, dim2: usize, dim3: usize, dim4: usize) -> (r: LoadedTensor)
    requires
        dim1 * dim2 <= usize::MAX,
        dim1 * dim2 * dim3 <= usize::MAX,
        dim1 * dim2 * dim3 * dim4 <= usize::MAX,
    ensures
        has_shape4(&r.data, dim1 as int, dim2 as int, dim3 as int, dim4 as int),
        forall|a: int, b: int, c: int, d: int|
            0 <= a < dim1 && 0 <= b < dim2 && 0 <= c < dim3 && 0 <= d < dim4 ==> #[trigger] r.data[a][b][c][d]
                == value_or_zero(all_line_values(lines@), flat_index4(a, b, c, d, dim2 as int, dim3 as int, dim4 as int)),
        r.values_read == if all_line_values(lines@).len() <= dim1 * dim2 * dim3 * dim4 {
            all_line_values(lines@).len() as int
        } else {
            dim1 * dim2 * dim3 * dim4
        },
        r.surplus_lines == surplus_lines(lines@, dim1 * dim2 * dim3 * dim4),
{
    let total = dim1 * dim2 * dim3 * dim4;
    let (values, surplus) = values_from_lines(lines, total);
    let data = fill_tensor4(&values, dim1, dim2, dim3, dim4);
    let values_read = if values.len() <= total { values.len() } else { total };
    LoadedTensor { data, values_read, surplus_lines: surplus }
}

/// The first CIFAR image (3 channels of 32 x 32) of a stream of values, as a
/// batch of one image.
pub fn first_cifar_image(values: &Vec<u8>) -> (x: Tensor4<u8>)
    requires
        values.len() >= 3 * 32 * 32,
    ensures
        has_shape4(&x, 1, 3, 32, 32),
        forall|c: int, h: int, w: int|
            0 <= c < 3 && 0 <= h < 32 && 0 <= w < 32 ==> #[trigger] x[0][c][h][w]
                == values[flat_index3(c, h, w, 32, 32)],
{
    let x = fill_tensor4(values, 1, 3, 32, 32);
    assert forall|c: int, h: int, w: int| 0 <= c < 3 && 0 <= h < 32 && 0 <= w < 32 implies #[trigger] x[0][c][h][w]
        == values[flat_index3(c, h, w, 32, 32)] by {
        crate::tensor::lemma_flat_index3_order(c, h, w, 3, 32, 32);
        assert(flat_index4(0, c, h, w, 3, 32, 32) == flat_index3(c, h, w, 32, 32));
    }
    x
}

/// A zero point read from a file: its first value, or 128 if it holds none.
pub fn zero_point_or_default(values: &Vec<u8>) -> (z: u8)
    ensures
        z == if values.len() == 0 {
            128u8
        } else {
            values[0]
        },
{
    if values.len() == 0 {
        128
    } else {
        values[0]
    }
}

/// The geometry of a batched convolution read off its input and weights.
pub open spec fn conv_inputs_ok(input: &Tensor4<u8>, weights: &Tensor4<u8>, stride: usize, padding: usize) -> bool {
    &&& leading_entries(input)
    &&& leading_entries(weights)
    &&& forall|b: int| 0 <= b < input.len() ==> #[trigger] conv_reads_ok(input[b]@, weights@, height_of(input),
        width_of(input), weights.len() as int, channels_of(input), height_of(weights), width_of(weights),
        stride as int, padding as int)
    &&& conv_geometry_ok(height_of(input), width_of(input), height_of(weights), width_of(weights), stride as int,
        padding as int)
}

/// The integer stage of the quantized convolution: for every image, output
/// channel and position, the `i32` sum over input channels and kernel
/// positions of `(input - input_zero_point) * (weight - weight_zero_point)`,
/// where kernel positions over the padding contribute nothing. `None` exactly
/// when some running sum leaves the `i32` range.
pub fn quantized_conv2d_accumulators(
    input: &Tensor4<u8>,
    weights: &Tensor4<u8>,
    input_zero_point: u8,
    weight_zero_point: u8,
    stride: usize,
    padding: usize,
) -> (res: Option<Tensor4<i32>>)
    requires
        conv_inputs_ok(input, weights, stride, padding),
    ensures
        res is Some <==> forall|b: int| 0 <= b < input.len() ==> #[trigger] conv_fits_image(input[b]@, weights@,
            input_zero_point, weight_zero_point, height_of(input), width_of(input), weights.len() as int,
            channels_of(input), height_of(weights), width_of(weights), stride as int, padding as int),
        res matches Some(out) ==> {
            &&& out.len() == input.len()
            &&& forall|b: int| 0 <= b < input.len() ==> #[trigger] conv_image_result(out[b]@, input[b]@, weights@,
                input_zero_point, weight_zero_point, height_of(input), width_of(input), weights.len() as int,
                channels_of(input), height_of(weights), width_of(weights), stride as int, padding as int)
        },
{
    let batch_size = input.len();
    let input_channels = input[0].len();
    let input_height = input[0][0].len();
    let input_width = input[0][0][0].len();
    let output_channels = weights.len();
    let kernel_height = weights[0][0].len();
    let kernel_width = weights[0][0][0].len();
    let mut out: Tensor4<i32> = Vec::new();
    let mut b: usize = 0;
    while b < batch_size
        invariant
            conv_inputs_ok(input, weights, stride, padding),
            batch_size == input.len(),
            input_channels == channels_of(input),
            input_height == height_of(input),
            input_width == width_of(input),
            output_channels == weights.len(),
            kernel_height == height_of(weights),
            kernel_width == width_of(weights),
            b <= batch_size,
            out.len() == b,
            forall|b2: int| 0 <= b2 < b ==> #[trigger] conv_image_result(out[b2]@, input[b2]@, weights@,
                input_zero_point, weight_zero_point, height_of(input), width_of(input), weights.len() as int,
                channels_of(input), height_of(weights), width_of(weights), stride as int, padding as int),
            forall|b2: int| 0 <= b2 < b ==> #[trigger] conv_fits_image(input[b2]@, weights@,
                input_zero_point, weight_zero_point, height_of(input), width_of(input), weights.len() as int,
                channels_of(input), height_of(weights), width_of(weights), stride as int, padding as int),
        decreases batch_size - b,
    {
        assert(conv_reads_ok(input[b as int]@, weights@, height_of(input), width_of(input), weights.len() as int,
            channels_of(input), height_of(weights), width_of(weights), stride as int, padding as int));
        match conv_accumulate_image(&input[b], weights, input_zero_point, weight_zero_point, input_height,
            input_width, output_channels, input_channels, kernel_height, kernel_width, stride, padding) {
            Some(img) => {
                out.push(img);
            },
            None => {
                return None;
            },
        }
        b = b + 1;
    }
    Some(out)
}

/// Quantized ReLU in place: every entry below the zero point is raised to it.
pub fn relu_quantized(input: &mut Tensor4<u8>, zero_point: u8)
    ensures
        relu_applied4(old(input)@, final(input)@, zero_point),
{
    let out = relu_tensor4(input, zero_point);
    *input = out;
}

/// Max pooling with a `pool_size x pool_size` window moved by `stride`; each
/// output is the largest entry under its window (and at least zero).
pub fn max_pool2d(input: &Tensor4<u8>, pool_size: usize, stride: usize) -> (out: Tensor4<u8>)
    requires
        leading_entries(input),
        max_pool_reads_ok4(input@, input.len() as int, channels_of(input), height_of(input), width_of(input),
            pool_size as int, stride as int),
        max_pool_geometry_ok(height_of(input), width_of(input), pool_size as int, stride as int),
    ensures
        max_pooled4(input@, out@, input.len() as int, channels_of(input), height_of(input), width_of(input),
            pool_size as int, stride as int),
{
    let batch_size = input.len();
    let channels = input[0].len();
    let input_height = input[0][0].len();
    let input_width = input[0][0][0].len();
    max_pool_tensor4(input, batch_size, channels, input_height, input_width, pool_size, stride)
}

/// Each image of the batch flattened in row-major order (channel, row, column).
pub fn flatten(input: &Tensor4<u8>) -> (out: Vec<Vec<u8>>)
    requires
        leading_entries(input),
        covers4(input, input.len() as int, channels_of(input), height_of(input), width_of(input)),
        channels_of(input) * height_of(input) <= usize::MAX,
        channels_of(input) * height_of(input) * width_of(input) <= usize::MAX,
    ensures
        has_shape2(&out, input.len() as int, channels_of(input) * height_of(input) * width_of(input)),
        forall|b: int, c: int, h: int, w: int|
            0 <= b < input.len() && 0 <= c < channels_of(input) && 0 <= h < height_of(input) && 0 <= w < width_of(input)
                ==> #[trigger] out[b][flat_index3(c, h, w, height_of(input), width_of(input))] == input[b][c][h][w],
{
    let batch_size = input.len();
    let channels = input[0].len();
    let height = input[0][0].len();
    let width = input[0][0][0].len();
    let flattened_size = channels * height * width;
    let mut out: Vec<Vec<u8>> = Vec::new();
    let mut b: usize = 0;
    while b < batch_size
        invariant
            batch_size == input.len(),
            channels == channels_of(input),
            height == height_of(input),
            width == width_of(input),
            flattened_size == channels * height * width,
            covers4(input, input.len() as int, channels_of(input), height_of(input), width_of(input)),
            b <= batch_size,
            has_shape2(&out, b as int, flattened_size as int),
            forall|b2: int, c: int, h: int, w: int|
                0 <= b2 < b && 0 <= c < channels && 0 <= h < height && 0 <= w < width
                    ==> #[trigger] out[b2][flat_index3(c, h, w, height as int, width as int)] == input[b2][c][h][w],
        decreases batch_size - b,
    {
        assert(covers3(&input[b as int], channels as int, height as int, width as int));
        let row = flatten_image(&input[b], channels, height, width);
        out.push(row);
        b = b + 1;
    }
    out
}

/// The integer stage of the quantized dense layer: for every batch row `b`
/// and output `of`, the `i32` sum over the input features of
/// `(input[b][i] - input_zero_point) * (weights[of][i] - weight_zero_point)`.
/// `None` exactly when some running sum leaves the `i32` range.
pub fn quantized_linear_accumulators(
    input: &Vec<Vec<u8>>,
    weights: &Vec<Vec<u8>>,
    input_zero_point: u8,
    weight_zero_point: u8,
) -> (res: Option<Vec<Vec<i32>>>)
    requires
        input.len() > 0,
        weights.len() > 0 ==> forall|b: int| 0 <= b < input.len() ==> input[0].len() <= #[trigger] input[b].len(),
        forall|o: int| 0 <= o < weights.len() ==> input[0].len() <= #[trigger] weights[o].len(),
    ensures
        res is Some <==> forall|b: int, o: int|
            0 <= b < input.len() && 0 <= o < weights.len() ==> #[trigger] fits1(
                dot_term(input[b]@, weights[o]@, input_zero_point, weight_zero_point), input[0].len() as int),
        res matches Some(out) ==> {
            &&& has_shape2(&out, input.len() as int, weights.len() as int)
            &&& forall|b: int, o: int|
                0 <= b < input.len() && 0 <= o < weights.len() ==> #[trigger] out[b][o] == sum1(
                    dot_term(input[b]@, weights[o]@, input_zero_point, weight_zero_point), input[0].len() as int)
        },
{
    let batch_size = input.len();
    let input_features = input[0].len();
    let output_features = weights.len();
    let mut out: Vec<Vec<i32>> = Vec::new();
    let mut b: usize = 0;
    while b < batch_size
        invariant
            batch_size == input.len(),
            input_features == input[0].len(),
            output_features == weights.len(),
            weights.len() > 0 ==> forall|b2: int| 0 <= b2 < input.len() ==> input[0].len() <= #[trigger] input[b2].len(),
            forall|o: int| 0 <= o < weights.len() ==> input[0].len() <= #[trigger] weights[o].len(),
            b <= batch_size,
            has_shape2(&out, b as int, output_features as int),
            forall|b2: int, o: int|
                0 <= b2 < b && 0 <= o < output_features ==> #[trigger] out[b2][o] == sum1(
                    dot_term(input[b2]@, weights[o]@, input_zero_point, weight_zero_point), input_features as int),
            forall|b2: int, o: int|
                0 <= b2 < b && 0 <= o < output_features ==> #[trigger] fits1(
                    dot_term(input[b2]@, weights[o]@, input_zero_point, weight_zero_point), input_features as int),
        decreases batch_size - b,
    {
        let mut row: Vec<i32> = Vec::new();
        let mut o: usize = 0;
        while o < output_features
            invariant
                batch_size == input.len(),
                input_features == input[0].len(),
                output_features == weights.len(),
                weights.len() > 0 ==> forall|b2: int| 0 <= b2 < input.len() ==> input[0].len() <= #[trigger] input[b2].len(),
                forall|o2: int| 0 <= o2 < weights.len() ==> input[0].len() <= #[trigger] weights[o2].len(),
                b < batch_size,
                o <= output_features,
                row.len() == o,
                forall|o2: int| 0 <= o2 < o ==> #[trigger] row[o2] == sum1(
                    dot_term(input[b as int]@, weights[o2]@, input_zero_point, weight_zero_point), input_features as int),
                forall|o2: int| 0 <= o2 < o ==> #[trigger] fits1(
                    dot_term(input[b as int]@, weights[o2]@, input_zero_point, weight_zero_point), input_features as int),
            decreases output_features - o,
        {
            assert(input_features <= input[b as int].len());
            assert(input_features <= weights[o as int].len());
            match dot_accumulate(&input[b], &weights[o], input_features, input_zero_point, weight_zero_point) {
                Some(v) => {
                    row.push(v);
                },
                None => {
                    return None;
                },
            }
            o = o + 1;
        }
        out.push(row);
        b = b + 1;
    }
    Some(out)
}

} // verus!
