use vstd::prelude::*;
use crate::activation::{relu_applied3, relu_array3};
use crate::pool::{max_pool_array3, max_pool_geometry_ok, max_pool_reads_ok3, max_pooled3};
use crate::quantized::{
    conv_accumulate_image, conv_fits_image, conv_geometry_ok, conv_image_result, conv_reads_ok, dot_accumulate,
    dot_term, fits1, sum1,
};
use crate::tensor::{
    Tensor4, covers3, covers4, fill_matrix, fill_tensor4, flat_index4, has_shape2, has_shape4, value_or_zero,
};
use crate::text::{all_whole_line_values, whole_line_values};

verus! {

/// The values of a file with one byte per line, given as its lines: every
/// line that, trimmed, parses as a `u8`, in order.
pub fn vector1d_from_lines(lines: &Vec<Vec<char>>) -> (out: Vec<u8>)
    ensures
        out@ == all_whole_line_values(lines@),
{
    whole_line_values(lines)
}

/// A `dim1 x dim2` matrix read in row-major order from a file with one byte
/// per line, and how many values the file held.
pub fn vector2d_from_lines(lines: &Vec<Vec<char>>, dim1: usize, dim2: usize) -> (r: (Vec<Vec<u8>>, usize))
    requires
        all_whole_line_values(lines@).len() > 0 ==> dim2 > 0,
        dim1 * dim2 <= usize::MAX,
    ensures
        has_shape2(&r.0, dim1 as int, dim2 as int),
        forall|i: int, j: int|
            0 <= i < dim1 && 0 <= j < dim2 ==> #[trigger] r.0[i][j]
                == value_or_zero(all_whole_line_values(lines@), i * dim2 + j),
        r.1 == all_whole_line_values(lines@).len(),
{
    let values = whole_line_values(lines);
    let data = fill_matrix(&values, dim1, dim2);
    (data, values.len())
}

/// A `dim1 x dim2 x dim3 x dim4` tensor read in row-major order from a file
/// with one byte per line, and how many values the file held.
pub fn vector4d_from_lines(lines: &Vec<Vec<char>>, dim1: usize, dim2: usize, dim3: usize, dim4: usize) -> (r: (Tensor4<u8>, usize))
    requires
        all_whole_line_values(lines@).len() > 0 ==> dim2 > 0 && dim3 > 0 && dim4 > 0 && dim2 * dim3 <= usize::MAX
            && dim2 * dim3 * dim4 <= usize::MAX,
        dim1 * dim2 <= usize::MAX,
        dim1 * dim2 * dim3 <= usize::MAX,
        dim1 * dim2 * dim3 * dim4 <= usize::MAX,
    ensures
        has_shape4(&r.0, dim1 as int, dim2 as int, dim3 as int, dim4 as int),
        forall|a: int, b: int, c: int, d: int|
            0 <= a < dim1 && 0 <= b < dim2 && 0 <= c < dim3 && 0 <= d < dim4 ==> #[trigger] r.0[a][b][c][d]
                == value_or_zero(all_whole_line_values(lines@), flat_index4(a, b, c, d, dim2 as int, dim3 as int, dim4 as int)),
        r.1 == all_whole_line_values(lines@).len(),
{
    let values = whole_line_values(lines);
    let data = fill_tensor4(&values, dim1, dim2, dim3, dim4);
    (data, values.len())
}

/// The geometry of a single-image convolution read off its input and weights.
pub open spec fn conv_inputs_ok(input: &Vec<Vec<Vec<u8>>>, weights: &Tensor4<u8>, kernel_size: usize, stride: usize, padding: usize) -> bool {
    &&& input.len() > 0
    &&& input[0].len() > 0
    &&& weights.len() > 0
    &&& covers4(weights, weights.len() as int, input.len() as int, kernel_size as int, kernel_size as int)
    &&& conv_reads_ok(input@, weights@, input[0].len() as int, input[0][0].len() as int, weights.len() as int,
        input.len() as int, kernel_size as int, kernel_size as int, stride as int, padding as int)
    &&& conv_geometry_ok(input[0].len() as int, input[0][0].len() as int, kernel_size as int, kernel_size as int,
        stride as int, padding as int)
}

/// The integer stage of the quantized convolution of one image with a
/// `kernel_size x kernel_size` kernel: for every output channel and
/// position, the `i32` sum of `(input - input_zero) * (weight - weight_zero)`
/// over input channels and kernel positions, where positions over the
/// padding (which holds `input_zero`) contribute nothing. `None` exactly when
/// some running sum leaves the `i32` range.
pub fn quantized_conv2d_accumulators(
    input: &Vec<Vec<Vec<u8>>>,
    weights: &Tensor4<u8>,
    input_zero: u8,
    weight_zero: u8,
    kernel_size: usize,
    stride: usize,
    padding: usize,
) -> (res: Option<Vec<Vec<Vec<i32>>>>)
    requires
        conv_inputs_ok(input, weights, kernel_size, stride, padding),
    ensures
        res is Some <==> conv_fits_image(input@, weights@, input_zero, weight_zero, input[0].len() as int,
            input[0][0].len() as int, weights.len() as int, input.len() as int, kernel_size as int, kernel_size as int,
            stride as int, padding as int),
        res matches Some(out) ==> conv_image_result(out@, input@, weights@, input_zero, weight_zero,
            input[0].len() as int, input[0][0].len() as int, weights.len() as int, input.len() as int,
            kernel_size as int, kernel_size as int, stride as int, padding as int),
{
    let input_channels = input.len();
    let input_height = input[0].len();
    let input_width = input[0][0].len();
    let output_channels = weights.len();
    conv_accumulate_image(input, weights, input_zero, weight_zero, input_height, input_width, output_channels,
        input_channels, kernel_size, kernel_size, stride, padding)
}

/// Quantized ReLU in place: every entry below the zero point is raised to it.
pub fn relu(input: &mut Vec<Vec<Vec<u8>>>, zero_point: u8)
    ensures
        relu_applied3(old(input)@, final(input)@, zero_point),
{
    let out = relu_array3(input, zero_point);
    *input = out;
}

/// Max pooling of each channel with a `pool_size x pool_size` window moved
/// by `stride`; positions past the edge are skipped, and each output is the
/// largest entry under its window (and at least zero).
pub fn max_pool2d(input: &Vec<Vec<Vec<u8>>>, pool_size: usize, stride: usize) -> (out: Vec<Vec<Vec<u8>>>)
    requires
        input.len() > 0,
        input[0].len() > 0,
        max_pool_reads_ok3(input@, input.len() as int, input[0].len() as int, input[0][0].len() as int,
            pool_size as int, stride as int),
        max_pool_geometry_ok(input[0].len() as int, input[0][0].len() as int, pool_size as int, stride as int),
    ensures
        max_pooled3(input@, out@, input.len() as int, input[0].len() as int, input[0][0].len() as int,
            pool_size as int, stride as int),
{
    let channels = input.len();
    let input_height = input[0].len();
    let input_width = input[0][0].len();
    max_pool_array3(input, channels, input_height, input_width, pool_size, stride)
}

/// The rows of a plane, one after the other.
pub open spec fn rows_concat(p: Seq<Vec<u8>>) -> Seq<u8>
    decreases p.len(),
{
    if p.len() == 0 {
        Seq::empty()
    } else {
        rows_concat(p.drop_last()) + p.last()@
    }
}

/// The planes of an array, each as its rows one after the other.
pub open spec fn planes_concat(x: Seq<Vec<Vec<u8>>>) -> Seq<u8>
    decreases x.len(),
{
    if x.len() == 0 {
        Seq::empty()
    } else {
        planes_concat(x.drop_last()) + rows_concat(x.last()@)
    }
}

/// All entries of a 3-dimensional array in order: channel by channel, row by
/// row (rows and planes may differ in length).
pub fn flatten(input: &Vec<Vec<Vec<u8>>>) -> (out: Vec<u8>)
    ensures
        out@ == planes_concat(input@),
{
    let mut out: Vec<u8> = Vec::new();
    let mut ch: usize = 0;
    while ch < input.len()
        invariant
            ch <= input.len(),
            out@ == planes_concat(input@.take(ch as int)),
        decreases input.len() - ch,
    {
        let ghost before = out@;
        let mut h: usize = 0;
        while h < input[ch].len()
            invariant
                ch < input.len(),
                h <= input[ch as int].len(),
                before == planes_concat(input@.take(ch as int)),
                out@ == before + rows_concat(input[ch as int]@.take(h as int)),
            decreases input[ch as int].len() - h,
        {
            let ghost mid = out@;
            let mut w: usize = 0;
            while w < input[ch][h].len()
                invariant
                    ch < input.len(),
                    h < input[ch as int].len(),
                    w <= input[ch as int][h as int].len(),
                    out@ == mid + input[ch as int][h as int]@.take(w as int),
                decreases input[ch as int][h as int].len() - w,
            {
                out.push(input[ch][h][w]);
                w = w + 1;
                assert(out@ =~= mid + input[ch as int][h as int]@.take(w as int));
            }
            assert(input[ch as int][h as int]@.take(w as int) =~= input[ch as int][h as int]@);
            assert(input[ch as int]@.take(h as int + 1).drop_last() =~= input[ch as int]@.take(h as int));
            assert(out@ =~= before + rows_concat(input[ch as int]@.take(h as int + 1)));
            h = h + 1;
        }
        assert(input[ch as int]@.take(h as int) =~= input[ch as int]@);
        assert(input@.take(ch as int + 1).drop_last() =~= input@.take(ch as int));
        ch = ch + 1;
    }
    assert(input@.take(input.len() as int) =~= input@);
    out
}

/// The integer stage of the quantized dense layer: for each weight row `o`,
/// the `i32` sum over the first `weights[0].len()` inputs of
/// `(input[i] - input_zero) * (weights[o][i] - weight_zero)`. `None` exactly
/// when some running sum leaves the `i32` range.
pub fn quantized_fc_accumulators(input: &Vec<u8>, weights: &Vec<Vec<u8>>, input_zero: u8, weight_zero: u8) -> (res: Option<Vec<i32>>)
    requires
        weights.len() > 0,
        weights[0].len() <= input.len(),
        forall|o: int| 0 <= o < weights.len() ==> weights[0].len() <= #[trigger] weights[o].len(),
    ensures
        res is Some <==> forall|o: int| 0 <= o < weights.len() ==> #[trigger] fits1(
            dot_term(input@, weights[o]@, input_zero, weight_zero), weights[0].len() as int),
        res matches Some(out) ==> {
            &&& out.len() == weights.len()
            &&& forall|o: int| 0 <= o < weights.len() ==> #[trigger] out[o] == sum1(
                dot_term(input@, weights[o]@, input_zero, weight_zero), weights[0].len() as int)
        },
{
    let output_size = weights.len();
    let input_size = weights[0].len();
    let mut out: Vec<i32> = Vec::new();
    let mut o: usize = 0;
    while o < output_size
        invariant
            output_size == weights.len(),
            input_size == weights[0].len(),
            input_size <= input.len(),
            forall|o2: int| 0 <= o2 < weights.len() ==> weights[0].len() <= #[trigger] weights[o2].len(),
            o <= output_size,
            out.len() == o,
            forall|o2: int| 0 <= o2 < o ==> #[trigger] out[o2] == sum1(
                dot_term(input@, weights[o2]@, input_zero, weight_zero), input_size as int),
            forall|o2: int| 0 <= o2 < o ==> #[trigger] fits1(
                dot_term(input@, weights[o2]@, input_zero, weight_zero), input_size as int),
        decreases output_size - o,
    {
        assert(input_size <= weights[o as int].len());
        match dot_accumulate(input, &weights[o], input_size, input_zero, weight_zero) {
            Some(v) => {
                out.push(v);
            },
            None => {
                return None;
            },
        }
        o = o + 1;
    }
    Some(out)
}

/// The predicted class: the position of the first largest output.
pub fn predicted_class(output: &Vec<u8>) -> (k: usize)
    requires
        output.len() > 0,
    ensures
        k < output.len(),
        forall|i: int| 0 <= i < output.len() ==> #[trigger] output[i] <= output[k as int],
        forall|i: int| 0 <= i < k ==> #[trigger] output[i] < output[k as int],
{
    let mut max_idx: usize = 0;
    let mut max_val: u8 = output[0];
    let mut i: usize = 0;
    while i < output.len()
        invariant
            i <= output.len(),
            max_idx < output.len(),
            max_idx <= i || (i == 0 && max_idx == 0),
            max_val == output[max_idx as int],
            forall|j: int| 0 <= j < i ==> #[trigger] output[j] <= max_val,
            forall|j: int| 0 <= j < max_idx ==> #[trigger] output[j] < max_val,
        decreases output.len() - i,
    {
        if output[i] > max_val {
            max_val = output[i];
            max_idx = i;
        }
        i = i + 1;
    }
    max_idx
}

} // verus!
