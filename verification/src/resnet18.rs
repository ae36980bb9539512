use vstd::prelude::*;
use crate::activation::{relu_applied4, relu_tensor4};
use crate::pool::{
    max_pool_reads_ok4,
    all_window_sums_fit, avg_pool_reads_ok4, avg_pool_tensor4, avg_pooled4, max_pool_geometry_ok, max_pool_tensor4, max_pooled4,
};
use crate::quantized::{conv_geometry_ok, conv_out_dim, dot_accumulate, dot_term, fits1, sum1};
use crate::tensor::{
    Tensor4, all_equal4, channels_of, copy_tensor4, covers4, filled2, filled4, flat_index3, flat_seq3, flatten_image,
    has_shape2, has_shape4, height_of, leading_entries, same4, width_of,
};

verus! {

/// Benchmark weights: an `a x b x c x d` tensor filled with the value 128.
pub fn rand_4d_vec_generator(a: usize, b: usize, c: usize, d: usize) -> (out: Tensor4<u8>)
    ensures
        has_shape4(&out, a as int, b as int, c as int, d as int),
        all_equal4(&out, a as int, b as int, c as int, d as int, 128u8),
{
    filled4(a, b, c, d, 128u8)
}

/// Benchmark weights: an `a x b` matrix filled with the value 128.
pub fn rand_2d_vec_generator(a: usize, b: usize) -> (out: Vec<Vec<u8>>)
    ensures
        has_shape2(&out, a as int, b as int),
        forall|i: int, j: int| 0 <= i < a && 0 <= j < b ==> #[trigger] out[i][j] == 128u8,
{
    filled2(a, b, 128u8)
}

/// The stand-in convolution of the ResNet-18 circuit: a tensor of the
/// convolution's output shape (one image per input image, one channel per
/// kernel, `(H + 2 * padding - KH) / stride + 1` rows of
/// `(W + 2 * padding - KW) / stride + 1` entries) filled with the output zero
/// point.
pub fn conv2d_u8(
    input: &Tensor4<u8>,
    kernel: &Tensor4<u8>,
    stride: usize,
    padding: usize,
    output_zero_point: u8,
) -> (out: Tensor4<u8>)
    requires
        leading_entries(input),
        leading_entries(kernel),
        conv_geometry_ok(height_of(input), width_of(input), height_of(kernel), width_of(kernel), stride as int,
            padding as int),
    ensures
        has_shape4(&out, input.len() as int, kernel.len() as int,
            conv_out_dim(height_of(input), padding as int, height_of(kernel), stride as int),
            conv_out_dim(width_of(input), padding as int, width_of(kernel), stride as int)),
        all_equal4(&out, input.len() as int, kernel.len() as int,
            conv_out_dim(height_of(input), padding as int, height_of(kernel), stride as int),
            conv_out_dim(width_of(input), padding as int, width_of(kernel), stride as int), output_zero_point),
{
    let batch_size = input.len();
    let out_channels = kernel.len();
    let input_height = input[0][0].len();
    let input_width = input[0][0][0].len();
    let kernel_height = kernel[0][0].len();
    let kernel_width = kernel[0][0][0].len();
    let output_height = (input_height + 2 * padding - kernel_height) / stride + 1;
    let output_width = (input_width + 2 * padding - kernel_width) / stride + 1;
    filled4(batch_size, out_channels, output_height, output_width, output_zero_point)
}

/// Quantized ReLU of every entry: entries below the zero point are raised to it.
pub fn relu_u8(input: &Tensor4<u8>, zero_point: u8) -> (out: Tensor4<u8>)
    ensures
        relu_applied4(input@, out@, zero_point),
{
    relu_tensor4(input, zero_point)
}

/// Max pooling with a `kernel_size x kernel_size` window moved by `stride`;
/// each output is the largest entry under its window (and at least zero).
pub fn max_pool2d_u8(input: &Tensor4<u8>, kernel_size: usize, stride: usize) -> (out: Tensor4<u8>)
    requires
        leading_entries(input),
        max_pool_reads_ok4(input@, input.len() as int, channels_of(input), height_of(input), width_of(input),
            kernel_size as int, stride as int),
        max_pool_geometry_ok(height_of(input), width_of(input), kernel_size as int, stride as int),
    ensures
        max_pooled4(input@, out@, input.len() as int, channels_of(input), height_of(input), width_of(input),
            kernel_size as int, stride as int),
{
    let batch_size = input.len();
    let channels = input[0].len();
    let input_height = input[0][0].len();
    let input_width = input[0][0][0].len();
    max_pool_tensor4(input, batch_size, channels, input_height, input_width, kernel_size, stride)
}

/// Average pooling with non-overlapping `kernel_size x kernel_size` windows;
/// each output is the window's sum divided by the window's area, rounded down.
pub fn avg_pool2d_u8(input: &Tensor4<u8>, kernel_size: usize) -> (out: Tensor4<u8>)
    requires
        leading_entries(input),
        avg_pool_reads_ok4(input@, input.len() as int, channels_of(input), height_of(input), width_of(input),
            kernel_size as int),
        kernel_size > 0,
        (height_of(input) / (kernel_size as int) > 0 && width_of(input) / (kernel_size as int) > 0)
            ==> kernel_size * kernel_size <= u32::MAX,
        all_window_sums_fit(input@, input.len() as int, channels_of(input), height_of(input), width_of(input),
            kernel_size as int),
    ensures
        avg_pooled4(input@, out@, input.len() as int, channels_of(input), height_of(input), width_of(input),
            kernel_size as int),
{
    let batch_size = input.len();
    let channels = input[0].len();
    let input_height = input[0][0].len();
    let input_width = input[0][0][0].len();
    avg_pool_tensor4(input, batch_size, channels, input_height, input_width, kernel_size)
}

/// The number of inputs that output `o` of the dense layer reads: the
/// flattened image size, or fewer if that output's weight row is shorter.
pub open spec fn fc_inputs(input: &Tensor4<u8>, weights: &Vec<Vec<u8>>, o: int) -> int {
    let n = channels_of(input) * height_of(input) * width_of(input);
    if n <= weights[o].len() {
        n
    } else {
        weights[o].len() as int
    }
}

/// The dense-layer sum of image `b` for output `o`: its flattened entries
/// times the weight row, over `fc_inputs` positions.
pub open spec fn fc_term(input: &Tensor4<u8>, weights: &Vec<Vec<u8>>, b: int, o: int) -> spec_fn(int) -> int {
    dot_term(flat_seq3(input[b]@, channels_of(input), height_of(input), width_of(input)), weights[o]@, 0, 0)
}

/// The integer stage of the ResNet-18 dense layer: for each image `b` and
/// each weight row `o`, the `i32` sum of the image's flattened entries times
/// the weights. `None` exactly when some running sum leaves the `i32` range.
pub fn fully_connected_sums(input: &Tensor4<u8>, weights: &Vec<Vec<u8>>) -> (res: Option<Vec<Vec<i32>>>)
    requires
        leading_entries(input),
        covers4(input, input.len() as int, channels_of(input), height_of(input), width_of(input)),
        channels_of(input) * height_of(input) <= usize::MAX,
        channels_of(input) * height_of(input) * width_of(input) <= usize::MAX,
    ensures
        res is Some <==> forall|b: int, o: int|
            0 <= b < input.len() && 0 <= o < weights.len()
                ==> #[trigger] fits1(fc_term(input, weights, b, o), fc_inputs(input, weights, o)),
        res matches Some(out) ==> {
            &&& has_shape2(&out, input.len() as int, weights.len() as int)
            &&& forall|b: int, o: int|
                0 <= b < input.len() && 0 <= o < weights.len()
                    ==> #[trigger] out[b][o] == sum1(fc_term(input, weights, b, o), fc_inputs(input, weights, o))
        },
{
    let batch_size = input.len();
    let channels = input[0].len();
    let height = input[0][0].len();
    let width = input[0][0][0].len();
    let flattened_size = channels * height * width;
    let output_size = weights.len();
    let mut out: Vec<Vec<i32>> = Vec::new();
    let mut b: usize = 0;
    while b < batch_size
        invariant
            batch_size == input.len(),
            channels == channels_of(input),
            height == height_of(input),
            width == width_of(input),
            flattened_size == channels * height * width,
            output_size == weights.len(),
            covers4(input, input.len() as int, channels_of(input), height_of(input), width_of(input)),
            b <= batch_size,
            has_shape2(&out, b as int, output_size as int),
            forall|b2: int, o: int|
                0 <= b2 < b && 0 <= o < output_size ==> #[trigger] out[b2][o]
                    == sum1(fc_term(input, weights, b2, o), fc_inputs(input, weights, o)),
            forall|b2: int, o: int|
                0 <= b2 < b && 0 <= o < output_size ==> #[trigger] fits1(fc_term(input, weights, b2, o),
                    fc_inputs(input, weights, o)),
        decreases batch_size - b,
    {
        assert(crate::tensor::covers3(&input[b as int], channels as int, height as int, width as int));
        let flattened = flatten_image(&input[b], channels, height, width);
        let mut row: Vec<i32> = Vec::new();
        let mut o: usize = 0;
        while o < output_size
            invariant
                batch_size == input.len(),
                channels == channels_of(input),
                height == height_of(input),
                width == width_of(input),
                flattened_size == channels * height * width,
                output_size == weights.len(),
                b < batch_size,
                flattened@ == flat_seq3(input[b as int]@, channels as int, height as int, width as int),
                flattened.len() == flattened_size,
                o <= output_size,
                row.len() == o,
                forall|o2: int| 0 <= o2 < o ==> #[trigger] row[o2]
                    == sum1(fc_term(input, weights, b as int, o2), fc_inputs(input, weights, o2)),
                forall|o2: int| 0 <= o2 < o ==> #[trigger] fits1(fc_term(input, weights, b as int, o2),
                    fc_inputs(input, weights, o2)),
            decreases output_size - o,
        {
            let n: usize = if flattened_size <= weights[o].len() { flattened_size } else { weights[o].len() };
            match dot_accumulate(&flattened, &weights[o], n, 0, 0) {
                Some(v) => {
                    row.push(v);
                },
                None => {
                    assert(!fits1(fc_term(input, weights, b as int, o as int), fc_inputs(input, weights, o as int)));
                    return None;
                },
            }
            o = o + 1;
        }
        out.push(row);
        b = b + 1;
    }
    Some(out)
}

/// The entry of the residual branch of a basic block at `(b, c, h, w)` when
/// it is rebuilt to the block output's shape: the input's entry where the
/// input (with the dimensions of its first image) has one, the addition's
/// zero point elsewhere.
pub open spec fn residual_entry(input: &Tensor4<u8>, fill: u8, b: int, c: int, h: int, w: int) -> u8 {
    if b < input.len() && c < input[0].len() && h < input[0][0].len() && w < input[0][0][0].len() {
        input[b][c][h][w]
    } else {
        fill
    }
}

/// Entry `(b, c, h, w)` of `t` exists.
pub open spec fn has_entry(t: &Tensor4<u8>, b: int, c: int, h: int, w: int) -> bool {
    &&& c < t[b].len()
    &&& h < t[b][c].len()
    &&& w < t[b][c][h].len()
}

/// The residual branch keeps the input unchanged.
pub open spec fn residual_is_input(input: &Tensor4<u8>, conv_out: &Tensor4<u8>, stride: usize) -> bool {
    stride == 1 && input[0].len() == conv_out[0].len()
}

/// Every input entry that the rebuilt residual copies exists.
pub open spec fn residual_copy_ok(input: &Tensor4<u8>, conv_out: &Tensor4<u8>) -> bool {
    forall|b: int, c: int, h: int, w: int|
        0 <= b < conv_out.len() && 0 <= c < channels_of(conv_out) && 0 <= h < height_of(conv_out) && 0 <= w
            < width_of(conv_out) && b < input.len() && c < input[0].len() && h < input[0][0].len() && w
            < input[0][0][0].len() ==> #[trigger] has_entry(input, b, c, h, w)
}

/// The residual branch of a ResNet basic block: the input itself when the
/// block keeps the stride at 1 and the channel count, otherwise the input
/// cropped or padded with `add_output_zero` to the shape of the block's
/// convolution output `conv_out`.
pub fn block_residual(input: &Tensor4<u8>, conv_out: &Tensor4<u8>, stride: usize, add_output_zero: u8) -> (out: Tensor4<u8>)
    requires
        conv_out.len() > 0,
        stride == 1 ==> input.len() > 0,
        !residual_is_input(input, conv_out, stride) ==> {
            &&& conv_out[0].len() > 0
            &&& conv_out[0][0].len() > 0
            &&& residual_copy_ok(input, conv_out)
        },
    ensures
        residual_is_input(input, conv_out, stride) ==> same4(out@, input@),
        !residual_is_input(input, conv_out, stride) ==> {
            &&& has_shape4(&out, conv_out.len() as int, channels_of(conv_out), height_of(conv_out), width_of(conv_out))
            &&& forall|b: int, c: int, h: int, w: int|
                0 <= b < conv_out.len() && 0 <= c < channels_of(conv_out) && 0 <= h < height_of(conv_out)
                    && 0 <= w < width_of(conv_out)
                    ==> #[trigger] out[b][c][h][w] == residual_entry(input, add_output_zero, b, c, h, w)
            &&& forall|b: int, c: int, h: int, w: int|
                0 <= b < conv_out.len() && 0 <= c < channels_of(conv_out) && 0 <= h < height_of(conv_out)
                    && 0 <= w < width_of(conv_out) && b < input.len() && c < channels_of(input)
                    && h < height_of(input) && w < width_of(input)
                    ==> #[trigger] out[b][c][h][w] == input[b][c][h][w]
            &&& forall|b: int, c: int, h: int, w: int|
                0 <= b < conv_out.len() && 0 <= c < channels_of(conv_out) && 0 <= h < height_of(conv_out)
                    && 0 <= w < width_of(conv_out) && !(b < input.len() && c < channels_of(input)
                    && h < height_of(input) && w < width_of(input))
                    ==> #[trigger] out[b][c][h][w] == add_output_zero
        },
{
    if stride == 1 && input[0].len() == conv_out[0].len() {
        return copy_tensor4(input);
    }
    let batch = conv_out.len();
    let channels = conv_out[0].len();
    let height = conv_out[0][0].len();
    let width = conv_out[0][0][0].len();
    let in_b = input.len();
    let ghost d2 = channels as int;
    let ghost d3 = height as int;
    let ghost d4 = width as int;
    let mut out: Tensor4<u8> = Vec::new();
    let mut b: usize = 0;
    while b < batch
        invariant
            residual_copy_ok(input, conv_out),
            batch == conv_out.len(),
            d2 == channels_of(conv_out),
            d3 == height_of(conv_out),
            d4 == width_of(conv_out),
            in_b == input.len(),
            d2 == channels,
            d3 == height,
            d4 == width,
            b <= batch,
            has_shape4(&out, b as int, d2, d3, d4),
            forall|b2: int, c: int, h: int, w: int|
                0 <= b2 < b && 0 <= c < d2 && 0 <= h < d3 && 0 <= w < d4
                    ==> #[trigger] out[b2][c][h][w] == residual_entry(input, add_output_zero, b2, c, h, w),
        decreases batch - b,
    {
        let mut img: Vec<Vec<Vec<u8>>> = Vec::new();
        let mut c: usize = 0;
        while c < channels
            invariant
                residual_copy_ok(input, conv_out),
                batch == conv_out.len(),
                d2 == channels_of(conv_out),
                d3 == height_of(conv_out),
                d4 == width_of(conv_out),
                in_b == input.len(),
                d2 == channels,
                d3 == height,
                d4 == width,
                b < batch,
                c <= channels,
                img.len() == c,
                forall|c2: int| 0 <= c2 < c ==> has_shape2(#[trigger] &img[c2], d3, d4),
                forall|c2: int, h: int, w: int|
                    0 <= c2 < c && 0 <= h < d3 && 0 <= w < d4
                        ==> #[trigger] img[c2][h][w] == residual_entry(input, add_output_zero, b as int, c2, h, w),
            decreases channels - c,
        {
            let mut plane: Vec<Vec<u8>> = Vec::new();
            let mut h: usize = 0;
            while h < height
                invariant
                    residual_copy_ok(input, conv_out),
                    batch == conv_out.len(),
                    d2 == channels_of(conv_out),
                    d3 == height_of(conv_out),
                    d4 == width_of(conv_out),
                    in_b == input.len(),
                    d2 == channels,
                    d3 == height,
                    d4 == width,
                    b < batch,
                    c < channels,
                    h <= height,
                    has_shape2(&plane, h as int, d4),
                    forall|h2: int, w: int|
                        0 <= h2 < h && 0 <= w < d4
                            ==> #[trigger] plane[h2][w] == residual_entry(input, add_output_zero, b as int, c as int, h2, w),
                decreases height - h,
            {
                let mut row: Vec<u8> = Vec::new();
                let mut w: usize = 0;
                while w < width
                    invariant
                        residual_copy_ok(input, conv_out),
                        batch == conv_out.len(),
                        d2 == channels_of(conv_out),
                        d3 == height_of(conv_out),
                        d4 == width_of(conv_out),
                        in_b == input.len(),
                        d2 == channels,
                        d3 == height,
                        d4 == width,
                        b < batch,
                        c < channels,
                        h < height,
                        w <= width,
                        row.len() == w,
                        forall|w2: int|
                            0 <= w2 < w ==> #[trigger] row[w2] == residual_entry(input, add_output_zero, b as int,
                                c as int, h as int, w2),
                    decreases width - w,
                {
                    let v: u8 = if b < in_b && c < input[0].len() && h < input[0][0].len() && w < input[0][0][0].len() {
                        assert(has_entry(input, b as int, c as int, h as int, w as int));
                        input[b][c][h][w]
                    } else {
                        add_output_zero
                    };
                    row.push(v);
                    w = w + 1;
                }
                plane.push(row);
                h = h + 1;
            }
            img.push(plane);
            c = c + 1;
        }
        out.push(img);
        b = b + 1;
    }
    out
}

/// The rebuilt residual of image `b` depends on image `b` of the input alone
/// (and on the dimensions read off the first image): two inputs that agree
/// on image `b` and on those dimensions give it the same entries.
pub proof fn lemma_residual_image_independent(
    input: &Tensor4<u8>, input2: &Tensor4<u8>, fill: u8, b: int, c: int, h: int, w: int,
)
    requires
        input.len() == input2.len(),
        0 <= b < input.len(),
        input@[b] == input2@[b],
        channels_of(input) == channels_of(input2),
        height_of(input) == height_of(input2),
        width_of(input) == width_of(input2),
    ensures
        residual_entry(input, fill, b, c, h, w) == residual_entry(input2, fill, b, c, h, w),
{
}

/// The dense layer reads each image in row-major (channel, row, column)
/// order: a weight row that is one at the flattened position of entry
/// `(c, h, w)` and zero elsewhere sums to that entry of image `b`.
pub proof fn lemma_fc_selects_entry(input: &Tensor4<u8>, weights: &Vec<Vec<u8>>, b: int, o: int, c: int, h: int, w: int)
    requires
        0 <= c < channels_of(input),
        0 <= h < height_of(input),
        0 <= w < width_of(input),
        flat_index3(c, h, w, height_of(input), width_of(input)) < fc_inputs(input, weights, o),
        forall|j: int| 0 <= j < fc_inputs(input, weights, o) ==> #[trigger] weights[o][j]
            == if j == flat_index3(c, h, w, height_of(input), width_of(input)) { 1u8 } else { 0u8 },
    ensures
        sum1(fc_term(input, weights, b, o), fc_inputs(input, weights, o)) == input[b][c][h][w],
{
    let cn = channels_of(input);
    let hn = height_of(input);
    let wn = width_of(input);
    let p = flat_index3(c, h, w, hn, wn);
    let n = fc_inputs(input, weights, o);
    let flat = flat_seq3(input[b]@, cn, hn, wn);
    crate::tensor::lemma_flat_index3_order(c, h, w, cn, hn, wn);
    assert forall|j: int| 0 <= j < n implies #[trigger] weights[o]@[j] - 0u8 == if j == p { 1int } else { 0int } by {
        assert(weights[o][j] == if j == p { 1u8 } else { 0u8 });
    }
    crate::quantized::lemma_dot_selects_feature(flat, weights[o]@, 0, 0, n, p);
    vstd::arithmetic::div_mod::lemma_fundamental_div_mod_converse(p, wn, c * hn + h, w);
    vstd::arithmetic::div_mod::lemma_fundamental_div_mod_converse(c * hn + h, hn, c, h);
    assert(flat[p] == input[b][c][h][w]);
}

/// The settings of a ResNet-18 benchmark run.
pub struct ResNet18Benchmark {
    /// Batch, channels, height, width of the input.
    pub input_size: (usize, usize, usize, usize),
    /// How many forward passes the run times.
    pub num_iterations: usize,
}

impl ResNet18Benchmark {
    /// A benchmark on inputs of `batch_size x channels x height x width`,
    /// repeated `iterations` times.
    pub fn new(batch_size: usize, channels: usize, height: usize, width: usize, iterations: usize) -> (r: Self)
        ensures
            r.input_size == (batch_size, channels, height, width),
            r.num_iterations == iterations,
    {
        Self { input_size: (batch_size, channels, height, width), num_iterations: iterations }
    }
}

/// The approximate number of parameters of ResNet-18, counted as bytes.
pub const RESNET18_WEIGHT_BYTES: usize = 11_000_000;

/// Estimated memory of a ResNet-18 forward pass, in bytes.
pub struct MemoryEstimate {
    /// The input tensor.
    pub input_size: usize,
    /// The input and the intermediate activations of the five stages.
    pub activation_size: usize,
    /// The weights.
    pub weight_size: usize,
    /// Activations and weights together.
    pub total_size: usize,
}

/// `a * b * c * d`, each partial product taken from the left.
pub open spec fn product4(a: int, b: int, c: int, d: int) -> int {
    a * b * c * d
}

/// Every partial product of `a * b * c * d`, taken from the left, fits in a `usize`.
pub open spec fn product4_fits(a: int, b: int, c: int, d: int) -> bool {
    &&& a * b <= usize::MAX
    &&& a * b * c <= usize::MAX
    &&& a * b * c * d <= usize::MAX
}

/// The activation of stage `k` (0 for the input convolution): `batch x
/// channels x height / 2^k x width / 2^k`, with 64, 64, 128, 256, 512 channels.
pub open spec fn stage_size(batch: int, height: int, width: int, k: int) -> int {
    if k == 0 {
        product4(batch, 64, height, width)
    } else if k == 1 {
        product4(batch, 64, height / 2, width / 2)
    } else if k == 2 {
        product4(batch, 128, height / 4, width / 4)
    } else if k == 3 {
        product4(batch, 256, height / 8, width / 8)
    } else {
        product4(batch, 512, height / 16, width / 16)
    }
}

/// The activation memory: the input and the five stage activations.
pub open spec fn activation_total(batch: int, channels: int, height: int, width: int) -> int {
    product4(batch, channels, height, width) + stage_size(batch, height, width, 0) + stage_size(batch, height, width, 1)
        + stage_size(batch, height, width, 2) + stage_size(batch, height, width, 3) + stage_size(batch, height,
        width, 4)
}

/// Every quantity of the memory estimate, and every partial result on the
/// way, fits in a `usize`.
pub open spec fn memory_estimate_fits(batch: int, channels: int, height: int, width: int) -> bool {
    &&& product4_fits(batch, channels, height, width)
    &&& product4_fits(batch, 64, height, width)
    &&& product4_fits(batch, 64, height / 2, width / 2)
    &&& product4_fits(batch, 128, height / 4, width / 4)
    &&& product4_fits(batch, 256, height / 8, width / 8)
    &&& product4_fits(batch, 512, height / 16, width / 16)
    &&& activation_total(batch, channels, height, width) + RESNET18_WEIGHT_BYTES <= usize::MAX
}

/// The memory estimate of a ResNet-18 forward pass on a
/// `batch_size x input_channels x height x width` input.
pub fn memory_estimate(batch_size: usize, input_channels: usize, height: usize, width: usize) -> (r: MemoryEstimate)
    requires
        memory_estimate_fits(batch_size as int, input_channels as int, height as int, width as int),
    ensures
        r.input_size == product4(batch_size as int, input_channels as int, height as int, width as int),
        r.activation_size == activation_total(batch_size as int, input_channels as int, height as int, width as int),
        r.weight_size == RESNET18_WEIGHT_BYTES,
        r.total_size == r.activation_size + r.weight_size,
{
    let input_size = batch_size * input_channels * height * width;
    let conv1_size = batch_size * 64 * height * width;
    let conv2_size = batch_size * 64 * (height / 2) * (width / 2);
    let conv3_size = batch_size * 128 * (height / 4) * (width / 4);
    let conv4_size = batch_size * 256 * (height / 8) * (width / 8);
    let conv5_size = batch_size * 512 * (height / 16) * (width / 16);
    let total_activation_size = input_size + conv1_size + conv2_size + conv3_size + conv4_size + conv5_size;
    let weight_size = RESNET18_WEIGHT_BYTES;
    let total_memory = total_activation_size + weight_size;
    MemoryEstimate {
        input_size,
        activation_size: total_activation_size,
        weight_size,
        total_size: total_memory,
    }
}

} // verus!
