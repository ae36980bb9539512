use vstd::prelude::*;
use crate::tensor::{Tensor4, has_shape2};

verus! {

// ---------------------------------------------------------------------------
// Sums over index ranges, and the condition that a running `i32` sum never
// leaves the `i32` range.
// ---------------------------------------------------------------------------

/// `v` is representable as an `i32`.
pub open spec fn in_i32(v: int) -> bool {
    i32::MIN <= v <= i32::MAX
}

/// `f(0) + ... + f(n - 1)`.
pub open spec fn sum1(f: spec_fn(int) -> int, n: int) -> int
    decreases n,
{
    if n <= 0 {
        0
    } else {
        sum1(f, n - 1) + f(n - 1)
    }
}

/// After adding the term with index `k`, the running sum still fits in an `i32`.
pub open spec fn step1_ok(f: spec_fn(int) -> int, k: int) -> bool {
    in_i32(sum1(f, k + 1))
}

/// Adding `f(0), ..., f(n - 1)` one by one to an `i32` that starts at zero never overflows.
pub open spec fn fits1(f: spec_fn(int) -> int, n: int) -> bool {
    forall|k: int| 0 <= k < n ==> #[trigger] step1_ok(f, k)
}

/// `f(i, j, 0) + ... + f(i, j, n - 1)`.
pub open spec fn sum_w(f: spec_fn(int, int, int) -> int, i: int, j: int, n: int) -> int
    decreases n,
{
    if n <= 0 {
        0
    } else {
        sum_w(f, i, j, n - 1) + f(i, j, n - 1)
    }
}

/// The sum of `f(i, j, k)` over `j < n` and `k < nw`.
pub open spec fn sum_h(f: spec_fn(int, int, int) -> int, i: int, n: int, nw: int) -> int
    decreases n,
{
    if n <= 0 {
        0
    } else {
        sum_h(f, i, n - 1, nw) + sum_w(f, i, n - 1, nw)
    }
}

/// The sum of `f(i, j, k)` over `i < n`, `j < nh` and `k < nw`.
pub open spec fn sum3(f: spec_fn(int, int, int) -> int, n: int, nh: int, nw: int) -> int
    decreases n,
{
    if n <= 0 {
        0
    } else {
        sum3(f, n - 1, nh, nw) + sum_h(f, n - 1, nh, nw)
    }
}

/// The running sum after the terms that precede `(i, j, k)` in the order
/// `i`, then `j`, then `k`.
pub open spec fn running3(f: spec_fn(int, int, int) -> int, i: int, j: int, k: int, nh: int, nw: int) -> int {
    sum3(f, i, nh, nw) + sum_h(f, i, j, nw) + sum_w(f, i, j, k)
}

/// After adding the term `(i, j, k)`, the running sum still fits in an `i32`.
pub open spec fn step3_ok(f: spec_fn(int, int, int) -> int, i: int, j: int, k: int, nh: int, nw: int) -> bool {
    in_i32(running3(f, i, j, k + 1, nh, nw))
}

/// Adding every term of the triple sum, in order, to an `i32` that starts at
/// zero never overflows.
pub open spec fn fits3(f: spec_fn(int, int, int) -> int, n: int, nh: int, nw: int) -> bool {
    forall|i: int, j: int, k: int|
        0 <= i < n && 0 <= j < nh && 0 <= k < nw ==> #[trigger] step3_ok(f, i, j, k, nh, nw)
}

// ---------------------------------------------------------------------------
// Dot products with zero points.
// ---------------------------------------------------------------------------

/// The `i`-th term of a zero-point-corrected dot product.
pub open spec fn dot_term(x: Seq<u8>, w: Seq<u8>, xz: u8, wz: u8) -> spec_fn(int) -> int {
    |i: int| (x[i] - xz) * (w[i] - wz)
}

/// Accumulates `(x[i] - xz) * (w[i] - wz)` for `i < n` in an `i32`, term by
/// term; `None` exactly when a running sum leaves the `i32` range.
pub fn dot_accumulate(x: &Vec<u8>, w: &Vec<u8>, n: usize, xz: u8, wz: u8) -> (res: Option<i32>)
    requires
        n <= x.len(),
        n <= w.len(),
    ensures
        res is Some <==> fits1(dot_term(x@, w@, xz, wz), n as int),
        res matches Some(v) ==> v == sum1(dot_term(x@, w@, xz, wz), n as int),
{
    let ghost f = dot_term(x@, w@, xz, wz);
    let mut acc: i32 = 0;
    let mut i: usize = 0;
    while i < n
        invariant
            i <= n,
            n <= x.len(),
            n <= w.len(),
            f == dot_term(x@, w@, xz, wz),
            acc == sum1(f, i as int),
            forall|k: int| 0 <= k < i ==> #[trigger] step1_ok(f, k),
        decreases n - i,
    {
        let xv: i32 = x[i] as i32 - xz as i32;
        let wv: i32 = w[i] as i32 - wz as i32;
        assert(-255 <= xv <= 255 && -255 <= wv <= 255);
        assert(-65025 <= xv * wv <= 65025) by (nonlinear_arith)
            requires
                -255 <= xv <= 255,
                -255 <= wv <= 255,
        ;
        let t: i32 = xv * wv;
        assert(t == f(i as int));
        match acc.checked_add(t) {
            Some(v) => {
                acc = v;
            },
            None => {
                assert(!step1_ok(f, i as int));
                return None;
            },
        }
        i = i + 1;
    }
    Some(acc)
}

// ---------------------------------------------------------------------------
// Convolution accumulators.
// ---------------------------------------------------------------------------

/// The spatial size of a convolution's output along one axis:
/// `(len + 2 * padding - kernel) / stride + 1`.
pub open spec fn conv_out_dim(len: int, padding: int, kernel: int, stride: int) -> int {
    (len + 2 * padding - kernel) / stride + 1
}

/// The term `(ic, kh, kw)` of the convolution sum at output `(oc, oh, ow)`:
/// the zero-point-corrected product of input and weight, or zero where the
/// kernel lies over the padding (the padding holds the input zero point).
pub open spec fn conv_term(
    x: Seq<Vec<Vec<u8>>>,
    wt: Seq<Vec<Vec<Vec<u8>>>>,
    xz: u8,
    wz: u8,
    h: int,
    w: int,
    stride: int,
    padding: int,
    oc: int,
    oh: int,
    ow: int,
) -> spec_fn(int, int, int) -> int {
    |ic: int, kh: int, kw: int|
        {
            let ih = oh * stride + kh - padding;
            let iw = ow * stride + kw - padding;
            if 0 <= ih < h && 0 <= iw < w {
                (x[ic][ih][iw] - xz) * (wt[oc][ic][kh][kw] - wz)
            } else {
                0
            }
        }
}

/// At output `(oc, oh, ow)`, kernel position `(kh, kw)` of input channel
/// `ic`, when it lies on the `h x w` input, meets an input entry and a
/// weight that exist.
pub open spec fn conv_read_ok(
    x: Seq<Vec<Vec<u8>>>,
    wt: Seq<Vec<Vec<Vec<u8>>>>,
    h: int,
    w: int,
    stride: int,
    padding: int,
    oc: int,
    oh: int,
    ow: int,
    ic: int,
    kh: int,
    kw: int,
) -> bool {
    let ih = oh * stride + kh - padding;
    let iw = ow * stride + kw - padding;
    0 <= ih < h && 0 <= iw < w ==> {
        &&& ic < x.len() && ih < x[ic].len() && iw < x[ic][ih].len()
        &&& oc < wt.len() && ic < wt[oc].len() && kh < wt[oc][ic].len() && kw < wt[oc][ic][kh].len()
    }
}

/// Every input entry and weight that the convolution of image `x` reads exists.
pub open spec fn conv_reads_ok(
    x: Seq<Vec<Vec<u8>>>, wt: Seq<Vec<Vec<Vec<u8>>>>,
    h: int, w: int, n_oc: int, n_ic: int, n_kh: int, n_kw: int, stride: int, padding: int,
) -> bool {
    forall|oc: int, oh: int, ow: int, ic: int, kh: int, kw: int|
        0 <= oc < n_oc && 0 <= oh < conv_out_dim(h, padding, n_kh, stride) && 0 <= ow < conv_out_dim(w, padding, n_kw, stride)
            && 0 <= ic < n_ic && 0 <= kh < n_kh && 0 <= kw < n_kw
            ==> #[trigger] conv_read_ok(x, wt, h, w, stride, padding, oc, oh, ow, ic, kh, kw)
}

proof fn lemma_window_index(o: int, n_out: int, len: int, padding: int, kernel: int, stride: int, k: int)
    requires
        stride > 0,
        len + 2 * padding >= kernel,
        n_out == conv_out_dim(len, padding, kernel, stride),
        0 <= o < n_out,
        0 <= k < kernel,
    ensures
        0 <= o * stride + k < len + 2 * padding,
{
    let q = (len + 2 * padding - kernel) / stride;
    assert(o <= q);
    assert(q * stride <= len + 2 * padding - kernel) by (nonlinear_arith)
        requires
            stride > 0,
            len + 2 * padding - kernel >= 0,
            q == (len + 2 * padding - kernel) / stride,
    ;
    assert(o * stride <= q * stride) by (nonlinear_arith)
        requires
            o <= q,
            stride > 0,
    ;
    assert(0 <= o * stride) by (nonlinear_arith)
        requires
            o >= 0,
            stride > 0,
    ;
}

/// The `i32` convolution sum at one output position, accumulated in the order
/// input channel, kernel row, kernel column; `None` exactly when a running sum
/// leaves the `i32` range.
#[verifier::loop_isolation(false)]
fn conv_accumulate_at(
    x: &Vec<Vec<Vec<u8>>>,
    wt: &Tensor4<u8>,
    xz: u8,
    wz: u8,
    h: usize,
    w: usize,
    n_ic: usize,
    n_kh: usize,
    n_kw: usize,
    stride: usize,
    padding: usize,
    oc: usize,
    oh: usize,
    ow: usize,
) -> (res: Option<i32>)
    requires
        stride > 0,
        h + 2 * padding <= usize::MAX,
        w + 2 * padding <= usize::MAX,
        h + 2 * padding >= n_kh,
        w + 2 * padding >= n_kw,
        oh < conv_out_dim(h as int, padding as int, n_kh as int, stride as int),
        ow < conv_out_dim(w as int, padding as int, n_kw as int, stride as int),
        forall|ic: int, kh: int, kw: int|
            0 <= ic < n_ic && 0 <= kh < n_kh && 0 <= kw < n_kw ==> #[trigger] conv_read_ok(x@, wt@, h as int,
                w as int, stride as int, padding as int, oc as int, oh as int, ow as int, ic, kh, kw),
    ensures
        ({
            let f = conv_term(x@, wt@, xz, wz, h as int, w as int, stride as int, padding as int,
                oc as int, oh as int, ow as int);
            &&& res is Some <==> fits3(f, n_ic as int, n_kh as int, n_kw as int)
            &&& res matches Some(v) ==> v == sum3(f, n_ic as int, n_kh as int, n_kw as int)
        }),
{
    let ghost f = conv_term(x@, wt@, xz, wz, h as int, w as int, stride as int, padding as int,
        oc as int, oh as int, ow as int);
    let ghost nh = n_kh as int;
    let ghost nw = n_kw as int;
    let mut acc: i32 = 0;
    let mut ic: usize = 0;
    while ic < n_ic
        invariant
            ic <= n_ic,
            acc == sum3(f, ic as int, nh, nw),
            forall|i: int, j: int, k: int|
                0 <= i < ic && 0 <= j < nh && 0 <= k < nw ==> #[trigger] step3_ok(f, i, j, k, nh, nw),
        decreases n_ic - ic,
    {
        let mut kh: usize = 0;
        while kh < n_kh
            invariant
                ic < n_ic,
                kh <= n_kh,
                acc == sum3(f, ic as int, nh, nw) + sum_h(f, ic as int, kh as int, nw),
                forall|i: int, j: int, k: int|
                    0 <= i < ic && 0 <= j < nh && 0 <= k < nw ==> #[trigger] step3_ok(f, i, j, k, nh, nw),
                forall|j: int, k: int|
                    0 <= j < kh && 0 <= k < nw ==> #[trigger] step3_ok(f, ic as int, j, k, nh, nw),
            decreases n_kh - kh,
        {
            let mut kw: usize = 0;
            while kw < n_kw
                invariant
                    ic < n_ic,
                    kh < n_kh,
                    kw <= n_kw,
                    acc == running3(f, ic as int, kh as int, kw as int, nh, nw),
                    forall|i: int, j: int, k: int|
                        0 <= i < ic && 0 <= j < nh && 0 <= k < nw ==> #[trigger] step3_ok(f, i, j, k, nh, nw),
                    forall|j: int, k: int|
                        0 <= j < kh && 0 <= k < nw ==> #[trigger] step3_ok(f, ic as int, j, k, nh, nw),
                    forall|k: int| 0 <= k < kw ==> #[trigger] step3_ok(f, ic as int, kh as int, k, nh, nw),
                decreases n_kw - kw,
            {
                proof {
                    lemma_window_index(oh as int, conv_out_dim(h as int, padding as int, n_kh as int, stride as int),
                        h as int, padding as int, n_kh as int, stride as int, kh as int);
                    lemma_window_index(ow as int, conv_out_dim(w as int, padding as int, n_kw as int, stride as int),
                        w as int, padding as int, n_kw as int, stride as int, kw as int);
                }
                let ih = oh * stride + kh;
                let iw = ow * stride + kw;
                let t: i32 = if ih >= padding && ih < h + padding && iw >= padding && iw < w + padding {
                    assert(conv_read_ok(x@, wt@, h as int, w as int, stride as int, padding as int, oc as int,
                        oh as int, ow as int, ic as int, kh as int, kw as int));
                    let xv: i32 = x[ic][ih - padding][iw - padding] as i32 - xz as i32;
                    let wv: i32 = wt[oc][ic][kh][kw] as i32 - wz as i32;
                    assert(-65025 <= xv * wv <= 65025) by (nonlinear_arith)
                        requires
                            -255 <= xv <= 255,
                            -255 <= wv <= 255,
                    ;
                    xv * wv
                } else {
                    0
                };
                assert(t == f(ic as int, kh as int, kw as int));
                match acc.checked_add(t) {
                    Some(v) => {
                        acc = v;
                    },
                    None => {
                        assert(!step3_ok(f, ic as int, kh as int, kw as int, nh, nw));
                        return None;
                    },
                }
                kw = kw + 1;
            }
            kh = kh + 1;
        }
        ic = ic + 1;
    }
    Some(acc)
}

/// The convolution sum at output `(oc, oh, ow)` of image `x` with weights `wt`.
pub open spec fn conv_value_at(
    x: Seq<Vec<Vec<u8>>>, wt: Seq<Vec<Vec<Vec<u8>>>>, xz: u8, wz: u8,
    h: int, w: int, n_ic: int, n_kh: int, n_kw: int, stride: int, padding: int,
    oc: int, oh: int, ow: int,
) -> int {
    sum3(conv_term(x, wt, xz, wz, h, w, stride, padding, oc, oh, ow), n_ic, n_kh, n_kw)
}

/// The convolution sum at output `(oc, oh, ow)` is accumulated without an
/// `i32` overflow.
pub open spec fn conv_fits_at(
    x: Seq<Vec<Vec<u8>>>, wt: Seq<Vec<Vec<Vec<u8>>>>, xz: u8, wz: u8,
    h: int, w: int, n_ic: int, n_kh: int, n_kw: int, stride: int, padding: int,
    oc: int, oh: int, ow: int,
) -> bool {
    fits3(conv_term(x, wt, xz, wz, h, w, stride, padding, oc, oh, ow), n_ic, n_kh, n_kw)
}

/// Every output of the convolution of image `x` is accumulated without an
/// `i32` overflow.
pub open spec fn conv_fits_image(
    x: Seq<Vec<Vec<u8>>>, wt: Seq<Vec<Vec<Vec<u8>>>>, xz: u8, wz: u8,
    h: int, w: int, n_oc: int, n_ic: int, n_kh: int, n_kw: int, stride: int, padding: int,
) -> bool {
    forall|oc: int, oh: int, ow: int|
        0 <= oc < n_oc && 0 <= oh < conv_out_dim(h, padding, n_kh, stride)
            && 0 <= ow < conv_out_dim(w, padding, n_kw, stride)
            ==> #[trigger] conv_fits_at(x, wt, xz, wz, h, w, n_ic, n_kh, n_kw, stride, padding, oc, oh, ow)
}

/// `out` holds the convolution sums of image `x`: one `oh_n x ow_n` plane of
/// sums per output channel.
pub open spec fn conv_image_result(
    out: Seq<Vec<Vec<i32>>>, x: Seq<Vec<Vec<u8>>>, wt: Seq<Vec<Vec<Vec<u8>>>>, xz: u8, wz: u8,
    h: int, w: int, n_oc: int, n_ic: int, n_kh: int, n_kw: int, stride: int, padding: int,
) -> bool {
    let oh_n = conv_out_dim(h, padding, n_kh, stride);
    let ow_n = conv_out_dim(w, padding, n_kw, stride);
    &&& out.len() == n_oc
    &&& forall|oc: int| 0 <= oc < n_oc ==> has_shape2(#[trigger] &out[oc], oh_n, ow_n)
    &&& forall|oc: int, oh: int, ow: int|
        0 <= oc < n_oc && 0 <= oh < oh_n && 0 <= ow < ow_n ==> #[trigger] out[oc][oh][ow]
            == conv_value_at(x, wt, xz, wz, h, w, n_ic, n_kh, n_kw, stride, padding, oc, oh, ow)
}

/// The geometry of a convolution is one the computation can carry out: a
/// positive stride, a kernel no larger than the padded input, and sizes that
/// fit in a `usize`.
pub open spec fn conv_geometry_ok(h: int, w: int, n_kh: int, n_kw: int, stride: int, padding: int) -> bool {
    &&& stride > 0
    &&& h + 2 * padding <= usize::MAX
    &&& w + 2 * padding <= usize::MAX
    &&& h + 2 * padding >= n_kh
    &&& w + 2 * padding >= n_kw
    &&& conv_out_dim(h, padding, n_kh, stride) <= usize::MAX
    &&& conv_out_dim(w, padding, n_kw, stride) <= usize::MAX
}

/// The `i32` accumulators of a quantized convolution of one image: for every
/// output channel and position, the sum over input channels and kernel
/// positions of `(input - xz) * (weight - wz)`, where positions over the
/// padding contribute zero. `None` exactly when some running sum leaves the
/// `i32` range.
#[verifier::loop_isolation(false)]
pub fn conv_accumulate_image(
    x: &Vec<Vec<Vec<u8>>>,
    wt: &Tensor4<u8>,
    xz: u8,
    wz: u8,
    h: usize,
    w: usize,
    n_oc: usize,
    n_ic: usize,
    n_kh: usize,
    n_kw: usize,
    stride: usize,
    padding: usize,
) -> (res: Option<Vec<Vec<Vec<i32>>>>)
    requires
        conv_geometry_ok(h as int, w as int, n_kh as int, n_kw as int, stride as int, padding as int),
        conv_reads_ok(x@, wt@, h as int, w as int, n_oc as int, n_ic as int, n_kh as int, n_kw as int,
            stride as int, padding as int),
    ensures
        res is Some <==> conv_fits_image(x@, wt@, xz, wz, h as int, w as int, n_oc as int,
            n_ic as int, n_kh as int, n_kw as int, stride as int, padding as int),
        res matches Some(out) ==> conv_image_result(out@, x@, wt@, xz, wz, h as int, w as int, n_oc as int,
            n_ic as int, n_kh as int, n_kw as int, stride as int, padding as int),
{
    let oh_n: usize = (h + 2 * padding - n_kh) / stride + 1;
    let ow_n: usize = (w + 2 * padding - n_kw) / stride + 1;
    let ghost g = |oc: int, oh: int, ow: int|
        conv_value_at(x@, wt@, xz, wz, h as int, w as int, n_ic as int, n_kh as int, n_kw as int,
            stride as int, padding as int, oc, oh, ow);
    let ghost ok = |oc: int, oh: int, ow: int|
        conv_fits_at(x@, wt@, xz, wz, h as int, w as int, n_ic as int, n_kh as int, n_kw as int,
            stride as int, padding as int, oc, oh, ow);
    let mut out: Vec<Vec<Vec<i32>>> = Vec::new();
    let mut oc: usize = 0;
    while oc < n_oc
        invariant
            oc <= n_oc,
            out.len() == oc,
            forall|a: int| 0 <= a < oc ==> has_shape2(#[trigger] &out[a], oh_n as int, ow_n as int),
            forall|a: int, i: int, j: int|
                0 <= a < oc && 0 <= i < oh_n && 0 <= j < ow_n ==> #[trigger] out[a][i][j] == g(a, i, j),
            forall|a: int, i: int, j: int|
                0 <= a < oc && 0 <= i < oh_n && 0 <= j < ow_n ==> #[trigger] conv_fits_at(x@, wt@, xz, wz,
                    h as int, w as int, n_ic as int, n_kh as int, n_kw as int, stride as int, padding as int, a, i, j),
        decreases n_oc - oc,
    {
        let mut plane: Vec<Vec<i32>> = Vec::new();
        let mut oh: usize = 0;
        while oh < oh_n
            invariant
                oc < n_oc,
                oh <= oh_n,
                has_shape2(&plane, oh as int, ow_n as int),
                forall|i: int, j: int| 0 <= i < oh && 0 <= j < ow_n ==> #[trigger] plane[i][j] == g(oc as int, i, j),
                forall|i: int, j: int|
                    0 <= i < oh && 0 <= j < ow_n ==> #[trigger] conv_fits_at(x@, wt@, xz, wz,
                        h as int, w as int, n_ic as int, n_kh as int, n_kw as int, stride as int, padding as int,
                        oc as int, i, j),
            decreases oh_n - oh,
        {
            let mut row: Vec<i32> = Vec::new();
            let mut ow: usize = 0;
            while ow < ow_n
                invariant
                    oc < n_oc,
                    oh < oh_n,
                    ow <= ow_n,
                    row.len() == ow,
                    forall|j: int| 0 <= j < ow ==> #[trigger] row[j] == g(oc as int, oh as int, j),
                    forall|j: int|
                        0 <= j < ow ==> #[trigger] conv_fits_at(x@, wt@, xz, wz,
                            h as int, w as int, n_ic as int, n_kh as int, n_kw as int, stride as int, padding as int,
                            oc as int, oh as int, j),
                decreases ow_n - ow,
            {
                match conv_accumulate_at(x, wt, xz, wz, h, w, n_ic, n_kh, n_kw, stride, padding, oc, oh, ow) {
                    Some(v) => {
                        row.push(v);
                    },
                    None => {
                        assert(!conv_fits_at(x@, wt@, xz, wz, h as int, w as int, n_ic as int, n_kh as int,
                            n_kw as int, stride as int, padding as int, oc as int, oh as int, ow as int));
                        return None;
                    },
                }
                ow = ow + 1;
            }
            plane.push(row);
            oh = oh + 1;
        }
        out.push(plane);
        oc = oc + 1;
    }
    Some(out)
}

/// The terms `f(i, j, k)` with `i < n`, `j < nh`, `k < nw` are all zero.
spec fn zero_terms(f: spec_fn(int, int, int) -> int, n: int, nh: int, nw: int) -> bool {
    forall|i: int, j: int, k: int| 0 <= i < n && 0 <= j < nh && 0 <= k < nw ==> #[trigger] f(i, j, k) == 0
}

proof fn lemma_sum_w_zero(f: spec_fn(int, int, int) -> int, i: int, j: int, m: int)
    requires
        forall|c: int| 0 <= c < m ==> #[trigger] f(i, j, c) == 0,
    ensures
        sum_w(f, i, j, m) == 0,
    decreases m,
{
    if m > 0 {
        lemma_sum_w_zero(f, i, j, m - 1);
    }
}

proof fn lemma_sum_h_zero(f: spec_fn(int, int, int) -> int, i: int, m: int, nw: int)
    requires
        forall|b: int, c: int| 0 <= b < m && 0 <= c < nw ==> #[trigger] f(i, b, c) == 0,
    ensures
        sum_h(f, i, m, nw) == 0,
        forall|b: int, c: int| 0 <= b < m && 0 <= c <= nw ==> #[trigger] sum_w(f, i, b, c) == 0,
    decreases m,
{
    assert forall|b: int, c: int| 0 <= b < m && 0 <= c <= nw implies #[trigger] sum_w(f, i, b, c) == 0 by {
        assert forall|c2: int| 0 <= c2 < c implies #[trigger] f(i, b, c2) == 0 by {}
        lemma_sum_w_zero(f, i, b, c);
    }
    if m > 0 {
        lemma_sum_h_zero(f, i, m - 1, nw);
    }
}

proof fn lemma_sum3_zero(f: spec_fn(int, int, int) -> int, m: int, nh: int, nw: int)
    requires
        zero_terms(f, m, nh, nw),
    ensures
        sum3(f, m, nh, nw) == 0,
        forall|a: int, b: int| 0 <= a < m && 0 <= b <= nh ==> #[trigger] sum_h(f, a, b, nw) == 0,
        forall|a: int, b: int, c: int| 0 <= a < m && 0 <= b < nh && 0 <= c <= nw ==> #[trigger] sum_w(f, a, b, c) == 0,
    decreases m,
{
    assert forall|a: int, b: int| 0 <= a < m && 0 <= b <= nh implies #[trigger] sum_h(f, a, b, nw) == 0 by {
        assert forall|b2: int, c: int| 0 <= b2 < b && 0 <= c < nw implies #[trigger] f(a, b2, c) == 0 by {}
        lemma_sum_h_zero(f, a, b, nw);
    }
    assert forall|a: int, b: int, c: int| 0 <= a < m && 0 <= b < nh && 0 <= c <= nw
        implies #[trigger] sum_w(f, a, b, c) == 0 by {
        assert forall|b2: int, c2: int| 0 <= b2 < nh && 0 <= c2 < nw implies #[trigger] f(a, b2, c2) == 0 by {}
        lemma_sum_h_zero(f, a, nh, nw);
    }
    if m > 0 {
        lemma_sum3_zero(f, m - 1, nh, nw);
    }
}

proof fn lemma_conv_zero_terms_sum(
    x: Seq<Vec<Vec<u8>>>, wt: Seq<Vec<Vec<Vec<u8>>>>, xz: u8, wz: u8,
    h: int, w: int, n_ic: int, n_kh: int, n_kw: int, stride: int, padding: int, oc: int, oh: int, ow: int,
)
    requires
        zero_terms(conv_term(x, wt, xz, wz, h, w, stride, padding, oc, oh, ow), n_ic, n_kh, n_kw),
    ensures
        conv_value_at(x, wt, xz, wz, h, w, n_ic, n_kh, n_kw, stride, padding, oc, oh, ow) == 0,
        conv_fits_at(x, wt, xz, wz, h, w, n_ic, n_kh, n_kw, stride, padding, oc, oh, ow),
{
    let f = conv_term(x, wt, xz, wz, h, w, stride, padding, oc, oh, ow);
    lemma_sum3_zero(f, n_ic, n_kh, n_kw);
    assert forall|i: int, j: int, k: int|
        0 <= i < n_ic && 0 <= j < n_kh && 0 <= k < n_kw implies #[trigger] step3_ok(f, i, j, k, n_kh, n_kw) by {
        assert(zero_terms(f, i, n_kh, n_kw));
        lemma_sum3_zero(f, i, n_kh, n_kw);
        assert(sum_h(f, i, j, n_kw) == 0);
        assert(sum_w(f, i, j, k + 1) == 0);
    }
}

/// A convolution whose weights all equal the weight zero point sums to zero
/// at every output, without overflow.
pub proof fn lemma_conv_of_zero_point_weights(
    x: Seq<Vec<Vec<u8>>>, wt: Seq<Vec<Vec<Vec<u8>>>>, xz: u8, wz: u8,
    h: int, w: int, n_oc: int, n_ic: int, n_kh: int, n_kw: int, stride: int, padding: int,
)
    requires
        forall|oc: int, ic: int, kh: int, kw: int|
            0 <= oc < n_oc && 0 <= ic < n_ic && 0 <= kh < n_kh && 0 <= kw < n_kw
                ==> #[trigger] wt[oc][ic][kh][kw] == wz,
    ensures
        conv_fits_image(x, wt, xz, wz, h, w, n_oc, n_ic, n_kh, n_kw, stride, padding),
        forall|oc: int, oh: int, ow: int|
            0 <= oc < n_oc ==> #[trigger] conv_value_at(x, wt, xz, wz, h, w, n_ic, n_kh, n_kw, stride, padding, oc,
                oh, ow) == 0,
{
    assert forall|oc: int, oh: int, ow: int|
        #![trigger conv_fits_at(x, wt, xz, wz, h, w, n_ic, n_kh, n_kw, stride, padding, oc, oh, ow)]
        #![trigger conv_value_at(x, wt, xz, wz, h, w, n_ic, n_kh, n_kw, stride, padding, oc, oh, ow)]
        0 <= oc < n_oc implies conv_fits_at(x, wt, xz, wz, h, w, n_ic, n_kh, n_kw, stride, padding, oc, oh, ow)
            && conv_value_at(x, wt, xz, wz, h, w, n_ic, n_kh, n_kw, stride, padding, oc, oh, ow) == 0 by {
        let f = conv_term(x, wt, xz, wz, h, w, stride, padding, oc, oh, ow);
        assert forall|i: int, j: int, k: int| 0 <= i < n_ic && 0 <= j < n_kh && 0 <= k < n_kw
            implies #[trigger] f(i, j, k) == 0 by {
            assert(wt[oc][i][j][k] == wz);
        }
        lemma_conv_zero_terms_sum(x, wt, xz, wz, h, w, n_ic, n_kh, n_kw, stride, padding, oc, oh, ow);
    }
}

/// A convolution of an input whose entries all equal the input zero point
/// sums to zero at every output, without overflow.
pub proof fn lemma_conv_of_zero_point_input(
    x: Seq<Vec<Vec<u8>>>, wt: Seq<Vec<Vec<Vec<u8>>>>, xz: u8, wz: u8,
    h: int, w: int, n_oc: int, n_ic: int, n_kh: int, n_kw: int, stride: int, padding: int,
)
    requires
        forall|ic: int, ih: int, iw: int| 0 <= ic < n_ic && 0 <= ih < h && 0 <= iw < w ==> #[trigger] x[ic][ih][iw] == xz,
    ensures
        conv_fits_image(x, wt, xz, wz, h, w, n_oc, n_ic, n_kh, n_kw, stride, padding),
        forall|oc: int, oh: int, ow: int|
            #[trigger] conv_value_at(x, wt, xz, wz, h, w, n_ic, n_kh, n_kw, stride, padding, oc, oh, ow) == 0,
{
    assert forall|oc: int, oh: int, ow: int|
        #![trigger conv_fits_at(x, wt, xz, wz, h, w, n_ic, n_kh, n_kw, stride, padding, oc, oh, ow)]
        #![trigger conv_value_at(x, wt, xz, wz, h, w, n_ic, n_kh, n_kw, stride, padding, oc, oh, ow)]
        conv_fits_at(x, wt, xz, wz, h, w, n_ic, n_kh, n_kw, stride, padding, oc, oh, ow)
            && conv_value_at(x, wt, xz, wz, h, w, n_ic, n_kh, n_kw, stride, padding, oc, oh, ow) == 0 by {
        let f = conv_term(x, wt, xz, wz, h, w, stride, padding, oc, oh, ow);
        assert forall|i: int, j: int, k: int| 0 <= i < n_ic && 0 <= j < n_kh && 0 <= k < n_kw
            implies #[trigger] f(i, j, k) == 0 by {
            let ih = oh * stride + j - padding;
            let iw = ow * stride + k - padding;
            if 0 <= ih < h && 0 <= iw < w {
                assert(x[i][ih][iw] == xz);
                let d = wt[oc][i][j][k] - wz;
                assert(f(i, j, k) == (x[i][ih][iw] - xz) * d);
                assert(0 * d == 0);
            }
        }
        lemma_conv_zero_terms_sum(x, wt, xz, wz, h, w, n_ic, n_kh, n_kw, stride, padding, oc, oh, ow);
    }
}

// ---------------------------------------------------------------------------
// What the dot products and convolutions compute.
// ---------------------------------------------------------------------------

proof fn lemma_sum1_congruent(f: spec_fn(int) -> int, g: spec_fn(int) -> int, n: int)
    requires
        forall|i: int| 0 <= i < n ==> #[trigger] f(i) == g(i),
    ensures
        sum1(f, n) == sum1(g, n),
    decreases n,
{
    if n > 0 {
        lemma_sum1_congruent(f, g, n - 1);
        assert(f(n - 1) == g(n - 1));
    }
}

proof fn lemma_sum1_negated(f: spec_fn(int) -> int, g: spec_fn(int) -> int, n: int)
    requires
        forall|i: int| 0 <= i < n ==> #[trigger] g(i) == -f(i),
    ensures
        sum1(g, n) == -sum1(f, n),
    decreases n,
{
    if n > 0 {
        lemma_sum1_negated(f, g, n - 1);
        assert(g(n - 1) == -f(n - 1));
    }
}

proof fn lemma_sum1_single(f: spec_fn(int) -> int, n: int, p: int, m: int)
    requires
        0 <= p < n,
        0 <= m <= n,
        forall|i: int| 0 <= i < n && i != p ==> #[trigger] f(i) == 0,
    ensures
        sum1(f, m) == if p < m { f(p) } else { 0 },
    decreases m,
{
    if m > 0 {
        lemma_sum1_single(f, n, p, m - 1);
        if m - 1 != p {
            assert(f(m - 1) == 0);
        }
    }
}

/// A dot product with a weight row that is one above its zero point at
/// feature `p` and at its zero point elsewhere picks out the signed offset
/// `x[p] - xz` of that feature.
pub proof fn lemma_dot_selects_feature(x: Seq<u8>, w: Seq<u8>, xz: u8, wz: u8, n: int, p: int)
    requires
        0 <= p < n,
        forall|i: int| 0 <= i < n ==> #[trigger] w[i] - wz == if i == p { 1int } else { 0int },
    ensures
        sum1(dot_term(x, w, xz, wz), n) == x[p] - xz,
{
    let f = dot_term(x, w, xz, wz);
    assert forall|i: int| 0 <= i < n && i != p implies #[trigger] f(i) == 0 by {
        let a = x[i] - xz;
        assert(w[i] - wz == 0);
        assert(a * 0 == 0);
    }
    let a = x[p] - xz;
    assert(w[p] - wz == 1);
    assert(a * 1 == a);
    lemma_sum1_single(f, n, p, n);
}

/// The dot product is symmetric: exchanging the roles of input and weights
/// (with their zero points) gives the same sum.
pub proof fn lemma_dot_symmetric(x: Seq<u8>, w: Seq<u8>, xz: u8, wz: u8, n: int)
    ensures
        sum1(dot_term(x, w, xz, wz), n) == sum1(dot_term(w, x, wz, xz), n),
{
    let f = dot_term(x, w, xz, wz);
    let g = dot_term(w, x, wz, xz);
    assert forall|i: int| 0 <= i < n implies #[trigger] f(i) == g(i) by {
        let a = x[i] - xz;
        let b = w[i] - wz;
        assert(a * b == b * a) by (nonlinear_arith);
    }
    lemma_sum1_congruent(f, g, n);
}

/// The dot product is signed in the input offsets: reflecting every input
/// about its zero point (`x2[i] - xz2 == xz - x[i]`) negates the sum.
pub proof fn lemma_dot_reflected_input(x: Seq<u8>, x2: Seq<u8>, w: Seq<u8>, xz: u8, xz2: u8, wz: u8, n: int)
    requires
        forall|i: int| 0 <= i < n ==> #[trigger] x2[i] - xz2 == xz - x[i],
    ensures
        sum1(dot_term(x2, w, xz2, wz), n) == -sum1(dot_term(x, w, xz, wz), n),
{
    let f = dot_term(x, w, xz, wz);
    let g = dot_term(x2, w, xz2, wz);
    assert forall|i: int| 0 <= i < n implies #[trigger] g(i) == -f(i) by {
        let a = x[i] - xz;
        let a2 = x2[i] - xz2;
        let b = w[i] - wz;
        assert(a2 == -a);
        assert(a2 * b == -(a * b)) by (nonlinear_arith) requires a2 == -a;
    }
    lemma_sum1_negated(f, g, n);
}

proof fn lemma_sum_w_single(f: spec_fn(int, int, int) -> int, i: int, j: int, nw: int, k0: int, m: int)
    requires
        0 <= k0 < nw,
        0 <= m <= nw,
        forall|k: int| 0 <= k < nw && k != k0 ==> #[trigger] f(i, j, k) == 0,
    ensures
        sum_w(f, i, j, m) == if k0 < m { f(i, j, k0) } else { 0 },
    decreases m,
{
    if m > 0 {
        lemma_sum_w_single(f, i, j, nw, k0, m - 1);
        if m - 1 != k0 {
            assert(f(i, j, m - 1) == 0);
        }
    }
}

proof fn lemma_sum_h_single(f: spec_fn(int, int, int) -> int, i: int, nh: int, nw: int, j0: int, k0: int, m: int)
    requires
        0 <= j0 < nh,
        0 <= k0 < nw,
        0 <= m <= nh,
        forall|j: int, k: int| 0 <= j < nh && 0 <= k < nw && (j != j0 || k != k0) ==> #[trigger] f(i, j, k) == 0,
    ensures
        sum_h(f, i, m, nw) == if j0 < m { f(i, j0, k0) } else { 0 },
    decreases m,
{
    if m > 0 {
        lemma_sum_h_single(f, i, nh, nw, j0, k0, m - 1);
        let j = m - 1;
        if j == j0 {
            assert forall|k: int| 0 <= k < nw && k != k0 implies #[trigger] f(i, j, k) == 0 by {}
            lemma_sum_w_single(f, i, j, nw, k0, nw);
        } else {
            assert forall|k: int| 0 <= k < nw implies #[trigger] f(i, j, k) == 0 by {}
            lemma_sum_w_zero(f, i, j, nw);
        }
    }
}

proof fn lemma_sum3_single(f: spec_fn(int, int, int) -> int, n: int, nh: int, nw: int, i0: int, j0: int, k0: int, m: int)
    requires
        0 <= i0 < n,
        0 <= j0 < nh,
        0 <= k0 < nw,
        0 <= m <= n,
        forall|i: int, j: int, k: int|
            0 <= i < n && 0 <= j < nh && 0 <= k < nw && (i != i0 || j != j0 || k != k0) ==> #[trigger] f(i, j, k) == 0,
    ensures
        sum3(f, m, nh, nw) == if i0 < m { f(i0, j0, k0) } else { 0 },
    decreases m,
{
    if m > 0 {
        lemma_sum3_single(f, n, nh, nw, i0, j0, k0, m - 1);
        let i = m - 1;
        if i == i0 {
            assert forall|j: int, k: int| 0 <= j < nh && 0 <= k < nw && (j != j0 || k != k0)
                implies #[trigger] f(i, j, k) == 0 by {}
            lemma_sum_h_single(f, i, nh, nw, j0, k0, nh);
        } else {
            assert forall|b: int, c: int| 0 <= b < nh && 0 <= c < nw implies #[trigger] f(i, b, c) == 0 by {}
            lemma_sum_h_zero(f, i, nh, nw);
        }
    }
}

/// A convolution whose kernel for output channel `oc` is one above the weight
/// zero point at input channel `ic0`, row `kh0`, column `kw0` and at the zero
/// point elsewhere picks out, at every output position, the signed offset of
/// the input entry of channel `ic0` under that kernel position, or zero where
/// that position lies over the padding.
pub proof fn lemma_conv_selects_kernel_tap(
    x: Seq<Vec<Vec<u8>>>, wt: Seq<Vec<Vec<Vec<u8>>>>, xz: u8, wz: u8,
    h: int, w: int, n_ic: int, n_kh: int, n_kw: int, stride: int, padding: int,
    oc: int, oh: int, ow: int, ic0: int, kh0: int, kw0: int,
)
    requires
        0 <= ic0 < n_ic,
        0 <= kh0 < n_kh,
        0 <= kw0 < n_kw,
        forall|ic: int, kh: int, kw: int|
            0 <= ic < n_ic && 0 <= kh < n_kh && 0 <= kw < n_kw ==> #[trigger] wt[oc][ic][kh][kw] - wz
                == if ic == ic0 && kh == kh0 && kw == kw0 { 1int } else { 0int },
    ensures
        conv_value_at(x, wt, xz, wz, h, w, n_ic, n_kh, n_kw, stride, padding, oc, oh, ow) == {
            let ih = oh * stride + kh0 - padding;
            let iw = ow * stride + kw0 - padding;
            if 0 <= ih < h && 0 <= iw < w {
                x[ic0][ih][iw] - xz
            } else {
                0
            }
        },
{
    let f = conv_term(x, wt, xz, wz, h, w, stride, padding, oc, oh, ow);
    assert forall|i: int, j: int, k: int|
        0 <= i < n_ic && 0 <= j < n_kh && 0 <= k < n_kw && (i != ic0 || j != kh0 || k != kw0)
        implies #[trigger] f(i, j, k) == 0 by {
        let ih = oh * stride + j - padding;
        let iw = ow * stride + k - padding;
        if 0 <= ih < h && 0 <= iw < w {
            let a = x[i][ih][iw] - xz;
            assert(wt[oc][i][j][k] - wz == 0);
            assert(a * 0 == 0);
        }
    }
    let ih = oh * stride + kh0 - padding;
    let iw = ow * stride + kw0 - padding;
    if 0 <= ih < h && 0 <= iw < w {
        let a = x[ic0][ih][iw] - xz;
        assert(wt[oc][ic0][kh0][kw0] - wz == 1);
        assert(a * 1 == a);
    }
    lemma_sum3_single(f, n_ic, n_kh, n_kw, ic0, kh0, kw0, n_ic);
}

proof fn lemma_sum_w_negated(f: spec_fn(int, int, int) -> int, g: spec_fn(int, int, int) -> int, i: int, j: int, m: int)
    requires
        forall|k: int| 0 <= k < m ==> #[trigger] g(i, j, k) == -f(i, j, k),
    ensures
        sum_w(g, i, j, m) == -sum_w(f, i, j, m),
    decreases m,
{
    if m > 0 {
        lemma_sum_w_negated(f, g, i, j, m - 1);
        assert(g(i, j, m - 1) == -f(i, j, m - 1));
    }
}

proof fn lemma_sum_h_negated(f: spec_fn(int, int, int) -> int, g: spec_fn(int, int, int) -> int, i: int, m: int, nw: int)
    requires
        forall|j: int, k: int| 0 <= j < m && 0 <= k < nw ==> #[trigger] g(i, j, k) == -f(i, j, k),
    ensures
        sum_h(g, i, m, nw) == -sum_h(f, i, m, nw),
    decreases m,
{
    if m > 0 {
        lemma_sum_h_negated(f, g, i, m - 1, nw);
        assert forall|k: int| 0 <= k < nw implies #[trigger] g(i, m - 1, k) == -f(i, m - 1, k) by {}
        lemma_sum_w_negated(f, g, i, m - 1, nw);
    }
}

proof fn lemma_sum3_negated(f: spec_fn(int, int, int) -> int, g: spec_fn(int, int, int) -> int, m: int, nh: int, nw: int)
    requires
        forall|i: int, j: int, k: int| 0 <= i < m && 0 <= j < nh && 0 <= k < nw ==> #[trigger] g(i, j, k) == -f(i, j, k),
    ensures
        sum3(g, m, nh, nw) == -sum3(f, m, nh, nw),
    decreases m,
{
    if m > 0 {
        lemma_sum3_negated(f, g, m - 1, nh, nw);
        assert forall|j: int, k: int| 0 <= j < nh && 0 <= k < nw implies #[trigger] g(m - 1, j, k) == -f(m - 1, j, k) by {}
        lemma_sum_h_negated(f, g, m - 1, nh, nw);
    }
}

/// The convolution is signed in the weight offsets: reflecting every weight
/// of output channel `oc` about its zero point
/// (`wt2[oc][ic][kh][kw] - wz2 == wz - wt[oc][ic][kh][kw]`) negates every sum
/// of that channel.
pub proof fn lemma_conv_reflected_kernel(
    x: Seq<Vec<Vec<u8>>>, wt: Seq<Vec<Vec<Vec<u8>>>>, wt2: Seq<Vec<Vec<Vec<u8>>>>, xz: u8, wz: u8, wz2: u8,
    h: int, w: int, n_ic: int, n_kh: int, n_kw: int, stride: int, padding: int, oc: int, oh: int, ow: int,
)
    requires
        forall|ic: int, kh: int, kw: int|
            0 <= ic < n_ic && 0 <= kh < n_kh && 0 <= kw < n_kw ==> #[trigger] wt2[oc][ic][kh][kw] - wz2
                == wz - wt[oc][ic][kh][kw],
    ensures
        conv_value_at(x, wt2, xz, wz2, h, w, n_ic, n_kh, n_kw, stride, padding, oc, oh, ow)
            == -conv_value_at(x, wt, xz, wz, h, w, n_ic, n_kh, n_kw, stride, padding, oc, oh, ow),
{
    let f = conv_term(x, wt, xz, wz, h, w, stride, padding, oc, oh, ow);
    let g = conv_term(x, wt2, xz, wz2, h, w, stride, padding, oc, oh, ow);
    assert forall|i: int, j: int, k: int| 0 <= i < n_ic && 0 <= j < n_kh && 0 <= k < n_kw
        implies #[trigger] g(i, j, k) == -f(i, j, k) by {
        let ih = oh * stride + j - padding;
        let iw = ow * stride + k - padding;
        if 0 <= ih < h && 0 <= iw < w {
            let a = x[i][ih][iw] - xz;
            let d = wt[oc][i][j][k] - wz;
            let d2 = wt2[oc][i][j][k] - wz2;
            assert(d2 == -d);
            assert(a * d2 == -(a * d)) by (nonlinear_arith) requires d2 == -d;
        }
    }
    lemma_sum3_negated(f, g, n_ic, n_kh, n_kw);
}

/// The convolution is signed in the input offsets: reflecting every input
/// entry about its zero point (`x2[ic][ih][iw] - xz2 == xz - x[ic][ih][iw]`)
/// negates every sum.
pub proof fn lemma_conv_reflected_input(
    x: Seq<Vec<Vec<u8>>>, x2: Seq<Vec<Vec<u8>>>, wt: Seq<Vec<Vec<Vec<u8>>>>, xz: u8, xz2: u8, wz: u8,
    h: int, w: int, n_ic: int, n_kh: int, n_kw: int, stride: int, padding: int, oc: int, oh: int, ow: int,
)
    requires
        forall|ic: int, ih: int, iw: int|
            0 <= ic < n_ic && 0 <= ih < h && 0 <= iw < w ==> #[trigger] x2[ic][ih][iw] - xz2 == xz - x[ic][ih][iw],
    ensures
        conv_value_at(x2, wt, xz2, wz, h, w, n_ic, n_kh, n_kw, stride, padding, oc, oh, ow)
            == -conv_value_at(x, wt, xz, wz, h, w, n_ic, n_kh, n_kw, stride, padding, oc, oh, ow),
{
    let f = conv_term(x, wt, xz, wz, h, w, stride, padding, oc, oh, ow);
    let g = conv_term(x2, wt, xz2, wz, h, w, stride, padding, oc, oh, ow);
    assert forall|i: int, j: int, k: int| 0 <= i < n_ic && 0 <= j < n_kh && 0 <= k < n_kw
        implies #[trigger] g(i, j, k) == -f(i, j, k) by {
        let ih = oh * stride + j - padding;
        let iw = ow * stride + k - padding;
        if 0 <= ih < h && 0 <= iw < w {
            let a = x[i][ih][iw] - xz;
            let a2 = x2[i][ih][iw] - xz2;
            let d = wt[oc][i][j][k] - wz;
            assert(a2 == -a);
            assert(a2 * d == -(a * d)) by (nonlinear_arith) requires a2 == -a;
        }
    }
    lemma_sum3_negated(f, g, n_ic, n_kh, n_kw);
}

/// Saturates an integer to the range of a byte, as `v.max(0).min(255) as u8`.
pub fn clamp_to_u8(v: i32) -> (r: u8)
    ensures
        r == (if v < 0 {
            0
        } else if v > 255 {
            255
        } else {
            v
        }),
{
    if v < 0 {
        0
    } else if v > 255 {
        255
    } else {
        v as u8
    }
}

} // verus!
