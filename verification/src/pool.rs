use vstd::prelude::*;
use crate::tensor::{has_shape2, filled3, Tensor4};

verus! {

/// The larger of two integers.
pub open spec fn imax(a: int, b: int) -> int {
    if a >= b {
        a
    } else {
        b
    }
}

/// The entry at offset `(i, j)` of the window whose top-left corner is
/// `(r0, c0)` on the `h x w` plane `p`, or zero outside the plane.
pub open spec fn window_value(p: Seq<Vec<u8>>, h: int, w: int, r0: int, c0: int) -> spec_fn(int, int) -> int {
    |i: int, j: int|
        if 0 <= r0 + i < h && 0 <= c0 + j < w {
            p[r0 + i][c0 + j] as int
        } else {
            0
        }
}

/// `max(0, f(i, 0), ..., f(i, n - 1))`.
pub open spec fn max_row(f: spec_fn(int, int) -> int, i: int, n: int) -> int
    decreases n,
{
    if n <= 0 {
        0
    } else {
        imax(max_row(f, i, n - 1), f(i, n - 1))
    }
}

/// The largest of zero and `f(i, j)` over `i < n`, `j < nw`.
pub open spec fn max2(f: spec_fn(int, int) -> int, n: int, nw: int) -> int
    decreases n,
{
    if n <= 0 {
        0
    } else {
        imax(max2(f, n - 1, nw), max_row(f, n - 1, nw))
    }
}

/// `f(i, 0) + ... + f(i, n - 1)`.
pub open spec fn sum_row(f: spec_fn(int, int) -> int, i: int, n: int) -> int
    decreases n,
{
    if n <= 0 {
        0
    } else {
        sum_row(f, i, n - 1) + f(i, n - 1)
    }
}

/// The sum of `f(i, j)` over `i < n`, `j < nw`.
pub open spec fn sum2(f: spec_fn(int, int) -> int, n: int, nw: int) -> int
    decreases n,
{
    if n <= 0 {
        0
    } else {
        sum2(f, n - 1, nw) + sum_row(f, n - 1, nw)
    }
}

/// The spatial size of a pooling output along one axis: `(len - kernel) / stride + 1`.
pub open spec fn pool_out_dim(len: int, kernel: int, stride: int) -> int {
    (len - kernel) / stride + 1
}

/// The largest entry (and at least zero) under the `k x k` window of the
/// `h x w` plane `p` at output position `(oh, ow)` with the given stride.
pub open spec fn pooled_max(p: Seq<Vec<u8>>, h: int, w: int, k: int, stride: int, oh: int, ow: int) -> int {
    max2(window_value(p, h, w, oh * stride, ow * stride), k, k)
}

/// The sum of the entries under the `k x k` window at output position
/// `(oh, ow)` of non-overlapping windows.
pub open spec fn window_sum(p: Seq<Vec<u8>>, h: int, w: int, k: int, oh: int, ow: int) -> int {
    sum2(window_value(p, h, w, oh * k, ow * k), k, k)
}

proof fn lemma_pool_window(o: int, n_out: int, len: int, kernel: int, stride: int)
    requires
        stride > 0,
        len >= kernel,
        n_out == pool_out_dim(len, kernel, stride),
        0 <= o < n_out,
    ensures
        0 <= o * stride,
        o * stride + kernel <= len,
{
    let q = (len - kernel) / stride;
    assert(q * stride <= len - kernel) by (nonlinear_arith)
        requires stride > 0, len - kernel >= 0, q == (len - kernel) / stride;
    assert(0 <= o * stride <= q * stride) by (nonlinear_arith)
        requires 0 <= o <= q, stride > 0;
}

/// The entry at offset `(i, j)` of the window at output `(oh, ow)`, with
/// windows `stride` apart, exists.
pub open spec fn window_read_ok(p: Seq<Vec<u8>>, stride: int, oh: int, ow: int, i: int, j: int) -> bool {
    &&& oh * stride + i < p.len()
    &&& ow * stride + j < p[oh * stride + i].len()
}

/// Every entry under every window of max pooling the `h x w` plane `p`
/// exists (the rows and columns that no window covers need not).
pub open spec fn max_pool_reads_ok(p: Seq<Vec<u8>>, h: int, w: int, k: int, stride: int) -> bool {
    forall|oh: int, ow: int, i: int, j: int|
        0 <= oh < pool_out_dim(h, k, stride) && 0 <= ow < pool_out_dim(w, k, stride) && 0 <= i < k && 0 <= j < k
            ==> #[trigger] window_read_ok(p, stride, oh, ow, i, j)
}

/// Max pooling of one `h x w` plane with a `k x k` window: each output is the
/// largest entry (and at least zero) under its window; positions past the
/// plane's edge are skipped.
#[verifier::loop_isolation(false)]
pub fn max_pool_plane(p: &Vec<Vec<u8>>, h: usize, w: usize, k: usize, stride: usize) -> (out: Vec<Vec<u8>>)
    requires
        max_pool_reads_ok(p@, h as int, w as int, k as int, stride as int),
        stride > 0,
        h >= k,
        w >= k,
        pool_out_dim(h as int, k as int, stride as int) <= usize::MAX,
        pool_out_dim(w as int, k as int, stride as int) <= usize::MAX,
    ensures
        has_shape2(&out, pool_out_dim(h as int, k as int, stride as int), pool_out_dim(w as int, k as int, stride as int)),
        forall|oh: int, ow: int|
            0 <= oh < pool_out_dim(h as int, k as int, stride as int) && 0 <= ow < pool_out_dim(w as int, k as int, stride as int)
                ==> #[trigger] out[oh][ow] == pooled_max(p@, h as int, w as int, k as int, stride as int, oh, ow),
{
    let oh_n: usize = (h - k) / stride + 1;
    let ow_n: usize = (w - k) / stride + 1;
    let mut out: Vec<Vec<u8>> = Vec::new();
    let mut oh: usize = 0;
    while oh < oh_n
        invariant
            stride > 0,
            h >= k,
            w >= k,
            oh_n == pool_out_dim(h as int, k as int, stride as int),
            ow_n == pool_out_dim(w as int, k as int, stride as int),
            oh <= oh_n,
            has_shape2(&out, oh as int, ow_n as int),
            forall|i: int, j: int|
                0 <= i < oh && 0 <= j < ow_n ==> #[trigger] out[i][j]
                    == pooled_max(p@, h as int, w as int, k as int, stride as int, i, j),
        decreases oh_n - oh,
    {
        proof {
            lemma_pool_window(oh as int, oh_n as int, h as int, k as int, stride as int);
        }
        let mut row: Vec<u8> = Vec::new();
        let mut ow: usize = 0;
        while ow < ow_n
            invariant
                    stride > 0,
                h >= k,
                w >= k,
                oh_n == pool_out_dim(h as int, k as int, stride as int),
                ow_n == pool_out_dim(w as int, k as int, stride as int),
                oh < oh_n,
                0 <= oh * stride,
                oh * stride + k <= h,
                ow <= ow_n,
                row.len() == ow,
                forall|j: int| 0 <= j < ow ==> #[trigger] row[j]
                    == pooled_max(p@, h as int, w as int, k as int, stride as int, oh as int, j),
            decreases ow_n - ow,
        {
            proof {
                lemma_pool_window(ow as int, ow_n as int, w as int, k as int, stride as int);
            }
            let r0: usize = oh * stride;
            let c0: usize = ow * stride;
            let ghost f = window_value(p@, h as int, w as int, r0 as int, c0 as int);
            let mut max_val: u8 = 0;
            let mut kh: usize = 0;
            while kh < k
                invariant
                            r0 + k <= h,
                    c0 + k <= w,
                    kh <= k,
                    f == window_value(p@, h as int, w as int, r0 as int, c0 as int),
                    max_val == max2(f, kh as int, k as int),
                decreases k - kh,
            {
                let mut kw: usize = 0;
                while kw < k
                    invariant
                                    r0 + k <= h,
                        c0 + k <= w,
                        kh < k,
                        kw <= k,
                        f == window_value(p@, h as int, w as int, r0 as int, c0 as int),
                        max_val == imax(max2(f, kh as int, k as int), max_row(f, kh as int, kw as int)),
                    decreases k - kw,
                {
                    let ih = r0 + kh;
                    let iw = c0 + kw;
                    if ih < h && iw < w {
                        assert(window_read_ok(p@, stride as int, oh as int, ow as int, kh as int, kw as int));
                        let v = p[ih][iw];
                        if v > max_val {
                            max_val = v;
                        }
                    }
                    kw = kw + 1;
                }
                kh = kh + 1;
            }
            row.push(max_val);
            ow = ow + 1;
        }
        out.push(row);
        oh = oh + 1;
    }
    out
}

proof fn lemma_sum_row_mono(f: spec_fn(int, int) -> int, i: int, a: int, b: int)
    requires
        forall|x: int, y: int| #[trigger] f(x, y) >= 0,
        0 <= a <= b,
    ensures
        0 <= sum_row(f, i, a) <= sum_row(f, i, b),
    decreases b - a,
{
    if a < b {
        lemma_sum_row_mono(f, i, a, b - 1);
        assert(f(i, b - 1) >= 0);
    } else {
        lemma_sum_row_nonneg(f, i, a);
    }
}

proof fn lemma_sum_row_nonneg(f: spec_fn(int, int) -> int, i: int, a: int)
    requires
        forall|x: int, y: int| #[trigger] f(x, y) >= 0,
    ensures
        0 <= sum_row(f, i, a),
    decreases a,
{
    if a > 0 {
        lemma_sum_row_nonneg(f, i, a - 1);
        assert(f(i, a - 1) >= 0);
    }
}

proof fn lemma_sum2_mono(f: spec_fn(int, int) -> int, a: int, b: int, nw: int)
    requires
        forall|x: int, y: int| #[trigger] f(x, y) >= 0,
        0 <= a <= b,
        nw >= 0,
    ensures
        0 <= sum2(f, a, nw) <= sum2(f, b, nw),
    decreases b - a,
{
    if a < b {
        lemma_sum2_mono(f, a, b - 1, nw);
        lemma_sum_row_nonneg(f, b - 1, nw);
    } else {
        lemma_sum2_nonneg(f, a, nw);
    }
}

proof fn lemma_sum2_nonneg(f: spec_fn(int, int) -> int, a: int, nw: int)
    requires
        forall|x: int, y: int| #[trigger] f(x, y) >= 0,
    ensures
        0 <= sum2(f, a, nw),
    decreases a,
{
    if a > 0 {
        lemma_sum2_nonneg(f, a - 1, nw);
        lemma_sum_row_nonneg(f, a - 1, nw);
    }
}

proof fn lemma_window_value_is_byte(p: Seq<Vec<u8>>, h: int, w: int, r0: int, c0: int)
    ensures
        forall|x: int, y: int| #[trigger] window_value(p, h, w, r0, c0)(x, y) >= 0,
        forall|x: int, y: int| #[trigger] window_value(p, h, w, r0, c0)(x, y) <= 255,
{
}

proof fn lemma_sum_row_bound(f: spec_fn(int, int) -> int, i: int, n: int)
    requires
        forall|x: int, y: int| #[trigger] f(x, y) <= 255,
        n >= 0,
    ensures
        sum_row(f, i, n) <= 255 * n,
    decreases n,
{
    if n > 0 {
        lemma_sum_row_bound(f, i, n - 1);
        assert(f(i, n - 1) <= 255);
    }
}

proof fn lemma_sum2_bound(f: spec_fn(int, int) -> int, n: int, nw: int)
    requires
        forall|x: int, y: int| #[trigger] f(x, y) <= 255,
        n >= 0,
        nw >= 0,
    ensures
        sum2(f, n, nw) <= 255 * (n * nw),
    decreases n,
{
    if n > 0 {
        lemma_sum2_bound(f, n - 1, nw);
        lemma_sum_row_bound(f, n - 1, nw);
        assert(255 * ((n - 1) * nw) + 255 * nw == 255 * (n * nw)) by (nonlinear_arith);
    }
}

/// Every window sum of average pooling with a `k x k` kernel on the `h x w`
/// plane `p` fits in a `u32`.
pub open spec fn window_sums_fit(p: Seq<Vec<u8>>, h: int, w: int, k: int) -> bool {
    forall|oh: int, ow: int|
        0 <= oh < h / k && 0 <= ow < w / k ==> #[trigger] window_sum(p, h, w, k, oh, ow) <= u32::MAX
}

/// Every entry under every window of average pooling the `h x w` plane `p`
/// with non-overlapping `k x k` windows exists (the rows and columns past the
/// last whole window need not).
pub open spec fn avg_pool_reads_ok(p: Seq<Vec<u8>>, h: int, w: int, k: int) -> bool {
    forall|oh: int, ow: int, i: int, j: int|
        0 <= oh < h / k && 0 <= ow < w / k && 0 <= i < k && 0 <= j < k
            ==> #[trigger] window_read_ok(p, k, oh, ow, i, j)
}

/// Average pooling of one `h x w` plane with non-overlapping `k x k` windows:
/// each output is the sum under its window divided by `k * k`, rounded down.
pub fn avg_pool_plane(p: &Vec<Vec<u8>>, h: usize, w: usize, k: usize) -> (out: Vec<Vec<u8>>)
    requires
        avg_pool_reads_ok(p@, h as int, w as int, k as int),
        k > 0,
        (h / k > 0 && w / k > 0) ==> k * k <= u32::MAX,
        window_sums_fit(p@, h as int, w as int, k as int),
    ensures
        has_shape2(&out, (h / k) as int, (w / k) as int),
        forall|oh: int, ow: int|
            0 <= oh < h / k && 0 <= ow < w / k ==> #[trigger] out[oh][ow]
                == window_sum(p@, h as int, w as int, k as int, oh, ow) / (k * k),
{
    let oh_n: usize = h / k;
    let ow_n: usize = w / k;
    let mut out: Vec<Vec<u8>> = Vec::new();
    let mut oh: usize = 0;
    while oh < oh_n
        invariant
            avg_pool_reads_ok(p@, h as int, w as int, k as int),
            k > 0,
            oh_n == h / k,
            ow_n == w / k,
            (h / k > 0 && w / k > 0) ==> k * k <= u32::MAX,
            window_sums_fit(p@, h as int, w as int, k as int),
            oh <= oh_n,
            has_shape2(&out, oh as int, ow_n as int),
            forall|i: int, j: int|
                0 <= i < oh && 0 <= j < ow_n ==> #[trigger] out[i][j]
                    == window_sum(p@, h as int, w as int, k as int, i, j) / (k * k),
        decreases oh_n - oh,
    {
        assert(oh * k + k <= h) by (nonlinear_arith)
            requires oh < oh_n, oh_n == h / k, k > 0;
        let mut row: Vec<u8> = Vec::new();
        let mut ow: usize = 0;
        while ow < ow_n
            invariant
                avg_pool_reads_ok(p@, h as int, w as int, k as int),
                k > 0,
                oh_n == h / k,
                ow_n == w / k,
                (h / k > 0 && w / k > 0) ==> k * k <= u32::MAX,
                window_sums_fit(p@, h as int, w as int, k as int),
                oh < oh_n,
                oh * k + k <= h,
                ow <= ow_n,
                row.len() == ow,
                forall|j: int| 0 <= j < ow ==> #[trigger] row[j]
                    == window_sum(p@, h as int, w as int, k as int, oh as int, j) / (k * k),
            decreases ow_n - ow,
        {
            assert(ow * k + k <= w) by (nonlinear_arith)
                requires ow < ow_n, ow_n == w / k, k > 0;
            let r0: usize = oh * k;
            let c0: usize = ow * k;
            let ghost f = window_value(p@, h as int, w as int, r0 as int, c0 as int);
            let ghost total = window_sum(p@, h as int, w as int, k as int, oh as int, ow as int);
            assert(total <= u32::MAX);
            proof {
                lemma_window_value_is_byte(p@, h as int, w as int, r0 as int, c0 as int);
            }
            let mut sum: u32 = 0;
            let mut kh: usize = 0;
            while kh < k
                invariant
                    avg_pool_reads_ok(p@, h as int, w as int, k as int),
                    0 <= oh < h / k,
                    0 <= ow < w / k,
                    r0 == oh * k,
                    c0 == ow * k,
                    r0 + k <= h,
                    c0 + k <= w,
                    kh <= k,
                    f == window_value(p@, h as int, w as int, r0 as int, c0 as int),
                    forall|x: int, y: int| #[trigger] f(x, y) >= 0,
                    total == sum2(f, k as int, k as int),
                    total <= u32::MAX,
                    sum == sum2(f, kh as int, k as int),
                decreases k - kh,
            {
                let mut kw: usize = 0;
                while kw < k
                    invariant
                        avg_pool_reads_ok(p@, h as int, w as int, k as int),
                        0 <= oh < h / k,
                        0 <= ow < w / k,
                        r0 == oh * k,
                        c0 == ow * k,
                        r0 + k <= h,
                        c0 + k <= w,
                        kh < k,
                        kw <= k,
                        f == window_value(p@, h as int, w as int, r0 as int, c0 as int),
                        forall|x: int, y: int| #[trigger] f(x, y) >= 0,
                        total == sum2(f, k as int, k as int),
                        total <= u32::MAX,
                        sum == sum2(f, kh as int, k as int) + sum_row(f, kh as int, kw as int),
                    decreases k - kw,
                {
                    let ih = r0 + kh;
                    let iw = c0 + kw;
                    assert(window_read_ok(p@, k as int, oh as int, ow as int, kh as int, kw as int));
                    proof {
                        lemma_sum_row_mono(f, kh as int, kw as int + 1, k as int);
                        lemma_sum2_mono(f, kh as int + 1, k as int, k as int);
                    }
                    sum = sum + p[ih][iw] as u32;
                    kw = kw + 1;
                }
                kh = kh + 1;
            }
            proof {
                lemma_sum2_bound(f, k as int, k as int);
            }
            assert(1 <= k * k <= u32::MAX) by (nonlinear_arith)
                requires k > 0, k * k <= u32::MAX;
            let area: usize = k * k;
            let a32: u32 = area as u32;
            assert(a32 as int == k * k);
            let v: u32 = sum / a32;
            assert(v <= 255) by (nonlinear_arith)
                requires
                    v == sum / a32,
                    a32 > 0,
                    sum <= 255 * a32,
            ;
            row.push(v as u8);
            ow = ow + 1;
        }
        out.push(row);
        oh = oh + 1;
    }
    out
}

/// The geometry of max pooling an `h x w` plane is one the computation can
/// carry out.
pub open spec fn max_pool_geometry_ok(h: int, w: int, k: int, stride: int) -> bool {
    &&& stride > 0
    &&& h >= k
    &&& w >= k
    &&& pool_out_dim(h, k, stride) <= usize::MAX
    &&& pool_out_dim(w, k, stride) <= usize::MAX
}

/// `out` holds, for each of the `c` channels of `x`, the max pooling of its
/// `h x w` plane.
pub open spec fn max_pooled3(x: Seq<Vec<Vec<u8>>>, out: Seq<Vec<Vec<u8>>>, c: int, h: int, w: int, k: int, stride: int) -> bool {
    &&& out.len() == c
    &&& forall|i: int| 0 <= i < c ==> has_shape2(#[trigger] &out[i], pool_out_dim(h, k, stride), pool_out_dim(w, k, stride))
    &&& forall|i: int, oh: int, ow: int|
        0 <= i < c && 0 <= oh < pool_out_dim(h, k, stride) && 0 <= ow < pool_out_dim(w, k, stride)
            ==> #[trigger] out[i][oh][ow] == pooled_max(x[i]@, h, w, k, stride, oh, ow)
}

/// Every entry that max pooling each of the `c` channel planes of `x` reads exists.
pub open spec fn max_pool_reads_ok3(x: Seq<Vec<Vec<u8>>>, c: int, h: int, w: int, k: int, stride: int) -> bool {
    &&& c <= x.len()
    &&& forall|i: int| 0 <= i < c ==> #[trigger] max_pool_reads_ok(x[i]@, h, w, k, stride)
}

/// Max pooling of each channel plane of a `c x h x w` array.
pub fn max_pool_array3(x: &Vec<Vec<Vec<u8>>>, c: usize, h: usize, w: usize, k: usize, stride: usize) -> (out: Vec<Vec<Vec<u8>>>)
    requires
        max_pool_reads_ok3(x@, c as int, h as int, w as int, k as int, stride as int),
        max_pool_geometry_ok(h as int, w as int, k as int, stride as int),
    ensures
        max_pooled3(x@, out@, c as int, h as int, w as int, k as int, stride as int),
{
    let mut out: Vec<Vec<Vec<u8>>> = Vec::new();
    let mut i: usize = 0;
    while i < c
        invariant
            max_pool_reads_ok3(x@, c as int, h as int, w as int, k as int, stride as int),
            max_pool_geometry_ok(h as int, w as int, k as int, stride as int),
            i <= c,
            max_pooled3(x@, out@, i as int, h as int, w as int, k as int, stride as int),
        decreases c - i,
    {
        assert(max_pool_reads_ok(x[i as int]@, h as int, w as int, k as int, stride as int));
        let plane = max_pool_plane(&x[i], h, w, k, stride);
        out.push(plane);
        i = i + 1;
    }
    out
}

/// `out` holds, for each of the `b` images of `x`, the max pooling of its
/// `c` channel planes.
pub open spec fn max_pooled4(x: Seq<Vec<Vec<Vec<u8>>>>, out: Seq<Vec<Vec<Vec<u8>>>>, b: int, c: int, h: int, w: int, k: int, stride: int) -> bool {
    &&& out.len() == b
    &&& forall|i: int| 0 <= i < b ==> max_pooled3(#[trigger] x[i]@, out[i]@, c, h, w, k, stride)
}

/// Every entry that max pooling the `b x c` planes of `x` reads exists; with
/// an empty window nothing is read.
pub open spec fn max_pool_reads_ok4(x: Seq<Vec<Vec<Vec<u8>>>>, b: int, c: int, h: int, w: int, k: int, stride: int) -> bool {
    &&& b <= x.len()
    &&& k > 0 ==> forall|i: int| 0 <= i < b ==> #[trigger] max_pool_reads_ok3(x[i]@, c, h, w, k, stride)
}

/// Max pooling of each channel plane of a `b x c x h x w` tensor.
pub fn max_pool_tensor4(x: &Tensor4<u8>, b: usize, c: usize, h: usize, w: usize, k: usize, stride: usize) -> (out: Tensor4<u8>)
    requires
        max_pool_reads_ok4(x@, b as int, c as int, h as int, w as int, k as int, stride as int),
        max_pool_geometry_ok(h as int, w as int, k as int, stride as int),
    ensures
        max_pooled4(x@, out@, b as int, c as int, h as int, w as int, k as int, stride as int),
{
    let oh_n: usize = (h - k) / stride + 1;
    let ow_n: usize = (w - k) / stride + 1;
    let mut out: Tensor4<u8> = Vec::new();
    let mut i: usize = 0;
    while i < b
        invariant
            max_pool_reads_ok4(x@, b as int, c as int, h as int, w as int, k as int, stride as int),
            max_pool_geometry_ok(h as int, w as int, k as int, stride as int),
            oh_n == pool_out_dim(h as int, k as int, stride as int),
            ow_n == pool_out_dim(w as int, k as int, stride as int),
            i <= b,
            max_pooled4(x@, out@, i as int, c as int, h as int, w as int, k as int, stride as int),
        decreases b - i,
    {
        if k == 0 {
            let img = filled3(c, oh_n, ow_n, 0u8);
            assert forall|j: int, oh: int, ow: int|
                0 <= j < c && 0 <= oh < oh_n && 0 <= ow < ow_n implies #[trigger] img[j][oh][ow]
                    == pooled_max(x[i as int][j]@, h as int, w as int, k as int, stride as int, oh, ow) by {
                assert(img[j][oh][ow] == 0u8);
            }
            out.push(img);
        } else {
            assert(max_pool_reads_ok3(x[i as int]@, c as int, h as int, w as int, k as int, stride as int));
            let img = max_pool_array3(&x[i], c, h, w, k, stride);
            out.push(img);
        }
        i = i + 1;
    }
    out
}

/// Every window sum of average pooling every plane of the `b x c` planes of
/// `x` fits in a `u32`.
pub open spec fn all_window_sums_fit(x: Seq<Vec<Vec<Vec<u8>>>>, b: int, c: int, h: int, w: int, k: int) -> bool {
    forall|i: int, j: int| 0 <= i < b && 0 <= j < c ==> window_sums_fit(#[trigger] x[i][j]@, h, w, k)
}

/// `out` holds, for each plane of the `b x c` planes of `x`, its average
/// pooling with non-overlapping `k x k` windows.
pub open spec fn avg_pooled4(x: Seq<Vec<Vec<Vec<u8>>>>, out: Seq<Vec<Vec<Vec<u8>>>>, b: int, c: int, h: int, w: int, k: int) -> bool {
    &&& out.len() == b
    &&& forall|i: int| 0 <= i < b ==> #[trigger] out[i].len() == c
    &&& forall|i: int, j: int| 0 <= i < b && 0 <= j < c ==> has_shape2(#[trigger] &out[i][j], h / k, w / k)
    &&& forall|i: int, j: int, oh: int, ow: int|
        0 <= i < b && 0 <= j < c && 0 <= oh < h / k && 0 <= ow < w / k
            ==> #[trigger] out[i][j][oh][ow] == window_sum(x[i][j]@, h, w, k, oh, ow) / (k * k)
}

/// Every entry that average pooling the `b x c` planes of `x` reads exists;
/// when the output planes are empty nothing is read.
pub open spec fn avg_pool_reads_ok4(x: Seq<Vec<Vec<Vec<u8>>>>, b: int, c: int, h: int, w: int, k: int) -> bool {
    &&& b <= x.len()
    &&& (h / k > 0 && w / k > 0) ==> forall|i: int| 0 <= i < b ==> c <= #[trigger] x[i].len()
    &&& (h / k > 0 && w / k > 0) ==> forall|i: int, j: int|
        0 <= i < b && 0 <= j < c ==> avg_pool_reads_ok(#[trigger] x[i][j]@, h, w, k)
}

/// Average pooling of each channel plane of a `b x c x h x w` tensor.
pub fn avg_pool_tensor4(x: &Tensor4<u8>, b: usize, c: usize, h: usize, w: usize, k: usize) -> (out: Tensor4<u8>)
    requires
        avg_pool_reads_ok4(x@, b as int, c as int, h as int, w as int, k as int),
        k > 0,
        (h / k > 0 && w / k > 0) ==> k * k <= u32::MAX,
        all_window_sums_fit(x@, b as int, c as int, h as int, w as int, k as int),
    ensures
        avg_pooled4(x@, out@, b as int, c as int, h as int, w as int, k as int),
{
    let oh_n: usize = h / k;
    let ow_n: usize = w / k;
    let mut out: Tensor4<u8> = Vec::new();
    let mut i: usize = 0;
    while i < b
        invariant
            avg_pool_reads_ok4(x@, b as int, c as int, h as int, w as int, k as int),
            k > 0,
            oh_n == h / k,
            ow_n == w / k,
            (h / k > 0 && w / k > 0) ==> k * k <= u32::MAX,
            all_window_sums_fit(x@, b as int, c as int, h as int, w as int, k as int),
            i <= b,
            avg_pooled4(x@, out@, i as int, c as int, h as int, w as int, k as int),
        decreases b - i,
    {
        if oh_n == 0 || ow_n == 0 {
            let img = filled3(c, oh_n, ow_n, 0u8);
            out.push(img);
        } else {
            assert(c <= x[i as int].len());
            let mut img: Vec<Vec<Vec<u8>>> = Vec::new();
            let mut j: usize = 0;
            while j < c
                invariant
                    avg_pool_reads_ok4(x@, b as int, c as int, h as int, w as int, k as int),
                    c <= x[i as int].len(),
                    k > 0,
                    h / k > 0 && w / k > 0,
                    k * k <= u32::MAX,
                    all_window_sums_fit(x@, b as int, c as int, h as int, w as int, k as int),
                    i < b,
                    j <= c,
                    img.len() == j,
                    forall|j2: int| 0 <= j2 < j ==> has_shape2(#[trigger] &img[j2], (h / k) as int, (w / k) as int),
                    forall|j2: int, oh: int, ow: int|
                        0 <= j2 < j && 0 <= oh < h / k && 0 <= ow < w / k
                            ==> #[trigger] img[j2][oh][ow] == window_sum(x[i as int][j2]@, h as int, w as int, k as int, oh, ow) / (k * k),
                decreases c - j,
            {
                assert(avg_pool_reads_ok(x[i as int][j as int]@, h as int, w as int, k as int));
                assert(window_sums_fit(x[i as int][j as int]@, h as int, w as int, k as int));
                let plane = avg_pool_plane(&x[i][j], h, w, k);
                img.push(plane);
                j = j + 1;
            }
            out.push(img);
        }
        i = i + 1;
    }
    out
}

proof fn lemma_max_row_upper(f: spec_fn(int, int) -> int, i: int, n: int)
    ensures
        max_row(f, i, n) >= 0,
        forall|j: int| 0 <= j < n ==> #[trigger] f(i, j) <= max_row(f, i, n),
    decreases n,
{
    if n > 0 {
        lemma_max_row_upper(f, i, n - 1);
    }
}

proof fn lemma_max2_upper(f: spec_fn(int, int) -> int, n: int, nw: int)
    ensures
        max2(f, n, nw) >= 0,
        forall|i: int, j: int| 0 <= i < n && 0 <= j < nw ==> #[trigger] f(i, j) <= max2(f, n, nw),
    decreases n,
{
    if n > 0 {
        lemma_max2_upper(f, n - 1, nw);
        lemma_max_row_upper(f, n - 1, nw);
    }
}

proof fn lemma_max_row_attained(f: spec_fn(int, int) -> int, i: int, n: int)
    requires
        n > 0,
        forall|j: int| 0 <= j < n ==> #[trigger] f(i, j) >= 0,
    ensures
        exists|j: int| 0 <= j < n && max_row(f, i, n) == #[trigger] f(i, j),
    decreases n,
{
    if n == 1 {
        assert(max_row(f, i, 0) == 0);
        assert(max_row(f, i, 1) == f(i, 0));
    } else {
        lemma_max_row_attained(f, i, n - 1);
        if max_row(f, i, n) != f(i, n - 1) {
            let j = choose|j: int| 0 <= j < n - 1 && max_row(f, i, n - 1) == #[trigger] f(i, j);
            assert(max_row(f, i, n) == f(i, j));
        }
    }
}

proof fn lemma_max2_attained(f: spec_fn(int, int) -> int, n: int, nw: int)
    requires
        n > 0,
        nw > 0,
        forall|i: int, j: int| 0 <= i < n && 0 <= j < nw ==> #[trigger] f(i, j) >= 0,
    ensures
        exists|i: int, j: int| 0 <= i < n && 0 <= j < nw && max2(f, n, nw) == #[trigger] f(i, j),
    decreases n,
{
    lemma_max_row_attained(f, n - 1, nw);
    let j0 = choose|j: int| 0 <= j < nw && max_row(f, n - 1, nw) == #[trigger] f(n - 1, j);
    lemma_max_row_upper(f, n - 1, nw);
    if n == 1 {
        assert(max2(f, 0, nw) == 0);
        assert(max2(f, 1, nw) == f(0, j0));
    } else {
        lemma_max2_attained(f, n - 1, nw);
        if max2(f, n, nw) != max_row(f, n - 1, nw) {
            let (i1, j1) = choose|i: int, j: int| 0 <= i < n - 1 && 0 <= j < nw && max2(f, n - 1, nw) == #[trigger] f(i, j);
            assert(max2(f, n, nw) == f(i1, j1));
        } else {
            assert(max2(f, n, nw) == f(n - 1, j0));
        }
    }
}

/// The entry at offset `(i, j)` of the window with top-left corner `(r0, c0)`.
pub open spec fn window_entry(p: Seq<Vec<u8>>, r0: int, c0: int, i: int, j: int) -> u8 {
    p[r0 + i][c0 + j]
}

/// Each max-pooling output is at least every entry under its window, and,
/// when the window is non-empty and lies on the plane, equals one of them.
pub proof fn lemma_pooled_max_is_window_max(
    p: Seq<Vec<u8>>, h: int, w: int, k: int, stride: int, oh: int, ow: int,
)
    requires
        0 <= oh * stride,
        0 <= ow * stride,
        oh * stride + k <= h,
        ow * stride + k <= w,
    ensures
        forall|i: int, j: int| 0 <= i < k && 0 <= j < k
            ==> #[trigger] window_entry(p, oh * stride, ow * stride, i, j) <= pooled_max(p, h, w, k, stride, oh, ow),
        k > 0 ==> exists|i: int, j: int| 0 <= i < k && 0 <= j < k
            && pooled_max(p, h, w, k, stride, oh, ow) == #[trigger] window_entry(p, oh * stride, ow * stride, i, j),
{
    let f = window_value(p, h, w, oh * stride, ow * stride);
    lemma_max2_upper(f, k, k);
    assert forall|i: int, j: int| 0 <= i < k && 0 <= j < k
        implies #[trigger] window_entry(p, oh * stride, ow * stride, i, j) <= pooled_max(p, h, w, k, stride, oh, ow) by {
        assert(f(i, j) == window_entry(p, oh * stride, ow * stride, i, j));
    }
    if k > 0 {
        assert forall|i: int, j: int| 0 <= i < k && 0 <= j < k implies #[trigger] f(i, j) >= 0 by {}
        lemma_max2_attained(f, k, k);
        let (i, j) = choose|i: int, j: int| 0 <= i < k && 0 <= j < k && max2(f, k, k) == #[trigger] f(i, j);
        assert(f(i, j) == window_entry(p, oh * stride, ow * stride, i, j));
    }
}

proof fn lemma_sum_row_between(f: spec_fn(int, int) -> int, i: int, n: int, lo: int, hi: int)
    requires
        n >= 0,
        forall|j: int| 0 <= j < n ==> lo <= #[trigger] f(i, j) <= hi,
    ensures
        lo * n <= sum_row(f, i, n) <= hi * n,
    decreases n,
{
    if n > 0 {
        lemma_sum_row_between(f, i, n - 1, lo, hi);
        assert(lo <= f(i, n - 1) <= hi);
        assert(lo * (n - 1) + lo == lo * n && hi * (n - 1) + hi == hi * n) by (nonlinear_arith);
    } else {
        assert(lo * n == 0 && hi * n == 0) by (nonlinear_arith) requires n == 0;
    }
}

proof fn lemma_sum2_between(f: spec_fn(int, int) -> int, n: int, nw: int, lo: int, hi: int)
    requires
        n >= 0,
        nw >= 0,
        forall|i: int, j: int| 0 <= i < n && 0 <= j < nw ==> lo <= #[trigger] f(i, j) <= hi,
    ensures
        lo * (n * nw) <= sum2(f, n, nw) <= hi * (n * nw),
    decreases n,
{
    if n > 0 {
        lemma_sum2_between(f, n - 1, nw, lo, hi);
        assert forall|j: int| 0 <= j < nw implies lo <= #[trigger] f(n - 1, j) <= hi by {}
        lemma_sum_row_between(f, n - 1, nw, lo, hi);
        assert(lo * ((n - 1) * nw) + lo * nw == lo * (n * nw) && hi * ((n - 1) * nw) + hi * nw == hi * (n * nw))
            by (nonlinear_arith);
    } else {
        assert(lo * (n * nw) == 0 && hi * (n * nw) == 0) by (nonlinear_arith) requires n == 0;
    }
}

/// An average-pooling output lies between the smallest and the largest entry
/// under its window; in particular a window of equal entries averages to
/// that entry.
pub proof fn lemma_avg_pool_between(p: Seq<Vec<u8>>, h: int, w: int, k: int, oh: int, ow: int, lo: int, hi: int)
    requires
        k > 0,
        0 <= oh,
        0 <= ow,
        oh * k + k <= h,
        ow * k + k <= w,
        forall|i: int, j: int| 0 <= i < k && 0 <= j < k ==> lo <= #[trigger] window_entry(p, oh * k, ow * k, i, j) <= hi,
    ensures
        lo <= window_sum(p, h, w, k, oh, ow) / (k * k) <= hi,
{
    let f = window_value(p, h, w, oh * k, ow * k);
    assert(0 <= oh * k && 0 <= ow * k) by (nonlinear_arith) requires 0 <= oh, 0 <= ow, k > 0;
    assert forall|i: int, j: int| 0 <= i < k && 0 <= j < k implies lo <= #[trigger] f(i, j) <= hi by {
        assert(f(i, j) == window_entry(p, oh * k, ow * k, i, j));
    }
    lemma_sum2_between(f, k, k, lo, hi);
    let s = sum2(f, k, k);
    let a = k * k;
    assert(a > 0) by (nonlinear_arith) requires k > 0, a == k * k;
    assert(lo <= s / a <= hi) by (nonlinear_arith)
        requires a > 0, lo * a <= s, s <= hi * a;
}

} // verus!
