use vstd::prelude::*;

verus! {

/// A 4-dimensional tensor stored as nested vectors: batch, channel, row, column.
pub type Tensor4<T> = Vec<Vec<Vec<Vec<T>>>>;

/// `t` is a rectangular tensor with dimensions `d1 x d2 x d3 x d4`.
pub open spec fn has_shape4<T>(t: &Tensor4<T>, d1: int, d2: int, d3: int, d4: int) -> bool {
    &&& t.len() == d1
    &&& forall|b: int| 0 <= b < d1 ==> #[trigger] t[b].len() == d2
    &&& forall|b: int, c: int| 0 <= b < d1 && 0 <= c < d2 ==> #[trigger] t[b][c].len() == d3
    &&& forall|b: int, c: int, h: int|
        0 <= b < d1 && 0 <= c < d2 && 0 <= h < d3 ==> #[trigger] t[b][c][h].len() == d4
}

/// The first image, its first channel and that channel's first row all
/// exist, so that the tensor's dimensions can be read off them.
pub open spec fn leading_entries<T>(t: &Tensor4<T>) -> bool {
    &&& t.len() > 0
    &&& t[0].len() > 0
    &&& t[0][0].len() > 0
}

/// The number of channels, read off the first image.
pub open spec fn channels_of<T>(t: &Tensor4<T>) -> int {
    t[0].len() as int
}

/// The height, read off the first channel of the first image.
pub open spec fn height_of<T>(t: &Tensor4<T>) -> int {
    t[0][0].len() as int
}

/// The width, read off the first row of the first channel of the first image.
pub open spec fn width_of<T>(t: &Tensor4<T>) -> int {
    t[0][0][0].len() as int
}

/// `t` is a rectangular matrix with dimensions `d1 x d2`.
pub open spec fn has_shape2<T>(t: &Vec<Vec<T>>, d1: int, d2: int) -> bool {
    &&& t.len() == d1
    &&& forall|i: int| 0 <= i < d1 ==> #[trigger] t[i].len() == d2
}

/// Every entry of the `d1 x d2 x d3 x d4` tensor `t` equals `v`.
pub open spec fn all_equal4<T>(t: &Tensor4<T>, d1: int, d2: int, d3: int, d4: int, v: T) -> bool {
    forall|b: int, c: int, h: int, w: int|
        0 <= b < d1 && 0 <= c < d2 && 0 <= h < d3 && 0 <= w < d4 ==> #[trigger] t[b][c][h][w] == v
}

/// A vector of `n` copies of `v`.
pub fn filled1<T: Copy>(n: usize, v: T) -> (out: Vec<T>)
    ensures
        out.len() == n,
        forall|i: int| 0 <= i < n ==> #[trigger] out[i] == v,
{
    let mut out: Vec<T> = Vec::new();
    let mut i: usize = 0;
    while i < n
        invariant
            i <= n,
            out.len() == i,
            forall|k: int| 0 <= k < i ==> #[trigger] out[k] == v,
        decreases n - i,
    {
        out.push(v);
        i = i + 1;
    }
    out
}

/// A `d1 x d2` matrix whose entries all equal `v`.
pub fn filled2<T: Copy>(d1: usize, d2: usize, v: T) -> (out: Vec<Vec<T>>)
    ensures
        has_shape2(&out, d1 as int, d2 as int),
        forall|i: int, j: int| 0 <= i < d1 && 0 <= j < d2 ==> #[trigger] out[i][j] == v,
{
    let mut out: Vec<Vec<T>> = Vec::new();
    let mut i: usize = 0;
    while i < d1
        invariant
            i <= d1,
            has_shape2(&out, i as int, d2 as int),
            forall|a: int, j: int| 0 <= a < i && 0 <= j < d2 ==> #[trigger] out[a][j] == v,
        decreases d1 - i,
    {
        out.push(filled1(d2, v));
        i = i + 1;
    }
    out
}

/// A `d1 x d2 x d3` array whose entries all equal `v`.
pub fn filled3<T: Copy>(d1: usize, d2: usize, d3: usize, v: T) -> (out: Vec<Vec<Vec<T>>>)
    ensures
        out.len() == d1,
        forall|i: int| 0 <= i < d1 ==> has_shape2(#[trigger] &out[i], d2 as int, d3 as int),
        forall|i: int, j: int, k: int|
            0 <= i < d1 && 0 <= j < d2 && 0 <= k < d3 ==> #[trigger] out[i][j][k] == v,
{
    let mut out: Vec<Vec<Vec<T>>> = Vec::new();
    let mut i: usize = 0;
    while i < d1
        invariant
            i <= d1,
            out.len() == i,
            forall|a: int| 0 <= a < i ==> has_shape2(#[trigger] &out[a], d2 as int, d3 as int),
            forall|a: int, j: int, k: int|
                0 <= a < i && 0 <= j < d2 && 0 <= k < d3 ==> #[trigger] out[a][j][k] == v,
        decreases d1 - i,
    {
        out.push(filled2(d2, d3, v));
        i = i + 1;
    }
    out
}

/// A `d1 x d2 x d3 x d4` tensor whose entries all equal `v`.
pub fn filled4<T: Copy>(d1: usize, d2: usize, d3: usize, d4: usize, v: T) -> (out: Tensor4<T>)
    ensures
        has_shape4(&out, d1 as int, d2 as int, d3 as int, d4 as int),
        all_equal4(&out, d1 as int, d2 as int, d3 as int, d4 as int, v),
{
    let mut out: Tensor4<T> = Vec::new();
    let mut i: usize = 0;
    while i < d1
        invariant
            i <= d1,
            has_shape4(&out, i as int, d2 as int, d3 as int, d4 as int),
            all_equal4(&out, i as int, d2 as int, d3 as int, d4 as int, v),
        decreases d1 - i,
    {
        out.push(filled3(d2, d3, d4, v));
        i = i + 1;
    }
    out
}

/// `x` holds at least `c x h x w` entries: every access `x[i][j][k]` with
/// `i < c`, `j < h`, `k < w` is in bounds.
pub open spec fn covers3<T>(x: &Vec<Vec<Vec<T>>>, c: int, h: int, w: int) -> bool {
    &&& c <= x.len()
    &&& forall|i: int| 0 <= i < c ==> h <= #[trigger] x[i].len()
    &&& forall|i: int, j: int| 0 <= i < c && 0 <= j < h ==> w <= #[trigger] x[i][j].len()
}

/// `t` holds at least `d1 x d2 x d3 x d4` entries.
pub open spec fn covers4<T>(t: &Tensor4<T>, d1: int, d2: int, d3: int, d4: int) -> bool {
    &&& d1 <= t.len()
    &&& forall|a: int| 0 <= a < d1 ==> covers3(#[trigger] &t[a], d2, d3, d4)
}

/// The row-major position of entry `(c, h, w)` of an array with `h_n` rows of
/// `w_n` columns per channel.
pub open spec fn flat_index3(c: int, h: int, w: int, h_n: int, w_n: int) -> int {
    (c * h_n + h) * w_n + w
}

/// Row-major positions are ordered as the entries are, and lie below the
/// array's size.
pub proof fn lemma_flat_index3_order(c: int, h: int, w: int, c_n: int, h_n: int, w_n: int)
    requires
        0 <= c < c_n,
        0 <= h < h_n,
        0 <= w < w_n,
    ensures
        0 <= flat_index3(c, h, w, h_n, w_n) < c_n * h_n * w_n,
        flat_index3(c, h, w, h_n, w_n) < flat_index3(c, h + 1, 0, h_n, w_n),
        flat_index3(c, h, w, h_n, w_n) < (c + 1) * h_n * w_n,
        flat_index3(c, h, w, h_n, w_n) >= c * h_n * w_n,
        flat_index3(c, h, w, h_n, w_n) >= flat_index3(c, h, 0, h_n, w_n),
        flat_index3(c, h + 1, 0, h_n, w_n) == flat_index3(c, h, 0, h_n, w_n) + w_n,
        flat_index3(c, 0, 0, h_n, w_n) == c * h_n * w_n,
        flat_index3(c, h_n, 0, h_n, w_n) == (c + 1) * h_n * w_n,
{
    assert(0 <= flat_index3(c, h, w, h_n, w_n) < c_n * h_n * w_n
        && flat_index3(c, h, w, h_n, w_n) < flat_index3(c, h + 1, 0, h_n, w_n)
        && flat_index3(c, h, w, h_n, w_n) < (c + 1) * h_n * w_n
        && flat_index3(c, h, w, h_n, w_n) >= c * h_n * w_n
        && flat_index3(c, h, w, h_n, w_n) >= flat_index3(c, h, 0, h_n, w_n)
        && flat_index3(c, h + 1, 0, h_n, w_n) == flat_index3(c, h, 0, h_n, w_n) + w_n
        && flat_index3(c, 0, 0, h_n, w_n) == c * h_n * w_n
        && flat_index3(c, h_n, 0, h_n, w_n) == (c + 1) * h_n * w_n) by (nonlinear_arith)
        requires
            0 <= c < c_n,
            0 <= h < h_n,
            0 <= w < w_n,
    ;
}

/// The entries of the `c_n x h_n x w_n` array `x` in row-major order.
pub open spec fn flat_seq3<T>(x: Seq<Vec<Vec<T>>>, c_n: int, h_n: int, w_n: int) -> Seq<T> {
    Seq::new((c_n * h_n * w_n) as nat, |i: int| x[(i / w_n) / h_n][(i / w_n) % h_n][i % w_n])
}

/// Every position below the size of an array is the row-major position of
/// exactly the entry that division by the row and plane sizes names.
pub proof fn lemma_flat_index3_inverse(i: int, c_n: int, h_n: int, w_n: int)
    requires
        0 <= i < c_n * h_n * w_n,
        c_n >= 0,
        h_n >= 0,
        w_n >= 0,
    ensures
        h_n > 0,
        w_n > 0,
        0 <= (i / w_n) / h_n < c_n,
        0 <= (i / w_n) % h_n < h_n,
        0 <= i % w_n < w_n,
        flat_index3((i / w_n) / h_n, (i / w_n) % h_n, i % w_n, h_n, w_n) == i,
{
    assert(c_n > 0 && h_n > 0 && w_n > 0) by (nonlinear_arith)
        requires 0 <= i < c_n * h_n * w_n, c_n >= 0, h_n >= 0, w_n >= 0;
    let q1 = i / w_n;
    let r1 = i % w_n;
    let q2 = q1 / h_n;
    let r2 = q1 % h_n;
    vstd::arithmetic::div_mod::lemma_fundamental_div_mod(i, w_n);
    vstd::arithmetic::div_mod::lemma_fundamental_div_mod(q1, h_n);
    vstd::arithmetic::div_mod::lemma_mod_bound(i, w_n);
    vstd::arithmetic::div_mod::lemma_mod_bound(q1, h_n);
    assert(q1 >= 0) by (nonlinear_arith) requires i >= 0, w_n > 0, q1 == i / w_n;
    assert(q2 >= 0) by (nonlinear_arith) requires q1 >= 0, h_n > 0, q2 == q1 / h_n;
    assert(i == (q2 * h_n + r2) * w_n + r1) by (nonlinear_arith)
        requires i == w_n * q1 + r1, q1 == h_n * q2 + r2;
    assert(q2 < c_n) by (nonlinear_arith)
        requires
            i == (q2 * h_n + r2) * w_n + r1,
            0 <= r1,
            0 <= r2,
            h_n > 0,
            w_n > 0,
            i < c_n * h_n * w_n,
            q2 >= 0,
    {
        if q2 >= c_n {
            assert(q2 * h_n * w_n >= c_n * h_n * w_n) by (nonlinear_arith)
                requires q2 >= c_n, h_n > 0, w_n > 0;
            assert((q2 * h_n + r2) * w_n + r1 >= q2 * h_n * w_n) by (nonlinear_arith)
                requires r2 >= 0, r1 >= 0, w_n > 0;
        }
    }
}

/// Positions of entries that come earlier in row-major order are smaller.
pub proof fn lemma_flat_index3_lt(c1: int, h1: int, w1: int, c2: int, h2: int, w2: int, h_n: int, w_n: int)
    requires
        0 <= c1 <= c2,
        0 <= h1 < h_n,
        0 <= h2 < h_n,
        0 <= w1 < w_n,
        0 <= w2 < w_n,
        c1 < c2 || (c1 == c2 && h1 < h2) || (c1 == c2 && h1 == h2 && w1 < w2),
    ensures
        flat_index3(c1, h1, w1, h_n, w_n) < flat_index3(c2, h2, w2, h_n, w_n),
{
    if c1 < c2 {
        assert((c1 * h_n + h1) * w_n + w1 < (c2 * h_n + h2) * w_n + w2) by (nonlinear_arith)
            requires
                0 <= c1 < c2,
                0 <= h1 < h_n,
                0 <= h2 < h_n,
                0 <= w1 < w_n,
                0 <= w2 < w_n,
        {
            assert(c1 * h_n + h1 < c2 * h_n) by (nonlinear_arith)
                requires 0 <= c1 < c2, 0 <= h1 < h_n;
            assert((c1 * h_n + h1 + 1) * w_n <= c2 * h_n * w_n) by (nonlinear_arith)
                requires c1 * h_n + h1 + 1 <= c2 * h_n, w_n > 0;
        }
    } else if h1 < h2 {
        assert((c1 * h_n + h1) * w_n + w1 < (c2 * h_n + h2) * w_n + w2) by (nonlinear_arith)
            requires
                c1 == c2,
                0 <= h1 < h2,
                0 <= w1 < w_n,
                0 <= w2 < w_n,
        {
            assert((c1 * h_n + h1 + 1) * w_n <= (c2 * h_n + h2) * w_n) by (nonlinear_arith)
                requires c1 == c2, h1 + 1 <= h2, w_n > 0;
        }
    }
}

/// The entries `x[c][h][w]` with `c < c_n`, `h < h_n`, `w < w_n`, in row-major
/// order.
pub fn flatten_image<T: Copy>(x: &Vec<Vec<Vec<T>>>, c_n: usize, h_n: usize, w_n: usize) -> (out: Vec<T>)
    requires
        covers3(x, c_n as int, h_n as int, w_n as int),
        c_n * h_n * w_n <= usize::MAX,
    ensures
        out.len() == c_n * h_n * w_n,
        forall|c: int, h: int, w: int|
            0 <= c < c_n && 0 <= h < h_n && 0 <= w < w_n
                ==> #[trigger] out[flat_index3(c, h, w, h_n as int, w_n as int)] == x[c][h][w],
        out@ == flat_seq3(x@, c_n as int, h_n as int, w_n as int),
{
    let ghost hn = h_n as int;
    let ghost wn = w_n as int;
    let mut out: Vec<T> = Vec::new();
    let mut c: usize = 0;
    assert(0 * hn * wn == 0) by (nonlinear_arith);
    while c < c_n
        invariant
            covers3(x, c_n as int, hn, wn),
            hn == h_n,
            wn == w_n,
            c <= c_n,
            out.len() == c * hn * wn,
            forall|c2: int, h2: int, w2: int|
                0 <= c2 < c && 0 <= h2 < hn && 0 <= w2 < wn
                    ==> #[trigger] out[flat_index3(c2, h2, w2, hn, wn)] == x[c2][h2][w2],
        decreases c_n - c,
    {
        proof {
            if hn > 0 && wn > 0 {
                lemma_flat_index3_order(c as int, 0, 0, c_n as int, hn, wn);
            } else {
                assert(c * hn * wn == 0 && (c + 1) * hn * wn == 0) by (nonlinear_arith)
                    requires hn == 0 || wn == 0;
            }
        }
        let mut h: usize = 0;
        while h < h_n
            invariant
                covers3(x, c_n as int, hn, wn),
                hn == h_n,
                wn == w_n,
                c < c_n,
                h <= h_n,
                out.len() == flat_index3(c as int, h as int, 0, hn, wn),
                out.len() <= (c + 1) * hn * wn,
                forall|c2: int, h2: int, w2: int|
                    0 <= c2 < c && 0 <= h2 < hn && 0 <= w2 < wn
                        ==> #[trigger] out[flat_index3(c2, h2, w2, hn, wn)] == x[c2][h2][w2],
                forall|h2: int, w2: int|
                    0 <= h2 < h && 0 <= w2 < wn
                        ==> #[trigger] out[flat_index3(c as int, h2, w2, hn, wn)] == x[c as int][h2][w2],
            decreases h_n - h,
        {
            let ghost start = out.len() as int;
            let mut w: usize = 0;
            while w < w_n
                invariant
                    covers3(x, c_n as int, hn, wn),
                    hn == h_n,
                    wn == w_n,
                    c < c_n,
                    h < h_n,
                    w <= w_n,
                    start == flat_index3(c as int, h as int, 0, hn, wn),
                    out.len() == start + w,
                    forall|c2: int, h2: int, w2: int|
                        0 <= c2 < c && 0 <= h2 < hn && 0 <= w2 < wn
                            ==> #[trigger] out[flat_index3(c2, h2, w2, hn, wn)] == x[c2][h2][w2],
                    forall|h2: int, w2: int|
                        0 <= h2 < h && 0 <= w2 < wn
                            ==> #[trigger] out[flat_index3(c as int, h2, w2, hn, wn)] == x[c as int][h2][w2],
                    forall|w2: int|
                        0 <= w2 < w ==> #[trigger] out[flat_index3(c as int, h as int, w2, hn, wn)] == x[c as int][h as int][w2],
                decreases w_n - w,
            {
                assert(h_n <= x[c as int].len());
                assert(w_n <= x[c as int][h as int].len());
                let v = x[c][h][w];
                proof {
                    lemma_flat_index3_order(c as int, h as int, w as int, c_n as int, hn, wn);
                }
                out.push(v);
                assert forall|c2: int, h2: int, w2: int|
                    0 <= c2 < c && 0 <= h2 < hn && 0 <= w2 < wn
                        implies #[trigger] out[flat_index3(c2, h2, w2, hn, wn)] == x[c2][h2][w2] by {
                    lemma_flat_index3_lt(c2, h2, w2, c as int, h as int, w as int, hn, wn);
                }
                assert forall|h2: int, w2: int|
                    0 <= h2 < h && 0 <= w2 < wn
                        implies #[trigger] out[flat_index3(c as int, h2, w2, hn, wn)] == x[c as int][h2][w2] by {
                    lemma_flat_index3_lt(c as int, h2, w2, c as int, h as int, w as int, hn, wn);
                }
                w = w + 1;
            }
            assert(flat_index3(c as int, h as int + 1, 0, hn, wn) == start + wn
                && start + wn <= (c + 1) * hn * wn) by (nonlinear_arith)
                requires
                    start == flat_index3(c as int, h as int, 0, hn, wn),
                    h + 1 <= hn,
                    wn >= 0,
            ;
            h = h + 1;
        }
        assert(flat_index3(c as int, hn, 0, hn, wn) == (c + 1) * hn * wn) by (nonlinear_arith);
        c = c + 1;
    }
    assert forall|i: int| 0 <= i < out.len() implies out[i] == #[trigger] flat_seq3(x@, c_n as int, hn, wn)[i] by {
        lemma_flat_index3_inverse(i, c_n as int, hn, wn);
        let c2 = (i / wn) / hn;
        let h2 = (i / wn) % hn;
        let w2 = i % wn;
        assert(out[flat_index3(c2, h2, w2, hn, wn)] == x[c2][h2][w2]);
    }
    assert(out@ =~= flat_seq3(x@, c_n as int, hn, wn));
    out
}

/// The value read at position `i` of a stream of values, or zero past its end.
pub open spec fn value_or_zero(values: Seq<u8>, i: int) -> u8 {
    if 0 <= i < values.len() {
        values[i]
    } else {
        0
    }
}

/// The row-major position of entry `(a, b, c, d)` of a `_ x d2 x d3 x d4` tensor.
pub open spec fn flat_index4(a: int, b: int, c: int, d: int, d2: int, d3: int, d4: int) -> int {
    a * (d2 * d3 * d4) + flat_index3(b, c, d, d3, d4)
}

/// A `d1 x d2` matrix filled in row-major order from `values`; entries past
/// the end of `values` are zero, values past `d1 * d2` are not used.
pub fn fill_matrix(values: &Vec<u8>, d1: usize, d2: usize) -> (out: Vec<Vec<u8>>)
    requires
        d1 * d2 <= usize::MAX,
    ensures
        has_shape2(&out, d1 as int, d2 as int),
        forall|i: int, j: int|
            0 <= i < d1 && 0 <= j < d2 ==> #[trigger] out[i][j] == value_or_zero(values@, i * d2 + j),
{
    let mut out: Vec<Vec<u8>> = Vec::new();
    let mut i: usize = 0;
    let mut idx: usize = 0;
    while i < d1
        invariant
            d1 * d2 <= usize::MAX,
            i <= d1,
            idx == i * d2,
            has_shape2(&out, i as int, d2 as int),
            forall|a: int, j: int|
                0 <= a < i && 0 <= j < d2 ==> #[trigger] out[a][j] == value_or_zero(values@, a * d2 + j),
        decreases d1 - i,
    {
        assert((i + 1) * d2 <= d1 * d2 && (i + 1) * d2 == i * d2 + d2) by (nonlinear_arith)
            requires i + 1 <= d1;
        let mut row: Vec<u8> = Vec::new();
        let mut j: usize = 0;
        while j < d2
            invariant
                i < d1,
                j <= d2,
                idx == i * d2 + j,
                (i + 1) * d2 <= usize::MAX,
                (i + 1) * d2 == i * d2 + d2,
                row.len() == j,
                forall|k: int| 0 <= k < j ==> #[trigger] row[k] == value_or_zero(values@, i * d2 + k),
            decreases d2 - j,
        {
            let v: u8 = if idx < values.len() { values[idx] } else { 0 };
            row.push(v);
            idx = idx + 1;
            j = j + 1;
        }
        out.push(row);
        i = i + 1;
    }
    out
}

/// One `d2 x d3 x d4` block of a tensor filled in row-major order from
/// `values`, starting at position `offset`.
fn fill_block(values: &Vec<u8>, offset: usize, d2: usize, d3: usize, d4: usize) -> (out: Vec<Vec<Vec<u8>>>)
    requires
        offset + d2 * d3 * d4 <= usize::MAX,
    ensures
        out.len() == d2,
        forall|b: int| 0 <= b < d2 ==> has_shape2(#[trigger] &out[b], d3 as int, d4 as int),
        forall|b: int, c: int, d: int|
            0 <= b < d2 && 0 <= c < d3 && 0 <= d < d4 ==> #[trigger] out[b][c][d]
                == value_or_zero(values@, offset + flat_index3(b, c, d, d3 as int, d4 as int)),
{
    let ghost n3 = d3 as int;
    let ghost n4 = d4 as int;
    assert(flat_index3(0, 0, 0, n3, n4) == 0) by (nonlinear_arith);
    let mut out: Vec<Vec<Vec<u8>>> = Vec::new();
    let mut idx: usize = offset;
    let mut b: usize = 0;
    while b < d2
        invariant
            offset + d2 * d3 * d4 <= usize::MAX,
            n3 == d3,
            n4 == d4,
            b <= d2,
            idx == offset + flat_index3(b as int, 0, 0, n3, n4),
            out.len() == b,
            forall|a: int| 0 <= a < b ==> has_shape2(#[trigger] &out[a], n3, n4),
            forall|a: int, c: int, d: int|
                0 <= a < b && 0 <= c < d3 && 0 <= d < d4 ==> #[trigger] out[a][c][d]
                    == value_or_zero(values@, offset + flat_index3(a, c, d, n3, n4)),
        decreases d2 - b,
    {
        assert(flat_index3(b as int + 1, 0, 0, n3, n4) <= d2 * d3 * d4
            && flat_index3(b as int, n3, 0, n3, n4) == flat_index3(b as int + 1, 0, 0, n3, n4)) by (nonlinear_arith)
            requires
                b + 1 <= d2,
                n3 == d3,
                n4 == d4,
        ;
        let mut plane: Vec<Vec<u8>> = Vec::new();
        let mut c: usize = 0;
        while c < d3
            invariant
                offset + d2 * d3 * d4 <= usize::MAX,
                n3 == d3,
                n4 == d4,
                b < d2,
                c <= d3,
                idx == offset + flat_index3(b as int, c as int, 0, n3, n4),
                flat_index3(b as int + 1, 0, 0, n3, n4) <= d2 * d3 * d4,
                flat_index3(b as int, n3, 0, n3, n4) == flat_index3(b as int + 1, 0, 0, n3, n4),
                has_shape2(&plane, c as int, n4),
                forall|e: int, d: int|
                    0 <= e < c && 0 <= d < d4 ==> #[trigger] plane[e][d]
                        == value_or_zero(values@, offset + flat_index3(b as int, e, d, n3, n4)),
            decreases d3 - c,
        {
            assert(flat_index3(b as int, c as int + 1, 0, n3, n4) == flat_index3(b as int, c as int, 0, n3, n4) + n4
                && flat_index3(b as int, c as int + 1, 0, n3, n4) <= flat_index3(b as int, n3, 0, n3, n4)) by (nonlinear_arith)
                requires
                    c + 1 <= n3,
                    n4 >= 0,
            ;
            let mut row: Vec<u8> = Vec::new();
            let mut d: usize = 0;
            while d < d4
                invariant
                    offset + d2 * d3 * d4 <= usize::MAX,
                    n3 == d3,
                    n4 == d4,
                    b < d2,
                    c < d3,
                    d <= d4,
                    idx == offset + flat_index3(b as int, c as int, d as int, n3, n4),
                    flat_index3(b as int, c as int + 1, 0, n3, n4) == flat_index3(b as int, c as int, 0, n3, n4) + n4,
                    flat_index3(b as int, c as int + 1, 0, n3, n4) <= flat_index3(b as int, n3, 0, n3, n4),
                    flat_index3(b as int + 1, 0, 0, n3, n4) <= d2 * d3 * d4,
                    flat_index3(b as int, n3, 0, n3, n4) == flat_index3(b as int + 1, 0, 0, n3, n4),
                    row.len() == d,
                    forall|k: int|
                        0 <= k < d ==> #[trigger] row[k] == value_or_zero(values@,
                            offset + flat_index3(b as int, c as int, k, n3, n4)),
                decreases d4 - d,
            {
                let v: u8 = if idx < values.len() { values[idx] } else { 0 };
                row.push(v);
                idx = idx + 1;
                d = d + 1;
            }
            plane.push(row);
            c = c + 1;
        }
        out.push(plane);
        b = b + 1;
    }
    out
}

/// A `d1 x d2 x d3 x d4` tensor filled in row-major order from `values`;
/// entries past the end of `values` are zero, values past the tensor's size
/// are not used.
pub fn fill_tensor4(values: &Vec<u8>, d1: usize, d2: usize, d3: usize, d4: usize) -> (out: Tensor4<u8>)
    requires
        d1 * d2 <= usize::MAX,
        d1 * d2 * d3 <= usize::MAX,
        d1 * d2 * d3 * d4 <= usize::MAX,
    ensures
        has_shape4(&out, d1 as int, d2 as int, d3 as int, d4 as int),
        forall|a: int, b: int, c: int, d: int|
            0 <= a < d1 && 0 <= b < d2 && 0 <= c < d3 && 0 <= d < d4 ==> #[trigger] out[a][b][c][d]
                == value_or_zero(values@, flat_index4(a, b, c, d, d2 as int, d3 as int, d4 as int)),
{
    let ghost blk = d2 * d3 * d4;
    assert(d1 * d2 * d3 * d4 == d1 * blk) by (nonlinear_arith) requires blk == d2 * d3 * d4;
    let mut out: Tensor4<u8> = Vec::new();
    let mut a: usize = 0;
    let mut offset: usize = 0;
    while a < d1
        invariant
            d1 * d2 <= usize::MAX,
            d1 * d2 * d3 <= usize::MAX,
            d1 * d2 * d3 * d4 <= usize::MAX,
            d1 * blk <= usize::MAX,
            blk == d2 * d3 * d4,
            a <= d1,
            offset == a * blk,
            has_shape4(&out, a as int, d2 as int, d3 as int, d4 as int),
            forall|a2: int, b: int, c: int, d: int|
                0 <= a2 < a && 0 <= b < d2 && 0 <= c < d3 && 0 <= d < d4 ==> #[trigger] out[a2][b][c][d]
                    == value_or_zero(values@, flat_index4(a2, b, c, d, d2 as int, d3 as int, d4 as int)),
        decreases d1 - a,
    {
        assert((a + 1) * blk <= d1 * blk && (a + 1) * blk == a * blk + blk) by (nonlinear_arith)
            requires a + 1 <= d1, blk >= 0;
        assert(d2 * d3 <= d1 * d2 * d3 && d2 * d3 * d4 <= d1 * d2 * d3 * d4) by (nonlinear_arith)
            requires d1 >= 1;
        let block = fill_block(values, offset, d2, d3, d4);
        out.push(block);
        offset = offset + d2 * d3 * d4;
        a = a + 1;
    }
    out
}

/// `a` and `b` have the same lengths at every level and the same entries.
pub open spec fn same2<T>(a: Seq<Vec<T>>, b: Seq<Vec<T>>) -> bool {
    &&& a.len() == b.len()
    &&& forall|i: int| 0 <= i < a.len() ==> #[trigger] a[i]@ == b[i]@
}

/// `a` and `b` have the same lengths at every level and the same entries.
pub open spec fn same3<T>(a: Seq<Vec<Vec<T>>>, b: Seq<Vec<Vec<T>>>) -> bool {
    &&& a.len() == b.len()
    &&& forall|i: int| 0 <= i < a.len() ==> same2(#[trigger] a[i]@, b[i]@)
}

/// `a` and `b` have the same lengths at every level and the same entries.
pub open spec fn same4<T>(a: Seq<Vec<Vec<Vec<T>>>>, b: Seq<Vec<Vec<Vec<T>>>>) -> bool {
    &&& a.len() == b.len()
    &&& forall|i: int| 0 <= i < a.len() ==> same3(#[trigger] a[i]@, b[i]@)
}

/// A copy of a vector.
pub fn copy_vec<T: Copy>(x: &Vec<T>) -> (out: Vec<T>)
    ensures
        out@ == x@,
{
    let mut out: Vec<T> = Vec::new();
    let mut i: usize = 0;
    while i < x.len()
        invariant
            i <= x.len(),
            out@ == x@.take(i as int),
        decreases x.len() - i,
    {
        out.push(x[i]);
        i = i + 1;
        assert(out@ =~= x@.take(i as int));
    }
    assert(x@.take(x.len() as int) =~= x@);
    out
}

/// A copy of a matrix.
pub fn copy_matrix<T: Copy>(x: &Vec<Vec<T>>) -> (out: Vec<Vec<T>>)
    ensures
        same2(out@, x@),
{
    let mut out: Vec<Vec<T>> = Vec::new();
    let mut i: usize = 0;
    while i < x.len()
        invariant
            i <= x.len(),
            out.len() == i,
            forall|k: int| 0 <= k < i ==> #[trigger] out[k]@ == x[k]@,
        decreases x.len() - i,
    {
        out.push(copy_vec(&x[i]));
        i = i + 1;
    }
    out
}

/// A copy of a 3-dimensional array.
pub fn copy_array3<T: Copy>(x: &Vec<Vec<Vec<T>>>) -> (out: Vec<Vec<Vec<T>>>)
    ensures
        same3(out@, x@),
{
    let mut out: Vec<Vec<Vec<T>>> = Vec::new();
    let mut i: usize = 0;
    while i < x.len()
        invariant
            i <= x.len(),
            out.len() == i,
            forall|k: int| 0 <= k < i ==> same2(#[trigger] out[k]@, x[k]@),
        decreases x.len() - i,
    {
        out.push(copy_matrix(&x[i]));
        i = i + 1;
    }
    out
}

/// A copy of a 4-dimensional tensor.
pub fn copy_tensor4<T: Copy>(x: &Tensor4<T>) -> (out: Tensor4<T>)
    ensures
        same4(out@, x@),
{
    let mut out: Tensor4<T> = Vec::new();
    let mut i: usize = 0;
    while i < x.len()
        invariant
            i <= x.len(),
            out.len() == i,
            forall|k: int| 0 <= k < i ==> same3(#[trigger] out[k]@, x[k]@),
        decreases x.len() - i,
    {
        out.push(copy_array3(&x[i]));
        i = i + 1;
    }
    out
}

/// Flattening undoes filling: if `x` holds `values` in row-major order from
/// position `offset` on (zero past their end), flattening `x` in row-major
/// order gives back those values.
pub proof fn lemma_flatten_undoes_fill(values: Seq<u8>, x: Seq<Vec<Vec<u8>>>, c_n: int, h_n: int, w_n: int, offset: int)
    requires
        c_n >= 0,
        h_n >= 0,
        w_n >= 0,
        forall|c: int, h: int, w: int|
            0 <= c < c_n && 0 <= h < h_n && 0 <= w < w_n ==> #[trigger] x[c][h][w]
                == value_or_zero(values, offset + flat_index3(c, h, w, h_n, w_n)),
    ensures
        flat_seq3(x, c_n, h_n, w_n) == Seq::new((c_n * h_n * w_n) as nat, |i: int| value_or_zero(values, offset + i)),
        offset >= 0 && offset + c_n * h_n * w_n <= values.len() ==> flat_seq3(x, c_n, h_n, w_n) == values.subrange(
            offset, offset + c_n * h_n * w_n),
{
    let lhs = flat_seq3(x, c_n, h_n, w_n);
    let rhs = Seq::new((c_n * h_n * w_n) as nat, |i: int| value_or_zero(values, offset + i));
    assert(c_n * h_n * w_n >= 0) by (nonlinear_arith) requires c_n >= 0, h_n >= 0, w_n >= 0;
    assert forall|i: int| 0 <= i < lhs.len() implies lhs[i] == rhs[i] by {
        lemma_flat_index3_inverse(i, c_n, h_n, w_n);
        let c = (i / w_n) / h_n;
        let h = (i / w_n) % h_n;
        let w = i % w_n;
        assert(x[c][h][w] == value_or_zero(values, offset + flat_index3(c, h, w, h_n, w_n)));
    }
    assert(lhs =~= rhs);
    if offset >= 0 && offset + c_n * h_n * w_n <= values.len() {
        assert(rhs =~= values.subrange(offset, offset + c_n * h_n * w_n));
    }
}

/// Flattening the images of a tensor filled from `values` gives back the
/// values: image `a` of a `d1 x d2 x d3 x d4` tensor holds values
/// `a * d2 * d3 * d4` up to `(a + 1) * d2 * d3 * d4` (zero past their end).
pub proof fn lemma_flatten_undoes_fill_tensor4(values: Seq<u8>, t: Seq<Vec<Vec<Vec<u8>>>>, d1: int, d2: int, d3: int, d4: int, a: int)
    requires
        d2 >= 0,
        d3 >= 0,
        d4 >= 0,
        0 <= a < d1,
        a < t.len(),
        forall|a2: int, b: int, c: int, d: int|
            0 <= a2 < d1 && 0 <= b < d2 && 0 <= c < d3 && 0 <= d < d4 ==> #[trigger] t[a2][b][c][d]
                == value_or_zero(values, flat_index4(a2, b, c, d, d2, d3, d4)),
    ensures
        flat_seq3(t[a]@, d2, d3, d4) == Seq::new((d2 * d3 * d4) as nat, |i: int| value_or_zero(values, a * (d2 * d3 * d4) + i)),
{
    assert forall|b: int, c: int, d: int|
        0 <= b < d2 && 0 <= c < d3 && 0 <= d < d4 implies #[trigger] t[a]@[b][c][d]
            == value_or_zero(values, a * (d2 * d3 * d4) + flat_index3(b, c, d, d3, d4)) by {
        assert(t[a][b][c][d] == value_or_zero(values, flat_index4(a, b, c, d, d2, d3, d4)));
    }
    lemma_flatten_undoes_fill(values, t[a]@, d2, d3, d4, a * (d2 * d3 * d4));
}

} // verus!
