use vstd::prelude::*;
use crate::tensor::Tensor4;

verus! {

/// Quantized ReLU of one value: values below the zero point are raised to it.
pub open spec fn relu_value(v: u8, zero_point: u8) -> u8 {
    if v > zero_point {
        v
    } else {
        zero_point
    }
}

/// `out` is `x` with ReLU applied to every entry (same lengths at every level).
pub open spec fn relu_applied1(x: Seq<u8>, out: Seq<u8>, z: u8) -> bool {
    &&& out.len() == x.len()
    &&& forall|i: int| 0 <= i < x.len() ==> #[trigger] out[i] == relu_value(x[i], z)
}

/// `out` is `x` with ReLU applied to every entry.
pub open spec fn relu_applied2(x: Seq<Vec<u8>>, out: Seq<Vec<u8>>, z: u8) -> bool {
    &&& out.len() == x.len()
    &&& forall|i: int| 0 <= i < x.len() ==> relu_applied1(#[trigger] x[i]@, out[i]@, z)
}

/// `out` is `x` with ReLU applied to every entry.
pub open spec fn relu_applied3(x: Seq<Vec<Vec<u8>>>, out: Seq<Vec<Vec<u8>>>, z: u8) -> bool {
    &&& out.len() == x.len()
    &&& forall|i: int| 0 <= i < x.len() ==> relu_applied2(#[trigger] x[i]@, out[i]@, z)
}

/// `out` is `x` with ReLU applied to every entry.
pub open spec fn relu_applied4(x: Seq<Vec<Vec<Vec<u8>>>>, out: Seq<Vec<Vec<Vec<u8>>>>, z: u8) -> bool {
    &&& out.len() == x.len()
    &&& forall|i: int| 0 <= i < x.len() ==> relu_applied3(#[trigger] x[i]@, out[i]@, z)
}

/// Quantized ReLU of one value.
pub fn relu_scalar(v: u8, zero_point: u8) -> (r: u8)
    ensures
        r == relu_value(v, zero_point),
{
    if v > zero_point {
        v
    } else {
        zero_point
    }
}

/// Quantized ReLU of every entry of a vector.
pub fn relu_vec(x: &Vec<u8>, z: u8) -> (out: Vec<u8>)
    ensures
        relu_applied1(x@, out@, z),
{
    let mut out: Vec<u8> = Vec::new();
    let mut i: usize = 0;
    while i < x.len()
        invariant
            i <= x.len(),
            out.len() == i,
            forall|k: int| 0 <= k < i ==> #[trigger] out[k] == relu_value(x[k], z),
        decreases x.len() - i,
    {
        out.push(relu_scalar(x[i], z));
        i = i + 1;
    }
    out
}

/// Quantized ReLU of every entry of a matrix (rows may differ in length).
pub fn relu_matrix(x: &Vec<Vec<u8>>, z: u8) -> (out: Vec<Vec<u8>>)
    ensures
        relu_applied2(x@, out@, z),
{
    let mut out: Vec<Vec<u8>> = Vec::new();
    let mut i: usize = 0;
    while i < x.len()
        invariant
            i <= x.len(),
            out.len() == i,
            forall|k: int| 0 <= k < i ==> relu_applied1(#[trigger] x[k]@, out[k]@, z),
        decreases x.len() - i,
    {
        out.push(relu_vec(&x[i], z));
        i = i + 1;
    }
    out
}

/// Quantized ReLU of every entry of a 3-dimensional array.
pub fn relu_array3(x: &Vec<Vec<Vec<u8>>>, z: u8) -> (out: Vec<Vec<Vec<u8>>>)
    ensures
        relu_applied3(x@, out@, z),
{
    let mut out: Vec<Vec<Vec<u8>>> = Vec::new();
    let mut i: usize = 0;
    while i < x.len()
        invariant
            i <= x.len(),
            out.len() == i,
            forall|k: int| 0 <= k < i ==> relu_applied2(#[trigger] x[k]@, out[k]@, z),
        decreases x.len() - i,
    {
        out.push(relu_matrix(&x[i], z));
        i = i + 1;
    }
    out
}

/// Quantized ReLU of every entry of a 4-dimensional tensor.
pub fn relu_tensor4(x: &Tensor4<u8>, z: u8) -> (out: Tensor4<u8>)
    ensures
        relu_applied4(x@, out@, z),
{
    let mut out: Tensor4<u8> = Vec::new();
    let mut i: usize = 0;
    while i < x.len()
        invariant
            i <= x.len(),
            out.len() == i,
            forall|k: int| 0 <= k < i ==> relu_applied3(#[trigger] x[k]@, out[k]@, z),
        decreases x.len() - i,
    {
        out.push(relu_array3(&x[i], z));
        i = i + 1;
    }
    out
}

/// ReLU never leaves a value below the zero point, keeps every value at or
/// above it unchanged, and applying it twice gives what applying it once does.
pub proof fn lemma_relu_value_laws(v: u8, zero_point: u8)
    ensures
        relu_value(v, zero_point) >= zero_point,
        relu_value(v, zero_point) >= v,
        v >= zero_point ==> relu_value(v, zero_point) == v,
        relu_value(relu_value(v, zero_point), zero_point) == relu_value(v, zero_point),
{
}

/// ReLU on a whole tensor is idempotent: if `y` is ReLU of `x` and `z` is
/// ReLU of `y` with the same zero point, then `z` has the entries of `y`.
pub proof fn lemma_relu_tensor_idempotent(
    x: Seq<Vec<Vec<Vec<u8>>>>,
    y: Seq<Vec<Vec<Vec<u8>>>>,
    z: Seq<Vec<Vec<Vec<u8>>>>,
    zero_point: u8,
)
    requires
        relu_applied4(x, y, zero_point),
        relu_applied4(y, z, zero_point),
    ensures
        crate::tensor::same4(z, y),
{
    assert forall|i: int| 0 <= i < y.len() implies crate::tensor::same3(#[trigger] z[i]@, y[i]@) by {
        assert(relu_applied3(x[i]@, y[i]@, zero_point));
        assert(relu_applied3(y[i]@, z[i]@, zero_point));
        assert forall|j: int| 0 <= j < y[i]@.len() implies crate::tensor::same2(#[trigger] z[i]@[j]@, y[i]@[j]@) by {
            assert(relu_applied2(x[i]@[j]@, y[i]@[j]@, zero_point));
            assert(relu_applied2(y[i]@[j]@, z[i]@[j]@, zero_point));
            assert forall|k: int| 0 <= k < y[i]@[j]@.len() implies #[trigger] z[i]@[j]@[k]@ == y[i]@[j]@[k]@ by {
                let xr = x[i]@[j]@[k]@;
                let yr = y[i]@[j]@[k]@;
                let zr = z[i]@[j]@[k]@;
                assert(relu_applied1(xr, yr, zero_point));
                assert(relu_applied1(yr, zr, zero_point));
                assert forall|m: int| 0 <= m < yr.len() implies zr[m] == yr[m] by {
                    lemma_relu_value_laws(xr[m], zero_point);
                }
                assert(zr =~= yr);
            }
        }
    }
}

/// A tensor after ReLU has no entry below the zero point.
pub proof fn lemma_relu_tensor_lower_bound(x: Seq<Vec<Vec<Vec<u8>>>>, y: Seq<Vec<Vec<Vec<u8>>>>, zero_point: u8, a: int, b: int, c: int, d: int)
    requires
        relu_applied4(x, y, zero_point),
        0 <= a < y.len(),
        0 <= b < y[a]@.len(),
        0 <= c < y[a]@[b]@.len(),
        0 <= d < y[a]@[b]@[c]@.len(),
    ensures
        y[a]@[b]@[c]@[d] >= zero_point,
        y[a]@[b]@[c]@[d] >= x[a]@[b]@[c]@[d],
{
    assert(relu_applied3(x[a]@, y[a]@, zero_point));
    assert(relu_applied2(x[a]@[b]@, y[a]@[b]@, zero_point));
    assert(relu_applied1(x[a]@[b]@[c]@, y[a]@[b]@[c]@, zero_point));
}

} // verus!
