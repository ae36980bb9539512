use vstd::prelude::*;
use crate::tensor::{Tensor4, all_equal4, filled2, filled4, has_shape2, has_shape4};

verus! {

/// Benchmark parameters: an `a x b x c x d` tensor filled with the value 2.
pub fn rand_4d_vec_generator(a: usize, b: usize, c: usize, d: usize) -> (out: Tensor4<u8>)
    ensures
        has_shape4(&out, a as int, b as int, c as int, d as int),
        all_equal4(&out, a as int, b as int, c as int, d as int, 2u8),
{
    filled4(a, b, c, d, 2u8)
}

/// Benchmark parameters: an `a x b` matrix filled with the value 2.
pub fn rand_2d_vec_generator(a: usize, b: usize) -> (out: Vec<Vec<u8>>)
    ensures
        has_shape2(&out, a as int, b as int),
        forall|i: int, j: int| 0 <= i < a && 0 <= j < b ==> #[trigger] out[i][j] == 2u8,
{
    filled2(a, b, 2u8)
}

} // verus!
