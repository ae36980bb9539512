use vstd::prelude::*;
use rand::Rng;
use crate::tensor::{Tensor4, has_shape2, has_shape4};

verus! {

/// The handle to the thread-local random generator of `rand`.
#[verifier::external_type_specification]
#[verifier::external_body]
pub struct ExThreadRng(rand::rngs::ThreadRng);

/// Calls `rand::thread_rng`, which returns a handle to the lazily seeded
/// thread-local generator. Nothing is claimed of the handle; the call panics
/// if the operating system cannot seed the generator, which no argument
/// governs.
#[verifier::external_body]
fn thread_rng() -> rand::rngs::ThreadRng {
    rand::thread_rng()
}

/// Calls `Rng::gen::<u8>` on the generator: a random byte, of which nothing
/// is claimed. The call panics if the generator must reseed itself and the
/// operating system cannot supply a seed, which no argument governs.
#[verifier::external_body]
fn random_u8(rng: &mut rand::rngs::ThreadRng) -> u8 {
    rng.gen::<u8>()
}

/// A row of `n` random bytes.
fn random_row(rng: &mut rand::rngs::ThreadRng, n: usize) -> (out: Vec<u8>)
    ensures
        out.len() == n,
{
    let mut out: Vec<u8> = Vec::new();
    let mut i: usize = 0;
    while i < n
        invariant
            i <= n,
            out.len() == i,
        decreases n - i,
    {
        out.push(random_u8(rng));
        i = i + 1;
    }
    out
}

/// A `d1 x d2` matrix of random bytes.
fn random_matrix(rng: &mut rand::rngs::ThreadRng, d1: usize, d2: usize) -> (out: Vec<Vec<u8>>)
    ensures
        has_shape2(&out, d1 as int, d2 as int),
{
    let mut out: Vec<Vec<u8>> = Vec::new();
    let mut i: usize = 0;
    while i < d1
        invariant
            i <= d1,
            has_shape2(&out, i as int, d2 as int),
        decreases d1 - i,
    {
        out.push(random_row(rng, d2));
        i = i + 1;
    }
    out
}

/// Random weights: a `d1 x d2 x d3 x d4` tensor of bytes drawn from the
/// thread-local generator.
pub fn rand_4d_vec_generator(d1: usize, d2: usize, d3: usize, d4: usize) -> (out: Tensor4<u8>)
    ensures
        has_shape4(&out, d1 as int, d2 as int, d3 as int, d4 as int),
{
    let mut rng = thread_rng();
    let mut out: Tensor4<u8> = Vec::new();
    let mut i: usize = 0;
    while i < d1
        invariant
            i <= d1,
            has_shape4(&out, i as int, d2 as int, d3 as int, d4 as int),
        decreases d1 - i,
    {
        let mut img: Vec<Vec<Vec<u8>>> = Vec::new();
        let mut j: usize = 0;
        while j < d2
            invariant
                j <= d2,
                img.len() == j,
                forall|k: int| 0 <= k < j ==> has_shape2(#[trigger] &img[k], d3 as int, d4 as int),
            decreases d2 - j,
        {
            img.push(random_matrix(&mut rng, d3, d4));
            j = j + 1;
        }
        out.push(img);
        i = i + 1;
    }
    out
}

/// Random weights: a `d1 x d2` matrix of bytes drawn from the thread-local
/// generator.
pub fn rand_2d_vec_generator(d1: usize, d2: usize) -> (out: Vec<Vec<u8>>)
    ensures
        has_shape2(&out, d1 as int, d2 as int),
{
    let mut rng = thread_rng();
    random_matrix(&mut rng, d1, d2)
}

} // verus!
