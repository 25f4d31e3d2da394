//! The random source. Nothing here is proved: these declarations state what
//! the `rand` crate is trusted to do.

use rand::Rng;
use vstd::prelude::*;

verus! {

/// `rand::rngs::ThreadRng`, the handle to the calling thread's generator. Its
/// state is opaque to the proofs.
#[verifier::external_type_specification]
#[verifier::external_body]
pub struct ExThreadRng(rand::rngs::ThreadRng);

/// `rand::thread_rng` returns the calling thread's generator. Nothing is
/// claimed of the handle.
pub assume_specification[ rand::thread_rng ]() -> (rng: rand::rngs::ThreadRng);

/// `Rng::gen_range` on the half-open range `low..high`. The range must not be
/// empty, since `gen_range` panics on an empty one. The value drawn lies in
/// the range; which value it is stays unknown.
#[verifier::external_body]
pub(crate) fn gen_range(rng: &mut rand::rngs::ThreadRng, low: usize, high: usize) -> (value: usize)
    requires
        low < high,
    ensures
        low <= value < high,
{
    rng.gen_range(low..high)
}

} // verus!
