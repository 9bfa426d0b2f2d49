//! The random source. Everything the library draws comes through here.

use rand::rngs::ThreadRng;
use rand::Rng;
use vstd::prelude::*;

verus! {

/// `rand::rngs::ThreadRng`, the generator that `rand::thread_rng` hands out.
/// Nothing is known of its state.
#[verifier::external_type_specification]
#[verifier::external_body]
pub struct ExThreadRng(ThreadRng);

/// `rand::thread_rng`: the calling thread's generator. Nothing is claimed of
/// it. It is seeded by the system, and panics where the system has no
/// randomness to give.
pub assume_specification[ rand::thread_rng ]() -> (rng: ThreadRng);

/// `Rng::gen_range` on the half-open range `0..batas`: the number drawn lies
/// in that range. The range must not be empty, or `gen_range` panics.
#[verifier::external_body]
pub(crate) fn undi(rng: &mut ThreadRng, batas: u8) -> (n: u8)
    requires
        batas > 0,
    ensures
        n < batas,
{
    rng.gen_range(0..batas)
}

} // verus!
