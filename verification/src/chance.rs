//! Chance, for what must not be guessed: room codes and the state of a sign-in.

use vstd::prelude::*;

verus! {

#[verifier::external_type_specification]
#[verifier::external_body]
pub struct ExThreadRng(rand::rngs::ThreadRng);

/// The thread's generator, seeded by the system. Wraps `rand::thread_rng`.
#[verifier::external_body]
pub(crate) fn thread_rng() -> rand::rngs::ThreadRng {
    rand::thread_rng()
}

/// A number drawn from `0..bound`. Wraps `rand::Rng::gen_range`, which panics on an empty
/// range and otherwise returns a value inside it; which value is left to chance.
#[verifier::external_body]
pub(crate) fn gen_below(rng: &mut rand::rngs::ThreadRng, bound: usize) -> (drawn: usize)
    requires
        bound > 0,
    ensures
        drawn < bound,
{
    rand::Rng::gen_range(rng, 0..bound)
}

} // verus!
