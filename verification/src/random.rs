//! The random source, as far as the library draws from it.

use rand::rngs::ThreadRng;
use rand::seq::SliceRandom;
use vstd::prelude::*;

verus! {

/// The generator that `rand` keeps for each thread. Nothing is known of its
/// state.
#[verifier::external_type_specification]
#[verifier::external_body]
pub struct ExThreadRng(ThreadRng);

/// `rand::thread_rng` hands out the current thread's generator. Nothing is
/// claimed of it. It fails only where the operating system cannot seed the
/// generator.
pub assume_specification[ rand::thread_rng ]() -> (rng: ThreadRng)
;

/// `SliceRandom::choose` on a slice: one element of the slice, picked by
/// the generator, or `None` when the slice is empty. Which element comes
/// back is not claimed.
#[verifier::external_body]
pub(crate) fn pick<'a, T>(choices: &'a [T], rng: &mut ThreadRng) -> (picked: Option<&'a T>)
    ensures
        choices@.len() == 0 ==> picked is None,
        choices@.len() > 0 ==> picked is Some && choices@.contains(*picked->0),
{
    choices.choose(rng)
}

} // verus!
