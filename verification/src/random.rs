//! The one place where chance enters the library.
//!
//! The numbers come from the crate `rand`. Its code is not verified here:
//! the three items below say what the library takes on trust from it.

use vstd::prelude::*;
use rand::Rng;

verus! {

/// `rand::rngs::ThreadRng`, the handle to the random number generator of the
/// running thread. Verus is told that the type exists and nothing of what is
/// inside it.
#[verifier::external_type_specification]
#[verifier::external_body]
pub struct ExThreadRng(rand::rngs::ThreadRng);

/// `rand::thread_rng` hands out the generator of the running thread, which
/// the operating system has seeded. Nothing is claimed of the handle. (Where
/// the operating system gives no seed, the first call panics; no caller can
/// rule that out beforehand.)
pub assume_specification[ rand::thread_rng ]() -> (generator: rand::rngs::ThreadRng);

/// Draws a number between `low` and `high`, both included.
///
/// The body calls `rand::Rng::gen_range` on `generator` with the range
/// `low..=high`. Verus does not read that code. It believes what is stated
/// here: the number drawn lies in the range, as `gen_range` documents. Which
/// number comes is left open, and two draws from one range may differ.
/// `gen_range` panics on an empty range, hence the precondition.
#[verifier::external_body]
pub(crate) fn draw_between(
    generator: &mut rand::rngs::ThreadRng,
    low: u32,
    high: u32,
) -> (drawn: u32)
    requires
        low <= high,
    ensures
        low <= drawn <= high,
{
    generator.gen_range(low..=high)
}

} // verus!
