//! Where the secret comes from.

use rand::Rng;
use vstd::prelude::*;

verus! {

/// Draws a number from `low` to `high`, both included, with the thread's
/// random number generator.
///
/// Trusted, not proved: the body is `rand::Rng::gen_range` on
/// `rand::thread_rng()` with the range `low..=high`. The contract claims of
/// it that the number drawn lies in that range, and nothing about which
/// number it is: two draws from one range may differ. `gen_range` panics on
/// an empty range, which `requires` keeps out. A first draw on a thread
/// seeds the generator from the operating system and panics if that fails.
#[verifier::external_body]
pub(crate) fn draw_uniform(low: u32, high: u32) -> (drawn: u32)
    requires
        low <= high,
    ensures
        low <= drawn <= high,
{
    rand::thread_rng().gen_range(low..=high)
}

} // verus!
