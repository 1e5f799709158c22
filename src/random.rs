//! The random source that level generation draws from.

use rand::Rng;
use vstd::prelude::*;

verus! {

/// Declares rand's `rngs::StdRng`, the seedable generator that level
/// generation is handed, so that it can be passed along; nothing is assumed
/// of what is inside it.
#[verifier::external_type_specification]
#[verifier::external_body]
pub struct ExStdRng(rand::rngs::StdRng);

/// Relies on rand's `Rng::gen_range(low, high)`: it returns a value in
/// `[low, high)` and panics unless `low < high`.
#[verifier::external_body]
pub(crate) fn draw_range(rng: &mut rand::rngs::StdRng, low: i32, high: i32) -> (r: i32)
    requires
        low < high,
    ensures
        low <= r < high,
{
    rng.gen_range(low, high)
}

} // verus!
