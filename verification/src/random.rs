//! The one source of randomness.

use vstd::prelude::*;

verus! {

/// Calls `ezrng::randint(low, high)`.
///
/// With `low == 0` that function returns a freshly seeded 64-bit hash reduced
/// modulo `high`, so it divides by `high` and its result is below `high`.
/// Nothing else is claimed of the result: two calls with the same arguments
/// may differ. The non-zero branch of `randint` is not used by this library.
#[verifier::external_body]
fn randint(low: u64, high: u64) -> (r: u64)
    requires
        low == 0,
        high > 0,
    ensures
        r < high,
{
    ezrng::randint(low, high)
}

/// Draws an index below `bound`. Nothing but the bound is known of it.
pub(crate) fn draw_below(bound: usize) -> (r: usize)
    requires
        bound > 0,
    ensures
        r < bound,
{
    let r: u64 = randint(0, bound as u64);
    r as usize
}

} // verus!
