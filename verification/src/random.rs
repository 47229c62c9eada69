//! The one place where chance enters the simulation.

use vstd::prelude::*;

verus! {

/// Largest bound that [`random_range`] accepts.
pub const RANDOM_LIMIT: i64 = 1_048_576;

/// Draws from `macroquad::rand::gen_range`, the generator of the `quad-rand`
/// crate that macroquad re-exports.
///
/// That function scales a 32-bit draw `k` to `low + (high - low) * k / 2^32` in
/// double precision and truncates. For bounds of at most [`RANDOM_LIMIT`] every
/// step of that computation is exact, so the value lies in `[low, high)`, or is
/// `low` when the two bounds coincide. Nothing more is claimed: which value of
/// the range comes back depends on the generator's hidden state.
#[verifier::external_body]
pub(crate) fn random_range(low: i64, high: i64) -> (r: i64)
    requires
        0 <= low <= high <= RANDOM_LIMIT,
    ensures
        low <= r <= high,
        low < high ==> r < high,
{
    macroquad::rand::gen_range(low, high)
}

} // verus!
