//! The source of chance.
//!
//! Every random decision of the library is one draw of a whole number from a
//! range, made on a generator that the caller hands in.  A generator seeded by
//! the caller replays the same terrain; nothing here reaches for a generator
//! of its own.

use rand::rngs::StdRng;
use rand::Rng;
use vstd::prelude::*;

verus! {

/// The generator of the `rand` crate that all draws are made on.  Nothing is
/// known of its state: it is handed through to the draw.
#[verifier::external_type_specification]
#[verifier::external_body]
pub struct ExStdRng(StdRng);

/// Draws a whole number from `low` up to, but not including, `high`.
///
/// This is `rand::Rng::gen_range` on the half-open range `low..high`, which
/// panics on an empty range and otherwise returns a member of the range.  The
/// contract keeps the empty range out and claims what holds of every draw:
/// the number lies in the range.  Which member comes out is left open.
#[verifier::external_body]
pub(crate) fn draw_between(rng: &mut StdRng, low: u64, high: u64) -> (drawn: u64)
    requires
        low < high,
    ensures
        low <= drawn < high,
{
    rng.gen_range(low..high)
}

} // verus!
