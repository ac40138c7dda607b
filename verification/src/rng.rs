//! The seeded random source, and the draws taken from it.

use vstd::prelude::*;
use rand::rngs::StdRng;
use rand::Rng;

verus! {

/// The standard generator of the rand crate. Its state is hidden: a
/// contract can say in which range a draw lies, not which value it is.
#[verifier::external_type_specification]
#[verifier::external_body]
pub struct ExStdRng(StdRng);

/// Calls `Rng::gen_range` of rand on the half-open range `low..high` of
/// `u64`. The call panics on an empty range, hence the precondition; the
/// value it returns lies in the range.
#[verifier::external_body]
pub(crate) fn draw_u64(rng: &mut StdRng, low: u64, high: u64) -> (r: u64)
    requires
        low < high,
    ensures
        low <= r < high,
{
    rng.gen_range(low..high)
}

/// Calls `Rng::gen_range` of rand on the half-open range `low..high` of
/// `usize`. The call panics on an empty range, hence the precondition; the
/// value it returns lies in the range.
#[verifier::external_body]
pub(crate) fn draw_usize(rng: &mut StdRng, low: usize, high: usize) -> (r: usize)
    requires
        low < high,
    ensures
        low <= r < high,
{
    rng.gen_range(low..high)
}

/// Calls `Rng::gen_range` of rand on the half-open range `low..high` of
/// `i32`. The call panics on an empty range, hence the precondition; the
/// value it returns lies in the range.
#[verifier::external_body]
pub(crate) fn draw_i32(rng: &mut StdRng, low: i32, high: i32) -> (r: i32)
    requires
        low < high,
    ensures
        low <= r < high,
{
    rng.gen_range(low..high)
}

} // verus!
