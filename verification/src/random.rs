//! Random draws.
use vstd::prelude::*;

verus! {

/// Draws a number between `low` and `high`, both included.
///
/// Calls `fastrand::u32` on the range `low..=high`.  That function panics on an
/// empty range, which the precondition leaves out, and returns a number of the
/// range.  Which one is left to chance.
#[verifier::external_body]
pub(crate) fn random_u32(low: u32, high: u32) -> (r: u32)
    requires
        low <= high,
    ensures
        low <= r <= high,
{
    fastrand::u32(low..=high)
}

/// Draws a number between `low` and `high`, both included.
///
/// Calls `fastrand::u64` on the range `low..=high`.  That function panics on an
/// empty range, which the precondition leaves out, and returns a number of the
/// range.  Which one is left to chance.
#[verifier::external_body]
pub(crate) fn random_u64(low: u64, high: u64) -> (r: u64)
    requires
        low <= high,
    ensures
        low <= r <= high,
{
    fastrand::u64(low..=high)
}

/// Draws an index below `count`.
///
/// Calls `fastrand::usize` on the range `..count`.  That function panics on an
/// empty range, which the precondition leaves out, and returns a number of the
/// range.  Which one is left to chance.
#[verifier::external_body]
pub(crate) fn random_index(count: usize) -> (r: usize)
    requires
        count > 0,
    ensures
        r < count,
{
    fastrand::usize(..count)
}

/// Tosses a coin.
///
/// Calls `fastrand::bool`.  Either result can come back, so nothing is claimed
/// of it.
#[verifier::external_body]
pub(crate) fn random_bool() -> (r: bool) {
    fastrand::bool()
}

} // verus!
