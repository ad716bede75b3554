//! The only nondeterminism in the server: drawing session secrets and
//! picking spawn points.  Nothing is assumed of a drawn value beyond its
//! range; every decision taken on one is made by verified code.

use vstd::prelude::*;

verus! {

/// Relies on rand::random::<u128>; nothing is promised of the value drawn.
#[verifier::external_body]
pub(crate) fn random_u128() -> u128 {
    rand::random()
}

/// Relies on rand::random_range over `0..n`, which panics only on an empty
/// range and otherwise returns a value of the range.
#[verifier::external_body]
pub(crate) fn random_index(n: usize) -> (r: usize)
    requires
        n > 0,
    ensures
        r < n,
{
    rand::random_range(0..n)
}

} // verus!
