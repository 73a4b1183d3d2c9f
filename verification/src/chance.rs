//! The choice of a panel by chance.

use vstd::prelude::*;

verus! {

/// `fastrand::usize` on the range below `len`, which must not be empty: some index below `len`.
/// Which one is left to chance.
#[verifier::external_body]
pub(crate) fn random_index(len: usize) -> (pick: usize)
    requires
        len > 0,
    ensures
        pick < len,
{
    fastrand::usize(..len)
}

} // verus!
