use vstd::prelude::*;

verus! {

/// Relies on `rand::random_range`: returns a value drawn from the given
/// range, and panics only when the range is empty (here: `0..n`, so the
/// precondition keeps the range non-empty).
#[verifier::external_body]
pub(crate) fn random_below(n: usize) -> (r: usize)
    requires
        n > 0,
    ensures
        r < n,
{
    rand::random_range(0..n)
}

} // verus!
