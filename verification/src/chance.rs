use vstd::prelude::*;

verus! {

/// Calls nannou's `random_range`, which swaps its bounds where the first is
/// the greater and then samples the thread-local generator over the half-open
/// range; on an empty range the sampling panics, so the bounds must differ.
/// Trusted: the sample is at least the lesser bound and less than the greater.
/// Nothing else is claimed, and two calls may differ.
#[verifier::external_body]
pub(crate) fn random_range(min: i64, max: i64) -> (sample: i64)
    requires
        min != max,
    ensures
        min < max ==> min <= sample < max,
        max < min ==> max <= sample < min,
{
    nannou::rand::random_range(min, max)
}

} // verus!
