//! Uniform draws of nonces.

use vstd::prelude::*;

verus! {

/// Relies on rand's `Range::new(0, bound).ind_sample(&mut thread_rng())`: a
/// draw from `[0, bound)`. `Range::new` panics on an empty range, which
/// `requires` rules out.
#[verifier::external_body]
pub(crate) fn random_below(bound: u64) -> (r: u64)
    requires
        bound > 0,
    ensures
        r < bound,
{
    rand::distributions::IndependentSample::ind_sample(
        &rand::distributions::Range::new(0, bound),
        &mut rand::thread_rng(),
    )
}

/// The number of nonces drawn from at difficulty `d`: `2^d`, capped at the
/// largest `u64`.
pub open spec fn nonce_space(d: u64) -> u64 {
    if d >= 64 {
        u64::MAX
    } else {
        1u64 << d
    }
}

/// `nonce_space(d)`, which is never zero.
pub fn nonce_space_of(d: u64) -> (r: u64)
    ensures
        r == nonce_space(d),
        r > 0,
{
    if d >= 64 {
        u64::MAX
    } else {
        assert((1u64 << d) >= 1) by (bit_vector)
            requires
                d < 64,
        ;
        1u64 << d
    }
}

} // verus!
