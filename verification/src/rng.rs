//! The trusted boundary to the `rand` crate.
//!
//! Scattering and sampling draw uniform values from an explicitly
//! owned generator, passed through the call graph rather than taken
//! from ambient global state.  Nothing is assumed of a draw beyond its
//! range, so every caller is verified for every outcome.

use rand::Rng;
use vstd::prelude::*;

verus! {

#[verifier::external_type_specification]
#[verifier::external_body]
pub struct ExStdRng(rand::rngs::StdRng);

/// Relies on `rand::Rng::gen_range`: a draw from the half-open range
/// `[0, SCALE)`, here the unit interval of the representation.  Only
/// the range is promised; the value may differ on every call.
#[verifier::external_body]
pub(crate) fn rand_unit(rng: &mut rand::rngs::StdRng) -> (r: i64)
    ensures
        0 <= r < crate::fixed::SCALE,
{
    rng.gen_range(0..crate::fixed::SCALE)
}

} // verus!
