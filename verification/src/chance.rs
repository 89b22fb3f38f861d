//! What chance decides: random draws and fresh identifiers.
//!
//! Nothing here can be predicted, so the contracts state only what holds of
//! every outcome.

use rand::rngs::SmallRng;
use rand::Rng;
use uuid::Uuid;
use vstd::prelude::*;

verus! {

/// `rand::rngs::SmallRng`, a generator of random numbers. Nothing of its
/// state is known here.
#[verifier::external_type_specification]
#[verifier::external_body]
pub struct ExSmallRng(SmallRng);

/// `Rng::gen_range` on the range `0..bound`: some number below `bound`.
/// The crate refuses an empty range, so `bound` is positive.
#[verifier::external_body]
pub(crate) fn draw_below(rng: &mut SmallRng, bound: usize) -> (drawn: usize)
    requires
        bound > 0,
    ensures
        drawn < bound,
{
    rng.gen_range(0..bound)
}

/// `Uuid::new_v4`, written out as text: an identifier that is new with
/// overwhelming probability.
#[verifier::external_body]
pub(crate) fn fresh_id() -> String {
    Uuid::new_v4().to_string()
}

} // verus!
