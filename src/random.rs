//! The random choice of the next shape.
use rand::Rng;
use vstd::prelude::*;

use crate::piece::SHAPE_COUNT;

verus! {

/// Relies on `rand::thread_rng` and `Rng::gen_range(0..SHAPE_COUNT)`: a
/// value drawn from that half-open range, which is not empty.
#[verifier::external_body]
pub(crate) fn random_shape() -> (r: usize)
    ensures
        r < SHAPE_COUNT,
{
    rand::thread_rng().gen_range(0..SHAPE_COUNT)
}

} // verus!
