use vstd::prelude::*;
use crate::data::{dataset_model, Sample};
use crate::fixed::FX_ONE;

verus! {

#[verifier::external_type_specification]
#[verifier::external_body]
pub struct ExStdRng(rand::rngs::StdRng);

/// Relies on rand::Rng::gen_range with the range -FX_ONE..FX_ONE: the result
/// is a uniform draw that lies inside the given half-open range.
#[verifier::external_body]
pub(crate) fn gen_unit(rng: &mut rand::rngs::StdRng) -> (r: i64)
    ensures
        -FX_ONE <= r < FX_ONE,
{
    rand::Rng::gen_range(rng, -FX_ONE..FX_ONE)
}

/// Relies on rand::seq::SliceRandom::shuffle: a Fisher-Yates pass that
/// permutes the slice in place by swaps, so the elements form the same
/// multiset before and after.
#[verifier::external_body]
pub(crate) fn shuffle_samples(rng: &mut rand::rngs::StdRng, v: &mut Vec<Sample>)
    ensures
        final(v)@.len() == old(v)@.len(),
        dataset_model(final(v)@).to_multiset() == dataset_model(old(v)@).to_multiset(),
{
    rand::seq::SliceRandom::shuffle(v.as_mut_slice(), rng)
}

}
