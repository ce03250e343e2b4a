//! The random source that generation draws from.
use rand::rngs::StdRng;
use rand::seq::SliceRandom;
use vstd::prelude::*;

verus! {

/// A seedable pseudo-random generator, threaded through every generation call.
#[verifier::external_type_specification]
#[verifier::external_body]
pub struct ExStdRng(StdRng);

/// Relies on rand's `SliceRandom::choose` for slices: `None` exactly when the
/// slice is empty, otherwise a reference to one of its elements.
#[verifier::external_body]
pub(crate) fn choose_one<'a, T>(rng: &mut StdRng, items: &'a [T]) -> (r: Option<&'a T>)
    ensures
        r is Some <==> items@.len() > 0,
        r is Some ==> items@.contains(*r.unwrap()),
{
    items.choose(rng)
}

} // verus!
