//! Random choice.

use rand::rngs::StdRng;
use rand::seq::SliceRandom;
use vstd::prelude::*;

verus! {

/// The generator of the `rand` crate. Its state is not looked into.
#[verifier::external_type_specification]
#[verifier::external_body]
pub struct ExStdRng(StdRng);

/// `SliceRandom::choose`: one element of the slice, or nothing where the slice
/// is empty. Which element it is depends on chance.
#[verifier::external_body]
pub(crate) fn choose_one<'a, T>(rng: &mut StdRng, items: &'a [T]) -> (r: Option<&'a T>)
    ensures
        r is None <==> items@.len() == 0,
        r is Some ==> items@.contains(*r->0),
{
    items.choose(rng)
}

/// `SliceRandom::shuffle`: puts the same elements in an order that depends on
/// chance.
#[verifier::external_body]
pub(crate) fn shuffle<T>(rng: &mut StdRng, items: &mut Vec<T>)
    ensures
        final(items)@.to_multiset() == old(items)@.to_multiset(),
{
    items.shuffle(rng)
}

} // verus!
