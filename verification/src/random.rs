//! The random draws of the generator, taken from the thread's generator of
//! the `rand` crate. Nothing here is proved: each contract states what the
//! crate documents of the call.
//!
//! The thread's generator seeds itself from the operating system when a
//! thread first draws, and again each time it has given out a set number of
//! bytes. It panics if the first seeding fails, and it panics if a later
//! reseeding fails. No argument decides either, so no contract can rule
//! them out.

use rand::seq::IndexedRandom;
use vstd::prelude::*;
use crate::basics::OrdinalDirections;

verus! {

/// One word of random bits: `rand::random::<u32>()`.
///
/// Any word may come back, so nothing is claimed of it.
#[verifier::external_body]
pub(crate) fn random_word() -> u32 {
    rand::random::<u32>()
}

/// An index below `bound`: `rand::random_range(0..bound)`.
///
/// The call panics on an empty range, which `requires` leaves out. Claimed:
/// the index lies in the range.
#[verifier::external_body]
pub(crate) fn random_below(bound: usize) -> (index: usize)
    requires
        bound > 0,
    ensures
        index < bound,
{
    rand::random_range(0..bound)
}

/// One of the given directions: `IndexedRandom::choose` on the list, with
/// `rand::rng()` as the source.
///
/// Claimed: nothing is chosen from an empty list, and what is chosen from
/// another is one of its elements.
#[verifier::external_body]
pub(crate) fn choose_direction(directions: &Vec<OrdinalDirections>) -> (chosen: Option<
    OrdinalDirections,
>)
    ensures
        directions@.len() == 0 ==> chosen is None,
        directions@.len() > 0 ==> chosen is Some && directions@.contains(chosen->0),
{
    directions.choose(&mut rand::rng()).copied()
}

} // verus!
