//! Tokens that tell documents apart.

use vstd::prelude::*;

use std::hash::{BuildHasher, RandomState};

verus! {

/// Calls `std::hash::RandomState::new`.
///
/// Nothing is promised of the state: its keys are random.
#[verifier::external_body]
fn random_state() -> (r: RandomState) {
    RandomState::new()
}

/// Calls `std::hash::BuildHasher::hash_one` on a fixed value.
///
/// Nothing is promised of the number: it depends on the random keys of `state`.
#[verifier::external_body]
fn random_hash(state: &RandomState) -> (r: u64) {
    state.hash_one(0u64)
}

/// A token for a new document.
///
/// The token is random, so that two documents have different tokens with overwhelming probability;
/// no proof rests on that.
pub(crate) fn fresh_token() -> (r: u64) {
    let state = random_state();
    random_hash(&state)
}

/// A token for a document that is to be told apart from those with the tokens `a` and `b`.
pub(crate) fn other_token(a: u64, b: u64) -> (r: u64)
    ensures
        r != a,
        r != b,
{
    let r: u64 = fresh_token();
    if r != a && r != b {
        r
    } else if a != 0 && b != 0 {
        0
    } else if a != 1 && b != 1 {
        1
    } else {
        2
    }
}

} // verus!
