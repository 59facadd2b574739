//! The randomness the strategies draw on, behind trusted wrappers.

use vstd::prelude::*;

use rand::Rng;
use rand::seq::SliceRandom;

use crate::pos::Pos;

verus! {

/// Relies on `rand::random::<bool>`: a fair coin flip. Nothing can be
/// promised of the value.
#[verifier::external_body]
pub(crate) fn random_bool() -> bool {
    rand::random()
}

/// Relies on `rand::Rng::gen_range` on `lo..hi`: it panics on an empty
/// range (ruled out here) and returns a uniformly drawn value of the range.
#[verifier::external_body]
pub(crate) fn random_range(lo: usize, hi: usize) -> (r: usize)
    requires
        lo < hi,
    ensures
        lo <= r < hi,
{
    rand::thread_rng().gen_range(lo..hi)
}

/// Relies on `rand::seq::SliceRandom::choose`: `None` iff the slice is
/// empty, else a uniformly drawn element of it.
#[verifier::external_body]
pub(crate) fn choose_pos(positions: &Vec<Pos>) -> (r: Option<Pos>)
    ensures
        r is Some <==> positions@.len() > 0,
        r is Some ==> exists|i: int| 0 <= i < positions@.len() && r->Some_0 == positions@[i],
{
    positions.choose(&mut rand::thread_rng()).copied()
}

} // verus!
