//! The outcome of one shot.

use vstd::prelude::*;

use crate::boat::Boat;

verus! {

/// What a fired shot found: a `Hit` remembers which boat it struck.
#[derive(Clone, Copy, Debug, PartialEq, Eq, Structural)]
pub enum Shot {
    Hit(Boat),
    Miss,
}

} // verus!
