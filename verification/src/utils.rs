//! Reading the hits off a shot board.

use vstd::prelude::*;

use crate::board::ShotMap;
use crate::boat::Boat;
use crate::pos::{cell_index, NUM_CELLS};
use crate::shot::Shot;

verus! {

/// The hits recorded among the first n cells, in scan order, each with the
/// boat it struck and its coordinates.
pub open spec fn hits_up_to(s: Seq<Option<Shot>>, n: int) -> Seq<(Boat, usize, usize)>
    decreases n,
{
    if n <= 0 {
        Seq::empty()
    } else {
        let rest = hits_up_to(s, n - 1);
        match s[n - 1] {
            Some(Shot::Hit(b)) => rest.push((b, ((n - 1) / 10) as usize, ((n - 1) % 10) as usize)),
            _ => rest,
        }
    }
}

/// Every hit on the board, in scan order (x outermost, y innermost, both
/// ascending), each with the boat it struck and its coordinates.
pub fn get_hits(shots: &ShotMap) -> (r: Vec<(Boat, usize, usize)>)
    requires
        shots.wf(),
    ensures
        r@ == hits_up_to(shots@, 100),
{
    let mut r: Vec<(Boat, usize, usize)> = Vec::new();
    for n in 0..NUM_CELLS
        invariant
            shots.wf(),
            r@ == hits_up_to(shots@, n as int),
    {
        let x = n / 10;
        let y = n % 10;
        proof {
            assert(cell_index(x as int, y as int) == n);
        }
        let cell = shots.get(x, y);
        match cell {
            Some(Shot::Hit(b)) => {
                r.push((b, x, y));
            },
            _ => {},
        }
    }
    r
}

} // verus!
