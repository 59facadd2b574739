//! The boat kinds of the fleet and their lengths.

use vstd::prelude::*;

verus! {

/// What a single cell of a boat board holds: either nothing, or one of the
/// five boats of a standard Battleship fleet.
#[derive(Clone, Copy, Debug, PartialEq, Eq, Structural)]
pub enum Boat {
    Empty,
    Destroyer,
    Submarine,
    Cruiser,
    Battleship,
    Carrier,
}

/// The canonical order in which the fleet is enumerated everywhere:
/// Destroyer, Submarine, Cruiser, Battleship, Carrier. This order decides
/// which wounded boat the destroy mode finishes first.
pub open spec fn fleet() -> Seq<Boat> {
    seq![
        Boat::Destroyer,
        Boat::Submarine,
        Boat::Cruiser,
        Boat::Battleship,
        Boat::Carrier,
    ]
}

/// Length of each boat kind; unspecified for `Empty`.
pub open spec fn spec_length(boat: Boat) -> nat {
    match boat {
        Boat::Empty => arbitrary(),
        Boat::Destroyer => 2,
        Boat::Submarine => 3,
        Boat::Cruiser => 3,
        Boat::Battleship => 4,
        Boat::Carrier => 5,
    }
}

/// How many cells the whole fleet covers: 2 + 3 + 3 + 4 + 5.
pub open spec fn fleet_cells() -> nat {
    17
}

impl Boat {
    /// True iff the cell holds no boat.
    pub fn is_empty(&self) -> (r: bool)
        ensures
            r == (*self == Boat::Empty),
    {
        *self == Boat::Empty
    }

    /// True iff the cell holds a boat.
    pub fn has_some(&self) -> (r: bool)
        ensures
            r == (*self != Boat::Empty),
    {
        !self.is_empty()
    }

    /// Number of cells a boat of this kind covers.
    pub fn length(&self) -> (r: usize)
        requires
            *self != Boat::Empty,
        ensures
            r == spec_length(*self),
    {
        match self {
            Boat::Empty => 0,
            Boat::Destroyer => 2,
            Boat::Submarine => 3,
            Boat::Cruiser => 3,
            Boat::Battleship => 4,
            Boat::Carrier => 5,
        }
    }
}

/// Length of a boat kind, as a free function.
pub fn length(boat: Boat) -> (r: usize)
    requires
        boat != Boat::Empty,
    ensures
        r == spec_length(boat),
{
    boat.length()
}

/// The boat at the given rank of the canonical fleet order.
pub fn fleet_boat(rank: usize) -> (b: Boat)
    requires
        rank < 5,
    ensures
        b == fleet()[rank as int],
        b != Boat::Empty,
{
    match rank {
        0 => Boat::Destroyer,
        1 => Boat::Submarine,
        2 => Boat::Cruiser,
        3 => Boat::Battleship,
        _ => Boat::Carrier,
    }
}

} // verus!
