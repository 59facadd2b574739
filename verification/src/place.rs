//! Placing the fleet: the four layout strategies and the primitives they
//! share with the targeting core.
//!
//! Each strategy draws candidate origins at random and keeps the first that
//! does not overlap an already placed boat. The drawing is retried a bounded
//! number of times; if the board ever leaves no room (which a 10x10 grid
//! never does for the standard fleet), the strategy falls back to a fixed
//! valid layout rather than searching forever. The fallback keeps the
//! contract below (a valid, well-placed fleet) but not the strategy's own
//! shape - the shapes are checked dynamically by the tests and are outside
//! the contracts.

use vstd::prelude::*;

use crate::board::{
    boat_one, count_boat, count_boat_up_to, covered_index, covers_prefix, covers,
    lemma_count_boat_empty, lemma_count_boat_update, lemma_count_boat_zero, valid_boats, BoatMap,
};
use crate::boat::{Boat, fleet, fleet_boat, spec_length};
use crate::pos::{cell_index, in_grid, Pos, NUM_COLS, NUM_ROWS};
use crate::rng::{random_bool, random_range};

verus! {

/// The fleet-layout strategies a player can be given.
#[derive(Clone, Copy, Debug, PartialEq, Eq, Structural)]
pub enum PlaceStrategy {
    Random,
    Sides,
    Spread,
    Cluster,
}

/// True iff the placement stays fully on the board.
pub open spec fn placement_in_bounds(b: Boat, horiz: bool, p: Pos) -> bool {
    if horiz {
        p.x + spec_length(b) <= 10 && p.y < 10
    } else {
        p.x < 10 && p.y + spec_length(b) <= 10
    }
}

/// True iff some cell the placement would cover already holds a boat.
pub open spec fn spec_overlaps(b: Seq<Boat>, boat: Boat, horiz: bool, px: int, py: int) -> bool {
    exists|off: int|
        0 <= off < spec_length(boat) && #[trigger] b[covered_index(horiz, px, py, off)]
            != Boat::Empty
}

/// The cells holding `boat` are exactly one straight, contiguous, in-bounds
/// run of the boat's length.
pub open spec fn placed_as_run(b: Seq<Boat>, boat: Boat) -> bool {
    exists|horiz: bool, p: Pos|
        #[trigger] placement_in_bounds(boat, horiz, p) && (forall|x: int, y: int|
            in_grid(x, y) ==> ((b[cell_index(x, y)] == boat) <==> covers(
                boat,
                horiz,
                p.x as int,
                p.y as int,
                x,
                y,
            )))
}

/// Every boat of the fleet stands on the board as one straight contiguous
/// run of its length. Runs cannot overlap, since a cell holds at most one
/// boat, and every cell outside the five runs is empty.
pub open spec fn well_placed(b: Seq<Boat>) -> bool {
    forall|k: int| 0 <= k < 5 ==> placed_as_run(b, #[trigger] fleet()[k])
}

/// True iff placing `boat` at `pos` in the given orientation would cover an
/// already occupied cell.
pub fn overlaps(boats: &BoatMap, boat: Boat, horizontal: bool, pos: Pos) -> (r: bool)
    requires
        boats.wf(),
        boat != Boat::Empty,
        placement_in_bounds(boat, horizontal, pos),
    ensures
        r == spec_overlaps(boats@, boat, horizontal, pos.x as int, pos.y as int),
{
    let len = boat.length();
    let mut found = false;

    for off in 0..len
        invariant
            boats.wf(),
            boat != Boat::Empty,
            len == spec_length(boat),
            placement_in_bounds(boat, horizontal, pos),
            found <==> exists|o: int|
                0 <= o < off && #[trigger] boats@[covered_index(
                    horizontal,
                    pos.x as int,
                    pos.y as int,
                    o,
                )] != Boat::Empty,
    {
        let occupied = if horizontal {
            boats.is_hit(pos.x + off, pos.y)
        } else {
            boats.is_hit(pos.x, pos.y + off)
        };
        if occupied {
            found = true;
            proof {
                let o = off as int;
                assert(0 <= o < off + 1 && boats@[covered_index(
                    horizontal,
                    pos.x as int,
                    pos.y as int,
                    o,
                )] != Boat::Empty);
            }
        }
    }
    found
}

/// True iff the placement covers no occupied cell: the overlap check shared
/// by every layout strategy.
pub fn valid_boat_pos(boats: &BoatMap, boat: Boat, horizontal: bool, pos: Pos) -> (r: bool)
    requires
        boats.wf(),
        boat != Boat::Empty,
        placement_in_bounds(boat, horizontal, pos),
    ensures
        r == !spec_overlaps(boats@, boat, horizontal, pos.x as int, pos.y as int),
{
    !overlaps(boats, boat, horizontal, pos)
}

/// Writes `boat` onto every cell its placement covers. The cells must be
/// empty; every other cell keeps its boat, and only the placed boat's cell
/// count changes, growing by the boat's length.
pub fn place_boat(boats: &mut BoatMap, boat: Boat, horizontal: bool, pos: Pos)
    requires
        old(boats).wf(),
        boat != Boat::Empty,
        placement_in_bounds(boat, horizontal, pos),
        !spec_overlaps(old(boats)@, boat, horizontal, pos.x as int, pos.y as int),
    ensures
        final(boats).wf(),
        forall|x: int, y: int|
            in_grid(x, y) ==> final(boats).at(x, y) == (if covers(
                boat,
                horizontal,
                pos.x as int,
                pos.y as int,
                x,
                y,
            ) {
                boat
            } else {
                old(boats).at(x, y)
            }),
        count_boat(final(boats)@, boat) == count_boat(old(boats)@, boat) + spec_length(boat),
        forall|b2: Boat|
            b2 != boat && b2 != Boat::Empty ==> #[trigger] count_boat(final(boats)@, b2)
                == count_boat(old(boats)@, b2),
        (forall|i: int| 0 <= i < 100 ==> old(boats)@[i] != boat) ==> placed_as_run(
            final(boats)@,
            boat,
        ),
        forall|b2: Boat|
            b2 != boat && b2 != Boat::Empty && placed_as_run(old(boats)@, b2)
                ==> #[trigger] placed_as_run(final(boats)@, b2),
{
    let len = boat.length();

    for off in 0..len
        invariant
            boats.wf(),
            old(boats).wf(),
            boat != Boat::Empty,
            len == spec_length(boat),
            placement_in_bounds(boat, horizontal, pos),
            !spec_overlaps(old(boats)@, boat, horizontal, pos.x as int, pos.y as int),
            forall|x: int, y: int|
                in_grid(x, y) ==> #[trigger] boats.at(x, y) == (if covers_prefix(
                    horizontal,
                    pos.x as int,
                    pos.y as int,
                    off as int,
                    x,
                    y,
                ) {
                    boat
                } else {
                    old(boats).at(x, y)
                }),
            count_boat(boats@, boat) == count_boat(old(boats)@, boat) + off,
            forall|b2: Boat|
                b2 != boat && b2 != Boat::Empty ==> #[trigger] count_boat(boats@, b2) == count_boat(
                    old(boats)@,
                    b2,
                ),
    {
        let (cx, cy) = if horizontal {
            (pos.x + off, pos.y)
        } else {
            (pos.x, pos.y + off)
        };
        proof {
            assert(cell_index(cx as int, cy as int) == covered_index(
                horizontal,
                pos.x as int,
                pos.y as int,
                off as int,
            ));
            assert(old(boats)@[covered_index(horizontal, pos.x as int, pos.y as int, off as int)]
                == Boat::Empty);
            assert(boats.at(cx as int, cy as int) == Boat::Empty);
        }
        let ghost prem = *boats;
        let ghost pre = boats@;
        boats.set(cx, cy, boat);
        proof {
            let ci = cell_index(cx as int, cy as int);
            lemma_count_boat_update(pre, boat, ci, boat, 100);
            assert(count_boat(boats@, boat) == count_boat(pre, boat) + 1) by {
                assert(boat_one(pre[ci], boat) == 0);
                assert(boat_one(boat, boat) == 1);
            }
            assert forall|b2: Boat| b2 != boat && b2 != Boat::Empty implies #[trigger] count_boat(
                boats@,
                b2,
            ) == count_boat(old(boats)@, b2) by {
                lemma_count_boat_update(pre, b2, ci, boat, 100);
                assert(boat_one(pre[ci], b2) == 0);
                assert(boat_one(boat, b2) == 0);
                assert(count_boat_up_to(boats@, b2, 100) == count_boat_up_to(pre, b2, 100));
                assert(count_boat(pre, b2) == count_boat(old(boats)@, b2));
            }
            assert forall|x: int, y: int| in_grid(x, y) implies #[trigger] boats.at(x, y) == (
            if covers_prefix(horizontal, pos.x as int, pos.y as int, off + 1, x, y) {
                boat
            } else {
                old(boats).at(x, y)
            }) by {
                assert(prem.at(x, y) == (if covers_prefix(
                    horizontal,
                    pos.x as int,
                    pos.y as int,
                    off as int,
                    x,
                    y,
                ) {
                    boat
                } else {
                    old(boats).at(x, y)
                }));
                if x == cx && y == cy {
                    assert(boats@[ci] == boat);
                    assert(covers_prefix(horizontal, pos.x as int, pos.y as int, off + 1, x, y));
                } else {
                    assert(cell_index(x, y) != ci);
                    assert(boats@[cell_index(x, y)] == pre[cell_index(x, y)]);
                    assert(covers_prefix(horizontal, pos.x as int, pos.y as int, off + 1, x, y)
                        == covers_prefix(
                        horizontal,
                        pos.x as int,
                        pos.y as int,
                        off as int,
                        x,
                        y,
                    ));
                }
            }
        }
    }

    proof {
        let px = pos.x as int;
        let py = pos.y as int;

        assert forall|x: int, y: int|
            in_grid(x, y) && covers(boat, horizontal, px, py, x, y) implies old(boats)@[cell_index(
            x,
            y,
        )] == Boat::Empty by {
            if horizontal {
                let off = x - px;
                assert(cell_index(x, y) == covered_index(true, px, py, off));
            } else {
                let off = y - py;
                assert(cell_index(x, y) == covered_index(false, px, py, off));
            }
        }

        if forall|i: int| 0 <= i < 100 ==> old(boats)@[i] != boat {
            assert forall|x: int, y: int| in_grid(x, y) implies ((boats@[cell_index(x, y)] == boat)
                <==> covers(boat, horizontal, px, py, x, y)) by {
                assert(0 <= cell_index(x, y) < 100);
                assert(old(boats)@[cell_index(x, y)] != boat);
                assert(boats.at(x, y) == (if covers(boat, horizontal, px, py, x, y) {
                    boat
                } else {
                    old(boats).at(x, y)
                }));
            }
            assert(placement_in_bounds(boat, horizontal, pos));
            assert(placed_as_run(boats@, boat));
        }

        assert forall|b2: Boat|
            b2 != boat && b2 != Boat::Empty && placed_as_run(old(boats)@, b2)
                implies #[trigger] placed_as_run(boats@, b2) by {
            let (h2, p2) = choose|h2: bool, p2: Pos|
                #[trigger] placement_in_bounds(b2, h2, p2) && (forall|x: int, y: int|
                    in_grid(x, y) ==> ((old(boats)@[cell_index(x, y)] == b2) <==> covers(
                        b2,
                        h2,
                        p2.x as int,
                        p2.y as int,
                        x,
                        y,
                    )));
            assert forall|x: int, y: int| in_grid(x, y) implies ((boats@[cell_index(x, y)] == b2)
                <==> covers(b2, h2, p2.x as int, p2.y as int, x, y)) by {
                assert(boats.at(x, y) == (if covers(boat, horizontal, px, py, x, y) {
                    boat
                } else {
                    old(boats).at(x, y)
                }));
                if covers(boat, horizontal, px, py, x, y) {
                    assert(old(boats)@[cell_index(x, y)] == Boat::Empty);
                }
            }
            assert(placed_as_run(boats@, b2));
        }
    }
}

/// A random orientation, and a random origin that keeps the boat on the
/// board.
fn random_boat_pos(boat: Boat) -> (r: (bool, Pos))
    requires
        boat != Boat::Empty,
    ensures
        placement_in_bounds(boat, r.0, r.1),
{
    let horizontal = random_bool();
    let len = boat.length();

    if horizontal {
        (horizontal, Pos::new(random_range(0, NUM_COLS - len), random_range(0, NUM_ROWS)))
    } else {
        (horizontal, Pos::new(random_range(0, NUM_COLS), random_range(0, NUM_ROWS - len)))
    }
}

/// A random origin on one of the four sides of the board, at most one cell
/// in from the edge.
fn side_boat_pos(boat: Boat) -> (r: (bool, Pos))
    requires
        boat != Boat::Empty,
    ensures
        placement_in_bounds(boat, r.0, r.1),
{
    let horizontal = random_bool();
    let len = boat.length();

    if horizontal {
        let x = random_range(0, NUM_COLS - len);
        let y = if random_bool() {
            random_range(0, 2)
        } else {
            random_range(NUM_ROWS - 2, NUM_ROWS)
        };
        (horizontal, Pos::new(x, y))
    } else {
        let x = if random_bool() {
            random_range(0, 2)
        } else {
            random_range(NUM_COLS - 2, NUM_COLS)
        };
        let y = random_range(0, NUM_ROWS - len);
        (horizontal, Pos::new(x, y))
    }
}

/// A random origin in the boat's own quarter of the board: Destroyer top
/// left, Submarine top right, Cruiser bottom left, Battleship bottom right,
/// and the Carrier anywhere.
fn spread_boat_pos(boat: Boat) -> (r: (bool, Pos))
    requires
        boat != Boat::Empty,
    ensures
        placement_in_bounds(boat, r.0, r.1),
{
    if matches!(boat, Boat::Carrier) {
        return random_boat_pos(boat);
    }

    let horizontal = random_bool();
    let len = boat.length();

    let (x_min, x_max_base) = match boat {
        Boat::Destroyer => (0, NUM_COLS / 2),
        Boat::Submarine => (NUM_COLS / 2 + 1, NUM_COLS),
        Boat::Cruiser => (0, NUM_COLS / 2),
        _ => (NUM_COLS / 2, NUM_COLS),
    };
    let x_max = if horizontal {
        x_max_base - len
    } else {
        x_max_base
    };

    let (y_min, y_max_base) = match boat {
        Boat::Destroyer => (0, NUM_ROWS / 2),
        Boat::Submarine => (0, NUM_ROWS / 2),
        Boat::Cruiser => (NUM_ROWS / 2 + 1, NUM_ROWS),
        _ => (NUM_ROWS / 2, NUM_ROWS),
    };
    let y_max = if horizontal {
        y_max_base
    } else {
        y_max_base - len
    };

    (horizontal, Pos::new(random_range(x_min, x_max), random_range(y_min, y_max)))
}

/// A random origin in the central quarter of the board.
fn cluster_boat_pos(boat: Boat) -> (r: (bool, Pos))
    requires
        boat != Boat::Empty,
    ensures
        placement_in_bounds(boat, r.0, r.1),
{
    let horizontal = random_bool();
    let len = boat.length();

    if horizontal {
        (
            horizontal,
            Pos::new(
                random_range(NUM_COLS / 4, NUM_COLS * 3 / 4 + 1 - len),
                random_range(NUM_ROWS / 4, NUM_ROWS * 3 / 4 + 1),
            ),
        )
    } else {
        (
            horizontal,
            Pos::new(
                random_range(NUM_COLS / 4, NUM_COLS * 3 / 4 + 1),
                random_range(NUM_ROWS / 4, NUM_ROWS * 3 / 4 + 1 - len),
            ),
        )
    }
}

/// One candidate placement of the given strategy.
fn sample_boat_pos(strategy: PlaceStrategy, boat: Boat) -> (r: (bool, Pos))
    requires
        boat != Boat::Empty,
    ensures
        placement_in_bounds(boat, r.0, r.1),
{
    match strategy {
        PlaceStrategy::Random => random_boat_pos(boat),
        PlaceStrategy::Sides => side_boat_pos(boat),
        PlaceStrategy::Spread => spread_boat_pos(boat),
        PlaceStrategy::Cluster => cluster_boat_pos(boat),
    }
}

/// The fixed fallback layout: each boat horizontal in its own row. It is
/// used only when bounded random retrying finds no room, which cannot occur
/// for the standard fleet on an empty board.
fn default_layout() -> (r: BoatMap)
    ensures
        r.wf(),
        valid_boats(r@),
        well_placed(r@),
{
    let mut boats = BoatMap::empty();
    proof {
        assert forall|k: int| 0 <= k < 5 implies count_boat(boats@, #[trigger] fleet()[k])
            == 0 by {
            lemma_count_boat_empty(boats@, fleet()[k], 100);
        }
    }

    for rank in 0..5usize
        invariant
            boats.wf(),
            forall|k: int|
                0 <= k < rank ==> count_boat(boats@, #[trigger] fleet()[k]) == spec_length(
                    fleet()[k],
                ),
            forall|k: int| rank <= k < 5 ==> count_boat(boats@, #[trigger] fleet()[k]) == 0,
            forall|k: int| 0 <= k < rank ==> placed_as_run(boats@, #[trigger] fleet()[k]),
            forall|x: int, y: int|
                in_grid(x, y) && #[trigger] boats.at(x, y) != Boat::Empty ==> y < rank,
    {
        let boat = fleet_boat(rank);
        let pos = Pos::new(0, rank);
        proof {
            assert forall|off: int| 0 <= off < spec_length(boat) implies boats@[covered_index(
                true,
                0,
                rank as int,
                off,
            )] == Boat::Empty by {
                assert(covered_index(true, 0, rank as int, off) == cell_index(off, rank as int));
                assert(boats.at(off, rank as int) == boats@[cell_index(off, rank as int)]);
            }
            assert(!spec_overlaps(boats@, boat, true, 0, rank as int));
            assert(fleet()[rank as int] != Boat::Empty);
            lemma_count_boat_zero(boats@, boat, 100);
        }
        place_boat(&mut boats, boat, true, pos);
        proof {
            assert forall|k: int| 0 <= k < 5 implies fleet()[k] != Boat::Empty && (k
                != rank ==> fleet()[k] != fleet()[rank as int]) by {}
            assert forall|k: int| 0 <= k < rank + 1 implies placed_as_run(
                boats@,
                #[trigger] fleet()[k],
            ) by {}
        }
    }
    boats
}

/// Places one boat by the strategy's rule, retrying a bounded number of
/// times until the drawn placement is free; reports failure instead of
/// searching forever.
fn find_boat_pos(boats: &BoatMap, strategy: PlaceStrategy, boat: Boat) -> (r: Option<(bool, Pos)>)
    requires
        boats.wf(),
        boat != Boat::Empty,
    ensures
        r matches Some(hp) ==> placement_in_bounds(boat, hp.0, hp.1) && !spec_overlaps(
            boats@,
            boat,
            hp.0,
            hp.1.x as int,
            hp.1.y as int,
        ),
{
    let mut attempts: usize = 0;
    while attempts < 1000
        invariant
            boats.wf(),
            boat != Boat::Empty,
        decreases 1000 - attempts,
    {
        let (horizontal, pos) = sample_boat_pos(strategy, boat);
        if valid_boat_pos(boats, boat, horizontal, pos) {
            return Some((horizontal, pos));
        }
        attempts = attempts + 1;
    }
    None
}

/// Lays out the whole fleet by the given strategy; the result is always a
/// valid board.
pub fn place_fleet(strategy: PlaceStrategy) -> (r: BoatMap)
    ensures
        r.wf(),
        valid_boats(r@),
        well_placed(r@),
{
    let mut boats = BoatMap::empty();
    proof {
        assert forall|k: int| 0 <= k < 5 implies count_boat(boats@, #[trigger] fleet()[k])
            == 0 by {
            lemma_count_boat_empty(boats@, fleet()[k], 100);
        }
    }

    for rank in 0..5usize
        invariant
            boats.wf(),
            forall|k: int|
                0 <= k < rank ==> count_boat(boats@, #[trigger] fleet()[k]) == spec_length(
                    fleet()[k],
                ),
            forall|k: int| rank <= k < 5 ==> count_boat(boats@, #[trigger] fleet()[k]) == 0,
            forall|k: int| 0 <= k < rank ==> placed_as_run(boats@, #[trigger] fleet()[k]),
    {
        let boat = fleet_boat(rank);
        match find_boat_pos(&boats, strategy, boat) {
            Some((horizontal, pos)) => {
                proof {
                    lemma_count_boat_zero(boats@, boat, 100);
                }
                place_boat(&mut boats, boat, horizontal, pos);
                proof {
                    assert forall|k: int| 0 <= k < 5 implies fleet()[k] != Boat::Empty && (k
                        != rank ==> fleet()[k] != fleet()[rank as int]) by {}
                    assert forall|k: int| 0 <= k < rank + 1 implies placed_as_run(
                        boats@,
                        #[trigger] fleet()[k],
                    ) by {}
                }
            },
            None => {
                return default_layout();
            },
        }
    }
    boats
}

/// Place the fleet completely at random.
pub fn random() -> (r: BoatMap)
    ensures
        r.wf(),
        valid_boats(r@),
        well_placed(r@),
{
    place_fleet(PlaceStrategy::Random)
}

/// Place the fleet along the sides of the board.
pub fn sides() -> (r: BoatMap)
    ensures
        r.wf(),
        valid_boats(r@),
        well_placed(r@),
{
    place_fleet(PlaceStrategy::Sides)
}

/// Place the fleet spread out, one boat per quarter.
pub fn spread() -> (r: BoatMap)
    ensures
        r.wf(),
        valid_boats(r@),
        well_placed(r@),
{
    place_fleet(PlaceStrategy::Spread)
}

/// Place the fleet clustered in the middle of the board.
pub fn cluster() -> (r: BoatMap)
    ensures
        r.wf(),
        valid_boats(r@),
        well_placed(r@),
{
    place_fleet(PlaceStrategy::Cluster)
}

} // verus!
