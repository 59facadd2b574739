//! Destroy mode: finishing off a boat that has been hit but not sunk.
//!
//! A boat is in progress when its recorded hit count is neither zero nor its
//! length. The resolver walks the fleet in canonical order, takes the first
//! in-progress boat, and proposes the next cell to fire: around the single
//! hit, or past either end of the hit line.

use vstd::prelude::*;

use crate::board::{is_legal, ShotMap};
use crate::boat::{fleet, fleet_boat, spec_length, Boat};
use crate::pos::{cell_index, pos_of_index, pos_on_board, Pos, NUM_CELLS};
use crate::rng::choose_pos;
use crate::shot::Shot;

verus! {

/// The cells of the first n that record a hit of `boat`, in scan order.
pub open spec fn boat_hits_up_to(s: Seq<Option<Shot>>, boat: Boat, n: int) -> Seq<Pos>
    decreases n,
{
    if n <= 0 {
        Seq::empty()
    } else {
        let rest = boat_hits_up_to(s, boat, n - 1);
        if s[n - 1] == Some(Shot::Hit(boat)) {
            rest.push(pos_of_index(n - 1))
        } else {
            rest
        }
    }
}

/// All cells recording a hit of `boat`, in scan order.
pub open spec fn boat_hits(s: Seq<Option<Shot>>, boat: Boat) -> Seq<Pos> {
    boat_hits_up_to(s, boat, 100)
}

/// Every collected hit lies on the board.
pub proof fn lemma_boat_hits_in_grid(s: Seq<Option<Shot>>, boat: Boat, n: int)
    requires
        0 <= n <= 100,
    ensures
        forall|j: int|
            0 <= j < boat_hits_up_to(s, boat, n).len() ==> pos_on_board(
                #[trigger] boat_hits_up_to(s, boat, n)[j],
            ),
    decreases n,
{
    if n > 0 {
        lemma_boat_hits_in_grid(s, boat, n - 1);
        let rest = boat_hits_up_to(s, boat, n - 1);
        let cur = boat_hits_up_to(s, boat, n);
        if s[n - 1] == Some(Shot::Hit(boat)) {
            assert(0 <= (n - 1) / 10 < 10 && 0 <= (n - 1) % 10 < 10) by (nonlinear_arith)
                requires
                    0 < n <= 100,
            ;
            assert(pos_on_board(pos_of_index(n - 1)));
            assert forall|j: int| 0 <= j < cur.len() implies pos_on_board(#[trigger] cur[j]) by {
                if j < rest.len() {
                    assert(cur[j] == rest[j]);
                } else {
                    assert(cur[j] == pos_of_index(n - 1));
                }
            }
        }
    }
}

/// A boat is in progress when some of its cells are hit but the hit count
/// differs from its length.
pub open spec fn in_progress(s: Seq<Option<Shot>>, boat: Boat) -> bool {
    boat_hits(s, boat).len() != 0 && boat_hits(s, boat).len() != spec_length(boat)
}

/// The first in-progress boat at or after rank k of the canonical order.
pub open spec fn first_in_progress_from(s: Seq<Option<Shot>>, k: int) -> Option<Boat>
    decreases 5 - k,
{
    if k < 0 || k >= 5 {
        None
    } else if in_progress(s, fleet()[k]) {
        Some(fleet()[k])
    } else {
        first_in_progress_from(s, k + 1)
    }
}

/// The boat the destroy mode works on: the first in-progress boat in
/// canonical fleet order.
pub open spec fn first_in_progress(s: Seq<Option<Shot>>) -> Option<Boat> {
    first_in_progress_from(s, 0)
}

/// Skipping boats that are not in progress does not change the outcome.
proof fn lemma_first_in_progress_skip(s: Seq<Option<Shot>>, k: int)
    requires
        0 <= k <= 5,
        forall|j: int| 0 <= j < k ==> !in_progress(s, #[trigger] fleet()[j]),
    ensures
        first_in_progress(s) == first_in_progress_from(s, k),
    decreases k,
{
    if k > 0 {
        lemma_first_in_progress_skip(s, k - 1);
    }
}

/// True iff q is directly above, below, left or right of p.
pub open spec fn axis_neighbor(p: Pos, q: Pos) -> bool {
    ||| (q.x == p.x + 1 && q.y == p.y)
    ||| (q.x + 1 == p.x && q.y == p.y)
    ||| (q.x == p.x && q.y == p.y + 1)
    ||| (q.x == p.x && q.y + 1 == p.y)
}

/// The legal shots among the four axis neighbors of p.
pub open spec fn neighbor_candidates(s: Seq<Option<Shot>>, p: Pos) -> Set<Pos> {
    Set::new(|q: Pos| is_legal(s, q.x as int, q.y as int) && axis_neighbor(p, q))
}

/// The legal shots just past the two endpoints of the hit line from f to l:
/// along x when the endpoints differ in x, else along y.
pub open spec fn line_candidates(s: Seq<Option<Shot>>, f: Pos, l: Pos) -> Set<Pos> {
    Set::new(
        |q: Pos|
            is_legal(s, q.x as int, q.y as int) && if f.x != l.x {
                (q.y == f.y && q.x + 1 == f.x) || (q.y == l.y && q.x == l.x + 1)
            } else {
                (q.x == f.x && q.y + 1 == f.y) || (q.x == l.x && q.y == l.y + 1)
            },
    )
}

/// The cells the line-aware destroy mode may fire at: empty when no boat is
/// in progress; the neighbors of the single hit, or the line extensions of
/// the first and last hit.
pub open spec fn destroy_candidates(s: Seq<Option<Shot>>) -> Set<Pos> {
    match first_in_progress(s) {
        None => Set::empty(),
        Some(boat) => {
            let bh = boat_hits(s, boat);
            if bh.len() == 1 {
                neighbor_candidates(s, bh[0])
            } else {
                line_candidates(s, bh[0], bh[bh.len() - 1])
            }
        },
    }
}

/// The cells the neighbor-only destroy mode may fire at: the legal neighbors
/// of the first or of the last hit of the boat in progress.
pub open spec fn random_destroy_candidates(s: Seq<Option<Shot>>) -> Set<Pos> {
    match first_in_progress(s) {
        None => Set::empty(),
        Some(boat) => {
            let bh = boat_hits(s, boat);
            neighbor_candidates(s, bh[0]).union(neighbor_candidates(s, bh[bh.len() - 1]))
        },
    }
}

/// True iff a shot at the signed coordinates (x, y) is on the board and not
/// yet fired upon; false for any coordinate off the board.
pub fn valid_shot_any(shots: &ShotMap, x: i32, y: i32) -> (r: bool)
    requires
        shots.wf(),
    ensures
        r == is_legal(shots@, x as int, y as int),
{
    x >= 0 && x < 10 && y >= 0 && y < 10 && shots.get(x as usize, y as usize).is_none()
}

/// Pushes (x, y) onto positions iff it is a legal shot.
fn add_valid_position_with_offset(positions: &mut Vec<Pos>, shots: &ShotMap, x: i32, y: i32)
    requires
        shots.wf(),
    ensures
        is_legal(shots@, x as int, y as int) ==> final(positions)@ == old(positions)@.push(
            Pos { x: x as usize, y: y as usize },
        ),
        !is_legal(shots@, x as int, y as int) ==> final(positions)@ == old(positions)@,
{
    if valid_shot_any(shots, x, y) {
        positions.push(Pos::new(x as usize, y as usize));
    }
}

/// The cells of `shots` that record a hit of `boat`, in scan order.
pub(crate) fn collect_boat_hits(shots: &ShotMap, boat: Boat) -> (r: Vec<Pos>)
    requires
        shots.wf(),
    ensures
        r@ == boat_hits(shots@, boat),
{
    let mut r: Vec<Pos> = Vec::new();
    for n in 0..NUM_CELLS
        invariant
            shots.wf(),
            r@ == boat_hits_up_to(shots@, boat, n as int),
    {
        let x = n / 10;
        let y = n % 10;
        let cell = shots.get(x, y);
        proof {
            assert(cell_index(x as int, y as int) == n);
            assert(pos_of_index(n as int) == Pos { x, y });
        }
        if cell == Some(Shot::Hit(boat)) {
            r.push(Pos::new(x, y));
        }
    }
    r
}

/// The legal neighbors of one endpoint of the hit list, drawn at random:
/// the single hit itself when there is only one, else the first or the last
/// hit, either with equal chance. `None` when the drawn endpoint has no
/// legal neighbor left.
fn random_offset_shoot_pos(shots: &ShotMap, boat_hits_vec: &Vec<Pos>) -> (r: Option<Pos>)
    requires
        shots.wf(),
        boat_hits_vec@.len() > 0,
        forall|j: int| 0 <= j < boat_hits_vec@.len() ==> pos_on_board(#[trigger] boat_hits_vec@[j]),
    ensures
        ({
            let f = boat_hits_vec@[0];
            let l = boat_hits_vec@[boat_hits_vec@.len() - 1];
            let union = neighbor_candidates(shots@, f).union(neighbor_candidates(shots@, l));
            &&& (r is Some ==> union.contains(r->Some_0))
            &&& (!(exists|q: Pos| union.contains(q)) ==> r is None)
            &&& ((exists|q: Pos| neighbor_candidates(shots@, f).contains(q)) && (exists|q: Pos|
                neighbor_candidates(shots@, l).contains(q)) ==> r is Some)
        }),
{
    let ghost f = boat_hits_vec@[0];
    let ghost l = boat_hits_vec@[boat_hits_vec@.len() - 1];
    let pos = if boat_hits_vec.len() == 1 {
        boat_hits_vec[0]
    } else {
        let mut ends: Vec<Pos> = Vec::new();
        ends.push(boat_hits_vec[0]);
        ends.push(boat_hits_vec[boat_hits_vec.len() - 1]);
        choose_pos(&ends).unwrap()
    };
    assert(pos == f || pos == l);

    let mut positions: Vec<Pos> = Vec::new();
    let x = pos.x as i32;
    let y = pos.y as i32;
    add_valid_position_with_offset(&mut positions, shots, x + 1, y);
    add_valid_position_with_offset(&mut positions, shots, x - 1, y);
    add_valid_position_with_offset(&mut positions, shots, x, y + 1);
    add_valid_position_with_offset(&mut positions, shots, x, y - 1);

    proof {
        broadcast use vstd::seq_lib::lemma_seq_contains_after_push;
        broadcast use vstd::seq_lib::lemma_seq_empty_contains_nothing;

        assert forall|j: int| 0 <= j < positions@.len() implies neighbor_candidates(
            shots@,
            pos,
        ).contains(#[trigger] positions@[j]) by {}
        assert forall|q: Pos| neighbor_candidates(shots@, pos).contains(q) implies
            positions@.contains(q) by {
            if q.x == pos.x + 1 && q.y == pos.y {
                assert(q == Pos { x: (x + 1) as usize, y: y as usize });
            } else if q.x + 1 == pos.x && q.y == pos.y {
                assert(q == Pos { x: (x - 1) as usize, y: y as usize });
            } else if q.x == pos.x && q.y == pos.y + 1 {
                assert(q == Pos { x: x as usize, y: (y + 1) as usize });
            } else {
                assert(q == Pos { x: x as usize, y: (y - 1) as usize });
            }
        }
    }
    let r = choose_pos(&positions);
    proof {
        let uni = neighbor_candidates(shots@, f).union(neighbor_candidates(shots@, l));
        if r is Some {
            assert(neighbor_candidates(shots@, pos).contains(r->Some_0));
            assert(uni.contains(r->Some_0));
        }
        if exists|q: Pos| neighbor_candidates(shots@, pos).contains(q) {
            let q = choose|q: Pos| neighbor_candidates(shots@, pos).contains(q);
            assert(positions@.contains(q));
            assert(positions@.len() > 0);
        }
        if (exists|q: Pos| neighbor_candidates(shots@, f).contains(q)) && (exists|q: Pos|
            neighbor_candidates(shots@, l).contains(q)) {
            assert(exists|q: Pos| neighbor_candidates(shots@, pos).contains(q));
            assert(r is Some);
        }
    }
    r
}

/// The legal shots one step past either end of the hit line, one of them
/// drawn at random; `None` when both extensions are blocked or off the
/// board.
fn offset_shoot_pos(shots: &ShotMap, boat_hits_vec: &Vec<Pos>) -> (r: Option<Pos>)
    requires
        shots.wf(),
        boat_hits_vec@.len() > 0,
        forall|j: int| 0 <= j < boat_hits_vec@.len() ==> pos_on_board(#[trigger] boat_hits_vec@[j]),
    ensures
        ({
            let cands = line_candidates(
                shots@,
                boat_hits_vec@[0],
                boat_hits_vec@[boat_hits_vec@.len() - 1],
            );
            &&& (r is Some ==> cands.contains(r->Some_0))
            &&& (r is Some <==> exists|q: Pos| cands.contains(q))
        }),
{
    let min_pos = boat_hits_vec[0];
    let max_pos = boat_hits_vec[boat_hits_vec.len() - 1];
    let ghost cands = line_candidates(shots@, min_pos, max_pos);

    let horizontal = max_pos.x != min_pos.x;

    let mut positions: Vec<Pos> = Vec::new();

    if horizontal {
        if valid_shot_any(shots, min_pos.x as i32 - 1, min_pos.y as i32) {
            positions.push(Pos::new(min_pos.x - 1, min_pos.y));
        }
        if valid_shot_any(shots, max_pos.x as i32 + 1, max_pos.y as i32) {
            positions.push(Pos::new(max_pos.x + 1, max_pos.y));
        }
    } else {
        if valid_shot_any(shots, min_pos.x as i32, min_pos.y as i32 - 1) {
            positions.push(Pos::new(min_pos.x, min_pos.y - 1));
        }
        if valid_shot_any(shots, max_pos.x as i32, max_pos.y as i32 + 1) {
            positions.push(Pos::new(max_pos.x, max_pos.y + 1));
        }
    }

    proof {
        broadcast use vstd::seq_lib::lemma_seq_contains_after_push;
        broadcast use vstd::seq_lib::lemma_seq_empty_contains_nothing;

        assert forall|j: int| 0 <= j < positions@.len() implies cands.contains(
            #[trigger] positions@[j],
        ) by {}
        assert forall|q: Pos| cands.contains(q) implies positions@.contains(q) by {
            if horizontal {
                if q.y == min_pos.y && q.x + 1 == min_pos.x {
                    assert(q == Pos { x: (min_pos.x - 1) as usize, y: min_pos.y });
                } else {
                    assert(q == Pos { x: (max_pos.x + 1) as usize, y: max_pos.y });
                }
            } else {
                if q.x == min_pos.x && q.y + 1 == min_pos.y {
                    assert(q == Pos { x: min_pos.x, y: (min_pos.y - 1) as usize });
                } else {
                    assert(q == Pos { x: max_pos.x, y: (max_pos.y + 1) as usize });
                }
            }
        }
    }
    let r = choose_pos(&positions);
    proof {
        if r is Some {
            assert(cands.contains(r->Some_0));
        }
        if exists|q: Pos| cands.contains(q) {
            let q = choose|q: Pos| cands.contains(q);
            assert(positions@.contains(q));
            assert(positions@.len() > 0);
        }
    }
    r
}

/// Neighbor-only destroy mode: fires next to a hit of the first in-progress
/// boat, ignoring the direction of the hit line. `None` when no boat is in
/// progress or the drawn endpoint is fenced in.
pub fn random_destroy(shots: &ShotMap) -> (r: Option<Pos>)
    requires
        shots.wf(),
    ensures
        r is Some ==> random_destroy_candidates(shots@).contains(r->Some_0),
        first_in_progress(shots@) is None ==> r is None,
        !(exists|q: Pos| random_destroy_candidates(shots@).contains(q)) ==> r is None,
        ({
            let act = first_in_progress(shots@);
            let bh = boat_hits(shots@, act->Some_0);
            act is Some && (exists|q: Pos|
                #[trigger] neighbor_candidates(shots@, bh[0]).contains(q)) && (exists|q: Pos|
                #[trigger] neighbor_candidates(shots@, bh[bh.len() - 1]).contains(q)) ==> r is Some
        }),
{
    let mut rank: usize = 0;
    while rank < 5
        invariant
            shots.wf(),
            rank <= 5,
            forall|j: int| 0 <= j < rank ==> !in_progress(shots@, #[trigger] fleet()[j]),
        decreases 5 - rank,
    {
        let boat = fleet_boat(rank);
        let hits = collect_boat_hits(shots, boat);
        let hits_len = hits.len();

        if hits_len > 0 && hits_len != boat.length() {
            proof {
                lemma_first_in_progress_skip(shots@, rank as int);
                assert(in_progress(shots@, fleet()[rank as int]));
                assert(first_in_progress(shots@) == Some(boat));
                lemma_boat_hits_in_grid(shots@, boat, 100);
                assert(random_destroy_candidates(shots@) == neighbor_candidates(
                    shots@,
                    hits@[0],
                ).union(neighbor_candidates(shots@, hits@[hits@.len() - 1])));
            }
            return random_offset_shoot_pos(shots, &hits);
        }
        rank = rank + 1;
    }
    proof {
        lemma_first_in_progress_skip(shots@, 5);
    }
    None
}

/// Line-aware destroy mode: with one hit of the first in-progress boat it
/// fires next to it; with several it fires just past one end of the hit
/// line. `None` exactly when no boat is in progress or every candidate cell
/// is blocked or off the board.
pub fn destroy(shots: &ShotMap) -> (r: Option<Pos>)
    requires
        shots.wf(),
    ensures
        r is Some ==> destroy_candidates(shots@).contains(r->Some_0),
        r is Some <==> exists|q: Pos| destroy_candidates(shots@).contains(q),
{
    let mut rank: usize = 0;
    while rank < 5
        invariant
            shots.wf(),
            rank <= 5,
            forall|j: int| 0 <= j < rank ==> !in_progress(shots@, #[trigger] fleet()[j]),
        decreases 5 - rank,
    {
        let boat = fleet_boat(rank);
        let hits = collect_boat_hits(shots, boat);
        let hits_len = hits.len();

        if hits_len > 0 && hits_len != boat.length() {
            proof {
                lemma_first_in_progress_skip(shots@, rank as int);
                assert(in_progress(shots@, fleet()[rank as int]));
                assert(first_in_progress(shots@) == Some(boat));
                lemma_boat_hits_in_grid(shots@, boat, 100);
            }
            if hits_len > 1 {
                proof {
                    assert(destroy_candidates(shots@) == line_candidates(
                        shots@,
                        hits@[0],
                        hits@[hits@.len() - 1],
                    ));
                }
                return offset_shoot_pos(shots, &hits);
            } else {
                proof {
                    assert(destroy_candidates(shots@) == neighbor_candidates(shots@, hits@[0]));
                    assert(hits@[hits@.len() - 1] == hits@[0]);
                }
                return random_offset_shoot_pos(shots, &hits);
            }
        }
        rank = rank + 1;
    }
    proof {
        lemma_first_in_progress_skip(shots@, 5);
        assert(destroy_candidates(shots@) =~= Set::<Pos>::empty());
    }
    None
}

} // verus!
