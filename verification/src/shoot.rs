//! First-contact search strategies, and the shoot functions the game engine
//! dispatches to.
//!
//! Each shoot function takes the acting player's last probed coordinate and
//! its own shot board, and returns a legal coordinate to fire, together with
//! whether the probed coordinate should replace the persisted one.

use vstd::prelude::*;

use crate::board::{has_legal, is_legal, ShotMap};
use crate::boat::{fleet, fleet_boat, spec_length};
use crate::shot::Shot;
use crate::destroy::{
    boat_hits, destroy, destroy_candidates, first_in_progress, neighbor_candidates,
    random_destroy, random_destroy_candidates,
};
use crate::heatmap::{heat, heatmap_find, max_heat};
use crate::pos::{cell_index, pos_of_index, pos_on_board, Pos, NUM_CELLS, NUM_COLS, NUM_ROWS};
use crate::rng::random_range;

verus! {

/// The targeting strategies a player can be given. All but the plain random
/// search try the destroy mode first.
#[derive(Clone, Copy, Debug, PartialEq, Eq, Structural)]
pub enum ShootStrategy {
    Random,
    RandomAndRandomDestroy,
    RandomAndDestroy,
    GridAndDestroy,
    HeatmapAndDestroy,
}

/// True iff pos lies on the board and has not been fired upon.
pub fn valid_shot(shots: &ShotMap, pos: Pos) -> (r: bool)
    requires
        shots.wf(),
    ensures
        r == is_legal(shots@, pos.x as int, pos.y as int),
{
    pos.x < NUM_COLS && pos.y < NUM_ROWS && shots.get(pos.x, pos.y).is_none()
}

/// A uniformly random legal cell of the board.
pub fn random_find(shots: &ShotMap) -> (r: Pos)
    requires
        shots.wf(),
        has_legal(shots@),
    ensures
        is_legal(shots@, r.x as int, r.y as int),
{
    let mut legal: Vec<Pos> = Vec::new();
    for n in 0..NUM_CELLS
        invariant
            shots.wf(),
            forall|j: int|
                0 <= j < legal@.len() ==> is_legal(
                    shots@,
                    (#[trigger] legal@[j]).x as int,
                    legal@[j].y as int,
                ),
            forall|i: int|
                0 <= i < n && shots@[i] is None ==> exists|j: int|
                    0 <= j < legal@.len() && legal@[j] == pos_of_index(i),
    {
        let x = n / 10;
        let y = n % 10;
        proof {
            assert(cell_index(x as int, y as int) == n);
            assert(pos_of_index(n as int) == Pos { x, y });
        }
        let ghost old_legal = legal@;
        if shots.get(x, y).is_none() {
            legal.push(Pos::new(x, y));
        }
        proof {
            assert forall|i: int| 0 <= i < n + 1 && shots@[i] is None implies exists|j: int|
                0 <= j < legal@.len() && legal@[j] == pos_of_index(i) by {
                if i < n {
                    let j = choose|j: int| 0 <= j < old_legal.len() && old_legal[j] == pos_of_index(
                        i,
                    );
                    assert(legal@[j] == pos_of_index(i));
                } else {
                    assert(legal@[legal@.len() - 1] == pos_of_index(n as int));
                }
            }
        }
    }
    proof {
        let i = choose|i: int| 0 <= i < 100 && shots@[i] is None;
        assert(exists|j: int| 0 <= j < legal@.len() && legal@[j] == pos_of_index(i));
    }
    let idx = random_range(0, legal.len());
    legal[idx]
}

/// Fires at a uniformly random legal cell.
pub fn random(_last_pos: Pos, shots: &ShotMap) -> (r: Pos)
    requires
        shots.wf(),
        has_legal(shots@),
    ensures
        is_legal(shots@, r.x as int, r.y as int),
{
    random_find(shots)
}

/// Neighbor-only destroy mode first, then random search: when a boat is in
/// progress and both endpoints of its hit list have an open neighborhood,
/// the shot lands next to one of them; the shot is legal in every case.
pub fn random_and_random_destroy(_last_pos: Pos, shots: &ShotMap) -> (r: Pos)
    requires
        shots.wf(),
        has_legal(shots@),
    ensures
        is_legal(shots@, r.x as int, r.y as int),
        ({
            let act = first_in_progress(shots@);
            let bh = boat_hits(shots@, act->Some_0);
            act is Some && (exists|q: Pos|
                #[trigger] neighbor_candidates(shots@, bh[0]).contains(q)) && (exists|q: Pos|
                #[trigger] neighbor_candidates(shots@, bh[bh.len() - 1]).contains(q))
                ==> random_destroy_candidates(shots@).contains(r)
        }),
{
    if let Some(pos) = random_destroy(shots) {
        assert(random_destroy_candidates(shots@).contains(pos));
        pos
    } else {
        random_find(shots)
    }
}

/// Line-aware destroy mode first, then random search: whenever the destroy
/// mode has a candidate cell, the shot is one of them; it is legal in every
/// case.
pub fn random_and_destroy(_last_pos: Pos, shots: &ShotMap) -> (r: Pos)
    requires
        shots.wf(),
        has_legal(shots@),
    ensures
        is_legal(shots@, r.x as int, r.y as int),
        (exists|q: Pos| destroy_candidates(shots@).contains(q)) ==> destroy_candidates(
            shots@,
        ).contains(r),
{
    if let Some(pos) = destroy(shots) {
        assert(destroy_candidates(shots@).contains(pos));
        pos
    } else {
        random_find(shots)
    }
}

/// The scan stride after the first k boats of the fleet: the shortest length
/// among boats whose hit count is below their length, at most 6.
pub open spec fn grid_stride_up_to(s: Seq<Option<Shot>>, k: int) -> nat
    decreases k,
{
    if k <= 0 {
        6
    } else {
        let m = grid_stride_up_to(s, k - 1);
        let b = fleet()[k - 1];
        if boat_hits(s, b).len() < spec_length(b) && spec_length(b) < m {
            spec_length(b)
        } else {
            m
        }
    }
}

/// The stride of the grid scan on this board.
pub open spec fn grid_stride(s: Seq<Option<Shot>>) -> nat {
    grid_stride_up_to(s, 5)
}

/// One step of the grid scan: stride cells along x, wrapping to the next
/// row with the alternating one-cell offset. The result may point one row
/// past the board, which the caller treats as the end of a sweep.
pub open spec fn grid_step(p: Pos, stride: nat) -> Pos {
    let nx = p.x + stride;
    if nx >= 10 {
        let ny = p.y + 1;
        let mx = nx % 10;
        let ax = if ny % 2 == 1 && mx == 0 {
            mx + 1
        } else if ny % 2 == 0 && mx == 1 {
            mx - 1
        } else {
            mx
        };
        Pos { x: ax as usize, y: ny as usize }
    } else {
        Pos { x: nx as usize, y: p.y }
    }
}

/// Where the grid scan starting at p lands: the first legal cell the scan
/// reaches, restarting once from the origin at the end of a sweep; `None`
/// when the scan gives up (second sweep end, or fuel spent) and falls back
/// to random search.
pub open spec fn grid_seek(
    s: Seq<Option<Shot>>,
    p: Pos,
    stride: nat,
    fuel: nat,
    has_reset: bool,
) -> Option<Pos>
    decreases fuel,
{
    if is_legal(s, p.x as int, p.y as int) {
        Some(p)
    } else if fuel == 0 {
        None
    } else {
        let q = grid_step(p, stride);
        if q.y >= 10 {
            if has_reset {
                None
            } else {
                grid_seek(s, Pos { x: 0, y: 0 }, stride, (fuel - 1) as nat, true)
            }
        } else {
            grid_seek(s, q, stride, (fuel - 1) as nat, has_reset)
        }
    }
}

/// The stride used by the grid scan: the length of the shortest boat whose
/// hits do not yet account for all its cells.
fn compute_grid_stride(shots: &ShotMap) -> (r: usize)
    requires
        shots.wf(),
    ensures
        r == grid_stride(shots@),
        2 <= r <= 6,
{
    let mut min_len: usize = 6;
    for rank in 0..5usize
        invariant
            shots.wf(),
            min_len == grid_stride_up_to(shots@, rank as int),
            2 <= min_len <= 6,
    {
        let boat = fleet_boat(rank);
        let hits = crate::destroy::collect_boat_hits(shots, boat);
        let boat_len = boat.length();
        if hits.len() < boat_len && boat_len < min_len {
            min_len = boat_len;
        }
    }
    min_len
}

/// The grid scan itself: from the last probed coordinate, steps by the
/// stride until it reaches a legal cell, sweeping the board at most twice
/// before it falls back to random search. Returns the cell and whether the
/// scan pattern itself produced it: the untouched origin and the random
/// fallback leave the persisted coordinate unchanged.
fn grid_find(shots: &ShotMap, last_pos: Pos) -> (r: (Pos, bool))
    requires
        shots.wf(),
        has_legal(shots@),
        pos_on_board(last_pos),
    ensures
        is_legal(shots@, r.0.x as int, r.0.y as int),
        is_legal(shots@, 0, 0) ==> r == (Pos { x: 0, y: 0 }, false),
        !is_legal(shots@, 0, 0) ==> {
            let sought = grid_seek(shots@, last_pos, grid_stride(shots@), 200, false);
            &&& r.1 == (sought is Some)
            &&& (sought matches Some(p) ==> r.0 == p)
        },
{
    if valid_shot(shots, Pos::new(0, 0)) {
        return (Pos::new(0, 0), false);
    }

    let stride = compute_grid_stride(shots);
    let ghost target = grid_seek(shots@, last_pos, grid_stride(shots@), 200, false);

    let mut position = last_pos;
    let mut has_reset = false;
    let mut fuel: usize = 200;
    let mut found_by_scan = true;

    loop
        invariant_except_break
            shots.wf(),
            has_legal(shots@),
            pos_on_board(position),
            stride == grid_stride(shots@),
            2 <= stride <= 6,
            fuel <= 200,
            found_by_scan == true,
            grid_seek(shots@, position, stride as nat, fuel as nat, has_reset) == target,
        ensures
            is_legal(shots@, position.x as int, position.y as int),
            found_by_scan == (target is Some),
            target matches Some(p) ==> position == p,
        decreases fuel,
    {
        if valid_shot(shots, position) {
            break;
        }
        if fuel == 0 {
            position = random_find(shots);
            found_by_scan = false;
            break;
        }
        fuel = fuel - 1;

        let ghost before = position;
        position = Pos::new(position.x + stride, position.y);
        if position.x >= NUM_COLS {
            position = Pos::new(position.x % NUM_COLS, position.y + 1);
            if position.y % 2 == 1 && position.x == 0 {
                position = Pos::new(position.x + 1, position.y);
            } else if position.y % 2 == 0 && position.x == 1 {
                position = Pos::new(position.x - 1, position.y);
            }
        }
        proof {
            assert(position == grid_step(before, stride as nat));
        }

        if position.y >= NUM_ROWS {
            if has_reset {
                proof {
                    assert(target is None);
                }
                position = random_find(shots);
                found_by_scan = false;
                break;
            }
            position = Pos::new(0, 0);
            has_reset = true;
        }
    }
    (position, found_by_scan)
}

/// Grid scan with destroy mode: whenever the destroy mode has a candidate
/// cell the shot is one of them; else the scan picks the next cell of its
/// stride pattern. The persisted coordinate is updated exactly when the
/// scan pattern itself produced the cell: neither destroy mode, nor the
/// untouched origin, nor the random fallback move it.
pub fn grid_and_destroy(last_pos: Pos, shots: &ShotMap) -> (r: (Pos, bool))
    requires
        shots.wf(),
        has_legal(shots@),
        pos_on_board(last_pos),
    ensures
        is_legal(shots@, r.0.x as int, r.0.y as int),
        (exists|q: Pos| destroy_candidates(shots@).contains(q)) ==> destroy_candidates(
            shots@,
        ).contains(r.0) && r.1 == false,
        !(exists|q: Pos| destroy_candidates(shots@).contains(q)) && is_legal(shots@, 0, 0) ==> r
            == (Pos { x: 0, y: 0 }, false),
        !(exists|q: Pos| destroy_candidates(shots@).contains(q)) && !is_legal(shots@, 0, 0) ==> {
            let sought = grid_seek(shots@, last_pos, grid_stride(shots@), 200, false);
            &&& r.1 == (sought is Some)
            &&& (sought matches Some(p) ==> r.0 == p)
        },
{
    if let Some(pos) = destroy(shots) {
        assert(destroy_candidates(shots@).contains(pos));
        (pos, false)
    } else {
        grid_find(shots, last_pos)
    }
}

/// Heatmap search with destroy mode: whenever the destroy mode has a
/// candidate cell the shot is one of them; else the shot is a legal cell of
/// maximal heat.
pub fn heatmap_and_destroy(_last_pos: Pos, shots: &ShotMap) -> (r: Pos)
    requires
        shots.wf(),
        has_legal(shots@),
    ensures
        is_legal(shots@, r.x as int, r.y as int),
        (exists|q: Pos| destroy_candidates(shots@).contains(q)) ==> destroy_candidates(
            shots@,
        ).contains(r),
        !(exists|q: Pos| destroy_candidates(shots@).contains(q)) ==> heat(
            shots@,
            r.x as int,
            r.y as int,
        ) == max_heat(shots@),
{
    if let Some(pos) = destroy(shots) {
        assert(destroy_candidates(shots@).contains(pos));
        pos
    } else {
        heatmap_find(shots)
    }
}

/// Runs the given targeting strategy: a legal shot, and whether the player's
/// persisted grid-scan coordinate should move to it.
pub fn shoot_with(strategy: ShootStrategy, last_pos: Pos, shots: &ShotMap) -> (r: (Pos, bool))
    requires
        shots.wf(),
        has_legal(shots@),
        pos_on_board(last_pos),
    ensures
        is_legal(shots@, r.0.x as int, r.0.y as int),
        (strategy == ShootStrategy::RandomAndDestroy || strategy == ShootStrategy::GridAndDestroy
            || strategy == ShootStrategy::HeatmapAndDestroy) && (exists|q: Pos|
            destroy_candidates(shots@).contains(q)) ==> destroy_candidates(shots@).contains(r.0),
{
    match strategy {
        ShootStrategy::Random => (random(last_pos, shots), false),
        ShootStrategy::RandomAndRandomDestroy => (random_and_random_destroy(last_pos, shots), false),
        ShootStrategy::RandomAndDestroy => (random_and_destroy(last_pos, shots), false),
        ShootStrategy::GridAndDestroy => grid_and_destroy(last_pos, shots),
        ShootStrategy::HeatmapAndDestroy => (heatmap_and_destroy(last_pos, shots), false),
    }
}

} // verus!
