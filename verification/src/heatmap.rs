//! The placement heatmap: for every cell, how many boat placements that
//! avoid every fired-upon cell would cover it.
//!
//! For each boat of the fleet and each in-bounds (orientation, origin) pair,
//! the placement counts once for every cell it covers, unless any covered
//! cell has already been fired upon. A hit blocks a placement exactly like a
//! miss does; this is deliberate and keeps the strategy's statistics stable.

use vstd::prelude::*;

use crate::board::{covered_index, covers, covers_prefix, has_legal, is_legal, ShotMap};
use crate::boat::{Boat, fleet, fleet_boat, spec_length};
use crate::pos::{cell_index, in_grid, pos_of_index, Pos, NUM_CELLS, NUM_COLS, NUM_ROWS};
use crate::rng::random_range;
use crate::shot::Shot;

verus! {

/// Per-cell placement counts for the whole board.
pub struct Heatmap {
    cells: Vec<usize>,
}

impl View for Heatmap {
    type V = Seq<usize>;

    closed spec fn view(&self) -> Seq<usize> {
        self.cells@
    }
}

impl Heatmap {
    /// A map is well formed when it has exactly one cell per grid position.
    pub open spec fn wf(&self) -> bool {
        self@.len() == 100
    }

    /// The count on cell (x, y).
    pub open spec fn at(&self, x: int, y: int) -> nat {
        self@[cell_index(x, y)] as nat
    }

    /// A map of all zeroes.
    pub fn zero() -> (r: Self)
        ensures
            r.wf(),
            forall|i: int| 0 <= i < 100 ==> r@[i] == 0,
    {
        let mut cells: Vec<usize> = Vec::new();
        for n in 0..NUM_CELLS
            invariant
                cells@.len() == n,
                forall|i: int| 0 <= i < n ==> cells@[i] == 0,
        {
            cells.push(0);
        }
        Heatmap { cells }
    }

    /// The count on cell (x, y).
    pub fn get(&self, x: usize, y: usize) -> (r: usize)
        requires
            self.wf(),
            x < 10,
            y < 10,
        ensures
            r == self.at(x as int, y as int),
    {
        self.cells[x * 10 + y]
    }

    /// Adds one to the count on cell (x, y).
    fn bump(&mut self, x: usize, y: usize)
        requires
            old(self).wf(),
            x < 10,
            y < 10,
            old(self)@[cell_index(x as int, y as int)] < usize::MAX,
        ensures
            final(self).wf(),
            final(self)@ == old(self)@.update(
                cell_index(x as int, y as int),
                (old(self)@[cell_index(x as int, y as int)] + 1) as usize,
            ),
    {
        let i = x * 10 + y;
        let v = self.cells[i];
        self.cells.set(i, v + 1);
    }
}

/// True iff some cell the placement covers has already been fired upon.
pub open spec fn blocked(s: Seq<Option<Shot>>, b: Boat, horiz: bool, px: int, py: int) -> bool {
    exists|off: int|
        0 <= off < spec_length(b) && #[trigger] s[covered_index(horiz, px, py, off)] is Some
}

/// What the placement adds to the count of cell (x, y): one when it is
/// unblocked and covers the cell.
pub open spec fn placement_one(
    s: Seq<Option<Shot>>,
    b: Boat,
    horiz: bool,
    px: int,
    py: int,
    x: int,
    y: int,
) -> nat {
    if !blocked(s, b, horiz, px, py) && covers(b, horiz, px, py, x, y) {
        1
    } else {
        0
    }
}

/// What the placements at origins (px, 0) up to (px, py_count - 1) add to
/// the count of cell (x, y).
pub open spec fn col_sum(
    s: Seq<Option<Shot>>,
    b: Boat,
    horiz: bool,
    px: int,
    py_count: int,
    x: int,
    y: int,
) -> nat
    decreases py_count,
{
    if py_count <= 0 {
        0
    } else {
        col_sum(s, b, horiz, px, py_count - 1, x, y) + placement_one(s, b, horiz, px, py_count - 1, x, y)
    }
}

/// What all placements with origin x below px_count and origin y below
/// py_count add to the count of cell (x, y).
pub open spec fn pass_sum(
    s: Seq<Option<Shot>>,
    b: Boat,
    horiz: bool,
    px_count: int,
    py_count: int,
    x: int,
    y: int,
) -> nat
    decreases px_count,
{
    if px_count <= 0 {
        0
    } else {
        pass_sum(s, b, horiz, px_count - 1, py_count, x, y) + col_sum(
            s,
            b,
            horiz,
            px_count - 1,
            py_count,
            x,
            y,
        )
    }
}

/// What one boat adds to the count of cell (x, y), over its horizontal and
/// vertical passes.
pub open spec fn boat_heat(s: Seq<Option<Shot>>, b: Boat, x: int, y: int) -> nat {
    pass_sum(s, b, true, 11 - spec_length(b) as int, 10, x, y) + pass_sum(
        s,
        b,
        false,
        10,
        11 - spec_length(b) as int,
        x,
        y,
    )
}

/// The heat of cell (x, y) after the first k boats of the fleet.
pub open spec fn heat_up_to_rank(s: Seq<Option<Shot>>, k: int, x: int, y: int) -> nat
    decreases k,
{
    if k <= 0 {
        0
    } else {
        heat_up_to_rank(s, k - 1, x, y) + boat_heat(s, fleet()[k - 1], x, y)
    }
}

/// The heat of cell (x, y): how many unblocked placements of any fleet boat
/// cover it.
pub open spec fn heat(s: Seq<Option<Shot>>, x: int, y: int) -> nat {
    heat_up_to_rank(s, 5, x, y)
}

/// The largest heat among the first n cells.
pub open spec fn max_heat_up_to(s: Seq<Option<Shot>>, n: int) -> nat
    decreases n,
{
    if n <= 0 {
        0
    } else {
        let m = max_heat_up_to(s, n - 1);
        let h = heat(s, pos_of_index(n - 1).x as int, pos_of_index(n - 1).y as int);
        if h > m {
            h
        } else {
            m
        }
    }
}

/// The largest heat on the board.
pub open spec fn max_heat(s: Seq<Option<Shot>>) -> nat {
    max_heat_up_to(s, 100)
}

/// A column of placements adds at most one per origin.
proof fn lemma_col_sum_bound(
    s: Seq<Option<Shot>>,
    b: Boat,
    horiz: bool,
    px: int,
    py_count: int,
    x: int,
    y: int,
)
    requires
        0 <= py_count,
    ensures
        col_sum(s, b, horiz, px, py_count, x, y) <= py_count,
    decreases py_count,
{
    if py_count > 0 {
        lemma_col_sum_bound(s, b, horiz, px, py_count - 1, x, y);
    }
}

/// A pass of placements adds at most ten per origin column.
proof fn lemma_pass_sum_bound(
    s: Seq<Option<Shot>>,
    b: Boat,
    horiz: bool,
    px_count: int,
    py_count: int,
    x: int,
    y: int,
)
    requires
        0 <= px_count,
        0 <= py_count <= 10,
    ensures
        pass_sum(s, b, horiz, px_count, py_count, x, y) <= px_count * 10,
    decreases px_count,
{
    if px_count > 0 {
        lemma_pass_sum_bound(s, b, horiz, px_count - 1, py_count, x, y);
        lemma_col_sum_bound(s, b, horiz, px_count - 1, py_count, x, y);
    }
}

/// The heat of a cell is far below any overflow bound.
proof fn lemma_heat_up_to_rank_bound(s: Seq<Option<Shot>>, k: int, x: int, y: int)
    requires
        0 <= k <= 5,
    ensures
        heat_up_to_rank(s, k, x, y) <= 220 * k,
    decreases k,
{
    if k > 0 {
        lemma_heat_up_to_rank_bound(s, k - 1, x, y);
        let b = fleet()[k - 1];
        lemma_pass_sum_bound(s, b, true, 11 - spec_length(b) as int, 10, x, y);
        lemma_pass_sum_bound(s, b, false, 10, 11 - spec_length(b) as int, x, y);
    }
}

/// A cell a placement counts for has not been fired upon.
proof fn lemma_placement_one_unshot(
    s: Seq<Option<Shot>>,
    b: Boat,
    horiz: bool,
    px: int,
    py: int,
    x: int,
    y: int,
)
    requires
        placement_one(s, b, horiz, px, py, x, y) > 0,
    ensures
        s[cell_index(x, y)] is None,
{
    if s[cell_index(x, y)] is Some {
        if horiz {
            let off = x - px;
            assert(0 <= off < spec_length(b) && s[covered_index(horiz, px, py, off)] is Some);
        } else {
            let off = y - py;
            assert(0 <= off < spec_length(b) && s[covered_index(horiz, px, py, off)] is Some);
        }
        assert(blocked(s, b, horiz, px, py));
    }
}

/// A cell with positive column sum has not been fired upon.
proof fn lemma_col_sum_unshot(
    s: Seq<Option<Shot>>,
    b: Boat,
    horiz: bool,
    px: int,
    py_count: int,
    x: int,
    y: int,
)
    requires
        col_sum(s, b, horiz, px, py_count, x, y) > 0,
    ensures
        s[cell_index(x, y)] is None,
    decreases py_count,
{
    if py_count > 0 {
        if placement_one(s, b, horiz, px, py_count - 1, x, y) > 0 {
            lemma_placement_one_unshot(s, b, horiz, px, py_count - 1, x, y);
        } else {
            lemma_col_sum_unshot(s, b, horiz, px, py_count - 1, x, y);
        }
    }
}

/// A cell with positive pass sum has not been fired upon.
proof fn lemma_pass_sum_unshot(
    s: Seq<Option<Shot>>,
    b: Boat,
    horiz: bool,
    px_count: int,
    py_count: int,
    x: int,
    y: int,
)
    requires
        pass_sum(s, b, horiz, px_count, py_count, x, y) > 0,
    ensures
        s[cell_index(x, y)] is None,
    decreases px_count,
{
    if px_count > 0 {
        if col_sum(s, b, horiz, px_count - 1, py_count, x, y) > 0 {
            lemma_col_sum_unshot(s, b, horiz, px_count - 1, py_count, x, y);
        } else {
            lemma_pass_sum_unshot(s, b, horiz, px_count - 1, py_count, x, y);
        }
    }
}

/// A cell with positive heat has not been fired upon: every placement that
/// covers a fired-upon cell is blocked.
pub proof fn lemma_heat_unshot(s: Seq<Option<Shot>>, k: int, x: int, y: int)
    requires
        heat_up_to_rank(s, k, x, y) > 0,
    ensures
        s[cell_index(x, y)] is None,
    decreases k,
{
    if k > 0 {
        let b = fleet()[k - 1];
        if pass_sum(s, b, true, 11 - spec_length(b) as int, 10, x, y) > 0 {
            lemma_pass_sum_unshot(s, b, true, 11 - spec_length(b) as int, 10, x, y);
        } else if pass_sum(s, b, false, 10, 11 - spec_length(b) as int, x, y) > 0 {
            lemma_pass_sum_unshot(s, b, false, 10, 11 - spec_length(b) as int, x, y);
        } else {
            lemma_heat_unshot(s, k - 1, x, y);
        }
    }
}

/// Every cell's heat is at most the maximum.
pub proof fn lemma_heat_le_max(s: Seq<Option<Shot>>, i: int, n: int)
    requires
        0 <= i < n,
    ensures
        heat(s, pos_of_index(i).x as int, pos_of_index(i).y as int) <= max_heat_up_to(s, n),
    decreases n,
{
    if i < n - 1 {
        lemma_heat_le_max(s, i, n - 1);
    }
}

/// The maximum heat is attained somewhere, unless it is zero.
pub proof fn lemma_max_heat_attained(s: Seq<Option<Shot>>, n: int)
    requires
        0 < n,
    ensures
        max_heat_up_to(s, n) == 0 || exists|i: int|
            0 <= i < n && heat(s, (#[trigger] pos_of_index(i)).x as int, pos_of_index(i).y as int)
                == max_heat_up_to(s, n),
    decreases n,
{
    let m = max_heat_up_to(s, n);
    let h = heat(s, pos_of_index(n - 1).x as int, pos_of_index(n - 1).y as int);
    if h == m {
        assert(0 <= n - 1 < n && heat(
            s,
            pos_of_index(n - 1).x as int,
            pos_of_index(n - 1).y as int,
        ) == m);
    } else {
        assert(max_heat_up_to(s, 0) == 0);
        assert(n > 1);
        lemma_max_heat_attained(s, n - 1);
    }
}

/// Counts the placement of `boat` at `pos` into the heatmap: every covered
/// cell gains one, unless some covered cell has already been fired upon, in
/// which case nothing changes.
pub fn update_heatmap(
    heatmap: &mut Heatmap,
    shots: &ShotMap,
    boat: Boat,
    horizontal: bool,
    pos: Pos,
)
    requires
        old(heatmap).wf(),
        shots.wf(),
        boat != Boat::Empty,
        horizontal ==> pos.x + spec_length(boat) <= 10 && pos.y < 10,
        !horizontal ==> pos.y + spec_length(boat) <= 10 && pos.x < 10,
        forall|i: int| 0 <= i < 100 ==> old(heatmap)@[i] < 100000,
    ensures
        final(heatmap).wf(),
        forall|x: int, y: int|
            in_grid(x, y) ==> final(heatmap).at(x, y) == old(heatmap).at(x, y) + placement_one(
                shots@,
                boat,
                horizontal,
                pos.x as int,
                pos.y as int,
                x,
                y,
            ),
{
    let len = boat.length();
    let mut overlaps = false;

    for off in 0..len
        invariant
            shots.wf(),
            boat != Boat::Empty,
            len == spec_length(boat),
            horizontal ==> pos.x + len <= 10 && pos.y < 10,
            !horizontal ==> pos.y + len <= 10 && pos.x < 10,
            overlaps <==> exists|o: int|
                0 <= o < off && #[trigger] shots@[covered_index(
                    horizontal,
                    pos.x as int,
                    pos.y as int,
                    o,
                )] is Some,
    {
        let cell = if horizontal {
            shots.get(pos.x + off, pos.y)
        } else {
            shots.get(pos.x, pos.y + off)
        };
        if cell.is_some() {
            overlaps = true;
            proof {
                let o = off as int;
                assert(0 <= o < off + 1 && shots@[covered_index(
                    horizontal,
                    pos.x as int,
                    pos.y as int,
                    o,
                )] is Some);
            }
        }
    }
    proof {
        assert(overlaps == blocked(shots@, boat, horizontal, pos.x as int, pos.y as int));
    }

    if overlaps {
        return ;
    }

    for off in 0..len
        invariant
            heatmap.wf(),
            old(heatmap).wf(),
            shots.wf(),
            boat != Boat::Empty,
            len == spec_length(boat),
            horizontal ==> pos.x + len <= 10 && pos.y < 10,
            !horizontal ==> pos.y + len <= 10 && pos.x < 10,
            !blocked(shots@, boat, horizontal, pos.x as int, pos.y as int),
            forall|i: int| 0 <= i < 100 ==> old(heatmap)@[i] < 100000,
            forall|x: int, y: int|
                in_grid(x, y) ==> #[trigger] heatmap.at(x, y) == old(heatmap).at(x, y) + (
                if covers_prefix(horizontal, pos.x as int, pos.y as int, off as int, x, y) {
                    1nat
                } else {
                    0nat
                }),
    {
        let (cx, cy) = if horizontal {
            (pos.x + off, pos.y)
        } else {
            (pos.x, pos.y + off)
        };
        proof {
            assert(!covers_prefix(
                horizontal,
                pos.x as int,
                pos.y as int,
                off as int,
                cx as int,
                cy as int,
            ));
            assert(heatmap.at(cx as int, cy as int) == old(heatmap).at(cx as int, cy as int));
        }
        let ghost prem = *heatmap;
        let ghost pre = heatmap@;
        heatmap.bump(cx, cy);
        proof {
            let ci = cell_index(cx as int, cy as int);
            assert(pre[ci] as nat == old(heatmap).at(cx as int, cy as int));
            assert(pre[ci] < 100000);
            assert(heatmap@ == pre.update(ci, (pre[ci] + 1) as usize));
            assert forall|x: int, y: int| in_grid(x, y) implies #[trigger] heatmap.at(x, y)
                == old(heatmap).at(x, y) + (if covers_prefix(
                horizontal,
                pos.x as int,
                pos.y as int,
                off + 1,
                x,
                y,
            ) {
                1nat
            } else {
                0nat
            }) by {
                let i = cell_index(x, y);
                assert(prem.at(x, y) == old(heatmap).at(x, y) + (if covers_prefix(
                    horizontal,
                    pos.x as int,
                    pos.y as int,
                    off as int,
                    x,
                    y,
                ) {
                    1nat
                } else {
                    0nat
                }));
                if x == cx && y == cy {
                    assert(heatmap@[i] == pre[i] + 1);
                    assert(covers_prefix(horizontal, pos.x as int, pos.y as int, off + 1, x, y));
                } else {
                    assert(i != ci);
                    assert(heatmap@[i] == pre[i]);
                    assert(covers_prefix(horizontal, pos.x as int, pos.y as int, off + 1, x, y)
                        == covers_prefix(
                        horizontal,
                        pos.x as int,
                        pos.y as int,
                        off as int,
                        x,
                        y,
                    ));
                }
            }
        }
    }
}

/// Builds the heatmap of `shots`: cell by cell, the number of unblocked
/// placements of any fleet boat that cover it.
pub fn create_heatmap(shots: &ShotMap) -> (r: Heatmap)
    requires
        shots.wf(),
    ensures
        r.wf(),
        forall|x: int, y: int| in_grid(x, y) ==> r.at(x, y) == heat(shots@, x, y),
{
    let mut heatmap = Heatmap::zero();

    for rank in 0..5usize
        invariant
            shots.wf(),
            heatmap.wf(),
            forall|x: int, y: int|
                in_grid(x, y) ==> heatmap.at(x, y) == heat_up_to_rank(shots@, rank as int, x, y),
    {
        let boat = fleet_boat(rank);
        let len = boat.length();
        let ghost k = rank as int;
        let ghost b = fleet()[k];
        let ghost s = shots@;

        proof {
            assert forall|x: int, y: int| in_grid(x, y) implies heatmap.at(x, y) + 230 < 100000 by {
                lemma_heat_up_to_rank_bound(s, k, x, y);
            }
        }
        let ghost base = heatmap;

        for px in 0..(NUM_COLS - len + 1)
            invariant
                shots.wf(),
                heatmap.wf(),
                s == shots@,
                b == boat,
                b != Boat::Empty,
                len == spec_length(b),
                2 <= len <= 6,
                forall|x: int, y: int|
                    in_grid(x, y) ==> heatmap.at(x, y) == base.at(x, y) + pass_sum(
                        s,
                        b,
                        true,
                        px as int,
                        10,
                        x,
                        y,
                    ),
                forall|x: int, y: int| in_grid(x, y) ==> base.at(x, y) + 230 < 100000,
        {
            for py in 0..NUM_ROWS
                invariant
                    shots.wf(),
                    heatmap.wf(),
                    s == shots@,
                    b == boat,
                    b != Boat::Empty,
                    len == spec_length(b),
                    2 <= len <= 6,
                    px + len <= 10,
                    forall|x: int, y: int|
                        in_grid(x, y) ==> heatmap.at(x, y) == base.at(x, y) + pass_sum(
                            s,
                            b,
                            true,
                            px as int,
                            10,
                            x,
                            y,
                        ) + col_sum(s, b, true, px as int, py as int, x, y),
                    forall|x: int, y: int| in_grid(x, y) ==> base.at(x, y) + 230 < 100000,
            {
                proof {
                    assert forall|x: int, y: int| in_grid(x, y) implies heatmap@[cell_index(x, y)]
                        < 100000 by {
                        lemma_pass_sum_bound(s, b, true, px as int, 10, x, y);
                        lemma_col_sum_bound(s, b, true, px as int, py as int, x, y);
                    }
                    assert forall|i: int| 0 <= i < 100 implies heatmap@[i] < 100000 by {
                        let p = pos_of_index(i);
                        assert(in_grid(p.x as int, p.y as int));
                        assert(cell_index(p.x as int, p.y as int) == i);
                    }
                }
                update_heatmap(&mut heatmap, shots, boat, true, Pos::new(px, py));
            }
        }

        let ghost mid = heatmap;

        for px in 0..NUM_COLS
            invariant
                shots.wf(),
                heatmap.wf(),
                s == shots@,
                b == boat,
                b != Boat::Empty,
                len == spec_length(b),
                2 <= len <= 6,
                forall|x: int, y: int|
                    in_grid(x, y) ==> mid.at(x, y) == base.at(x, y) + pass_sum(
                        s,
                        b,
                        true,
                        11 - len as int,
                        10,
                        x,
                        y,
                    ),
                forall|x: int, y: int|
                    in_grid(x, y) ==> heatmap.at(x, y) == mid.at(x, y) + pass_sum(
                        s,
                        b,
                        false,
                        px as int,
                        11 - len as int,
                        x,
                        y,
                    ),
                forall|x: int, y: int| in_grid(x, y) ==> base.at(x, y) + 230 < 100000,
        {
            for py in 0..(NUM_ROWS - len + 1)
                invariant
                    shots.wf(),
                    heatmap.wf(),
                    s == shots@,
                    b == boat,
                    b != Boat::Empty,
                    len == spec_length(b),
                    2 <= len <= 6,
                    px < 10,
                    forall|x: int, y: int|
                        in_grid(x, y) ==> mid.at(x, y) == base.at(x, y) + pass_sum(
                            s,
                            b,
                            true,
                            11 - len as int,
                            10,
                            x,
                            y,
                        ),
                    forall|x: int, y: int|
                        in_grid(x, y) ==> heatmap.at(x, y) == mid.at(x, y) + pass_sum(
                            s,
                            b,
                            false,
                            px as int,
                            11 - len as int,
                            x,
                            y,
                        ) + col_sum(s, b, false, px as int, py as int, x, y),
                    forall|x: int, y: int| in_grid(x, y) ==> base.at(x, y) + 230 < 100000,
            {
                proof {
                    assert forall|x: int, y: int| in_grid(x, y) implies heatmap@[cell_index(x, y)]
                        < 100000 by {
                        lemma_pass_sum_bound(s, b, true, 11 - len as int, 10, x, y);
                        lemma_pass_sum_bound(s, b, false, px as int, 11 - len as int, x, y);
                        lemma_col_sum_bound(s, b, false, px as int, py as int, x, y);
                    }
                    assert forall|i: int| 0 <= i < 100 implies heatmap@[i] < 100000 by {
                        let p = pos_of_index(i);
                        assert(in_grid(p.x as int, p.y as int));
                        assert(cell_index(p.x as int, p.y as int) == i);
                    }
                }
                update_heatmap(&mut heatmap, shots, boat, false, Pos::new(px, py));
            }
        }

        proof {
            assert forall|x: int, y: int| in_grid(x, y) implies heatmap.at(x, y)
                == heat_up_to_rank(s, k + 1, x, y) by {
                assert(heat_up_to_rank(s, k + 1, x, y) == heat_up_to_rank(s, k, x, y) + boat_heat(
                    s,
                    b,
                    x,
                    y,
                ));
            }
        }
    }
    heatmap
}

/// The first-contact cell of the heatmap strategy: a legal cell whose heat
/// is the maximum of the whole board, drawn uniformly among them; when the
/// whole map is cold it falls back to a uniformly random legal cell, whose
/// heat is that same zero maximum.
pub fn heatmap_find(shots: &ShotMap) -> (r: Pos)
    requires
        shots.wf(),
        has_legal(shots@),
    ensures
        is_legal(shots@, r.x as int, r.y as int),
        heat(shots@, r.x as int, r.y as int) == max_heat(shots@),
{
    let heatmap = create_heatmap(shots);

    let mut max: usize = 0;
    for n in 0..NUM_CELLS
        invariant
            shots.wf(),
            heatmap.wf(),
            forall|x: int, y: int| in_grid(x, y) ==> heatmap.at(x, y) == heat(shots@, x, y),
            max == max_heat_up_to(shots@, n as int),
    {
        let x = n / 10;
        let y = n % 10;
        proof {
            assert(cell_index(x as int, y as int) == n);
            assert(pos_of_index(n as int) == Pos { x, y });
        }
        let h = heatmap.get(x, y);
        proof {
            assert(in_grid(x as int, y as int));
            assert(heatmap.at(x as int, y as int) == heat(shots@, x as int, y as int));
            assert(heat(shots@, pos_of_index(n as int).x as int, pos_of_index(n as int).y as int)
                == h as nat);
        }
        if h > max {
            max = h;
        }
        proof {
            assert(max == max_heat_up_to(shots@, n as int + 1));
        }
    }

    let mut possible_positions: Vec<Pos> = Vec::new();
    for n in 0..NUM_CELLS
        invariant
            shots.wf(),
            heatmap.wf(),
            forall|x: int, y: int| in_grid(x, y) ==> heatmap.at(x, y) == heat(shots@, x, y),
            max == max_heat(shots@),
            forall|j: int|
                0 <= j < possible_positions@.len() ==> {
                    let p = #[trigger] possible_positions@[j];
                    is_legal(shots@, p.x as int, p.y as int) && heat(shots@, p.x as int, p.y as int)
                        == max_heat(shots@)
                },
            forall|i: int|
                0 <= i < n && shots@[i] is None && heat(
                    shots@,
                    (#[trigger] pos_of_index(i)).x as int,
                    pos_of_index(i).y as int,
                ) == max_heat(shots@) ==> exists|j: int|
                    0 <= j < possible_positions@.len() && possible_positions@[j] == pos_of_index(i),
    {
        let x = n / 10;
        let y = n % 10;
        proof {
            assert(cell_index(x as int, y as int) == n);
            assert(pos_of_index(n as int) == Pos { x, y });
        }
        let ghost old_positions = possible_positions@;
        let h = heatmap.get(x, y);
        let cell = shots.get(x, y);
        let picked = h == max && cell.is_none();
        if picked {
            possible_positions.push(Pos::new(x, y));
        }
        proof {
            assert(in_grid(x as int, y as int));
            assert(heatmap.at(x as int, y as int) == heat(shots@, x as int, y as int));
            assert forall|i: int|
                0 <= i < n + 1 && shots@[i] is None && heat(
                    shots@,
                    (#[trigger] pos_of_index(i)).x as int,
                    pos_of_index(i).y as int,
                ) == max_heat(shots@) implies exists|j: int|
                0 <= j < possible_positions@.len() && possible_positions@[j] == pos_of_index(i) by {
                if i < n {
                    let j = choose|j: int|
                        0 <= j < old_positions.len() && old_positions[j] == pos_of_index(i);
                    assert(possible_positions@[j] == pos_of_index(i));
                } else {
                    assert(shots@[n as int] is None && heat(
                        shots@,
                        pos_of_index(n as int).x as int,
                        pos_of_index(n as int).y as int,
                    ) == max_heat(shots@));
                    assert(picked);
                    assert(possible_positions@[possible_positions@.len() - 1] == pos_of_index(
                        n as int,
                    ));
                }
            }
        }
    }

    proof {
        if max_heat(shots@) > 0 {
            lemma_max_heat_attained(shots@, 100);
            let i = choose|i: int|
                0 <= i < 100 && heat(
                    shots@,
                    (#[trigger] pos_of_index(i)).x as int,
                    pos_of_index(i).y as int,
                ) == max_heat(shots@);
            lemma_heat_unshot(shots@, 5, pos_of_index(i).x as int, pos_of_index(i).y as int);
            assert(cell_index(pos_of_index(i).x as int, pos_of_index(i).y as int) == i);
            assert(shots@[i] is None);
            assert(exists|j: int|
                0 <= j < possible_positions@.len() && possible_positions@[j] == pos_of_index(i));
        } else {
            let i = choose|i: int| 0 <= i < 100 && shots@[i] is None;
            lemma_heat_le_max(shots@, i, 100);
            assert(heat(shots@, pos_of_index(i).x as int, pos_of_index(i).y as int) == max_heat(
                shots@,
            ));
            assert(exists|j: int|
                0 <= j < possible_positions@.len() && possible_positions@[j] == pos_of_index(i));
        }
    }
    let idx = random_range(0, possible_positions.len());
    possible_positions[idx]
}

} // verus!
