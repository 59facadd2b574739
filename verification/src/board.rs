//! The two boards of a player: boat placements and fired shots.
//!
//! Both are stored as flat vectors of 100 cells, column by column (x
//! outermost, y innermost), the scan order every strategy relies on.

use vstd::prelude::*;

use crate::boat::{Boat, fleet, fleet_cells, spec_length};
use crate::pos::{cell_index, in_grid, NUM_CELLS};
use crate::shot::Shot;

verus! {

/// Records which boat, if any, stands on each cell of a player's own grid.
pub struct BoatMap {
    cells: Vec<Boat>,
}

/// Records the outcome of every shot a player has fired at the opponent:
/// `None` where it has not fired yet.
pub struct ShotMap {
    cells: Vec<Option<Shot>>,
}

impl View for BoatMap {
    type V = Seq<Boat>;

    closed spec fn view(&self) -> Seq<Boat> {
        self.cells@
    }
}

impl View for ShotMap {
    type V = Seq<Option<Shot>>;

    closed spec fn view(&self) -> Seq<Option<Shot>> {
        self.cells@
    }
}

impl BoatMap {
    /// A board is well formed when it has exactly one cell per grid position.
    pub open spec fn wf(&self) -> bool {
        self@.len() == 100
    }

    /// The boat on cell (x, y).
    pub open spec fn at(&self, x: int, y: int) -> Boat {
        self@[cell_index(x, y)]
    }

    /// A board with no boats placed.
    pub fn empty() -> (r: Self)
        ensures
            r.wf(),
            forall|i: int| 0 <= i < 100 ==> r@[i] == Boat::Empty,
    {
        let mut cells: Vec<Boat> = Vec::new();
        for n in 0..NUM_CELLS
            invariant
                cells@.len() == n,
                forall|i: int| 0 <= i < n ==> cells@[i] == Boat::Empty,
        {
            cells.push(Boat::Empty);
        }
        BoatMap { cells }
    }

    /// The boat on cell (x, y).
    pub fn get(&self, x: usize, y: usize) -> (r: Boat)
        requires
            self.wf(),
            x < 10,
            y < 10,
        ensures
            r == self.at(x as int, y as int),
    {
        self.cells[x * 10 + y]
    }

    /// True iff a shot at (x, y) would hit a boat.
    pub fn is_hit(&self, x: usize, y: usize) -> (r: bool)
        requires
            self.wf(),
            x < 10,
            y < 10,
        ensures
            r == (self.at(x as int, y as int) != Boat::Empty),
    {
        self.get(x, y).has_some()
    }

    /// Puts `boat` on cell (x, y).
    pub fn set(&mut self, x: usize, y: usize, boat: Boat)
        requires
            old(self).wf(),
            x < 10,
            y < 10,
        ensures
            final(self)@ == old(self)@.update(cell_index(x as int, y as int), boat),
            final(self).wf(),
    {
        self.cells.set(x * 10 + y, boat);
    }

    /// A fresh board with the same cells.
    pub fn duplicate(&self) -> (r: Self)
        requires
            self.wf(),
        ensures
            r@ == self@,
    {
        let mut cells: Vec<Boat> = Vec::new();
        for n in 0..NUM_CELLS
            invariant
                self.wf(),
                cells@.len() == n,
                forall|i: int| 0 <= i < n ==> cells@[i] == self@[i],
        {
            cells.push(self.cells[n]);
        }
        let r = BoatMap { cells };
        proof {
            assert(r@ =~= self@);
        }
        r
    }
}

impl ShotMap {
    /// A board is well formed when it has exactly one cell per grid position.
    pub open spec fn wf(&self) -> bool {
        self@.len() == 100
    }

    /// The outcome recorded on cell (x, y).
    pub open spec fn at(&self, x: int, y: int) -> Option<Shot> {
        self@[cell_index(x, y)]
    }

    /// A board with no shots fired.
    pub fn empty() -> (r: Self)
        ensures
            r.wf(),
            forall|i: int| 0 <= i < 100 ==> r@[i] is None,
    {
        let mut cells: Vec<Option<Shot>> = Vec::new();
        for n in 0..NUM_CELLS
            invariant
                cells@.len() == n,
                forall|i: int| 0 <= i < n ==> cells@[i] is None,
        {
            cells.push(None);
        }
        ShotMap { cells }
    }

    /// The outcome recorded on cell (x, y).
    pub fn get(&self, x: usize, y: usize) -> (r: Option<Shot>)
        requires
            self.wf(),
            x < 10,
            y < 10,
        ensures
            r == self.at(x as int, y as int),
    {
        self.cells[x * 10 + y]
    }

    /// Records the outcome of a shot at (x, y).
    pub fn set(&mut self, x: usize, y: usize, shot: Shot)
        requires
            old(self).wf(),
            x < 10,
            y < 10,
        ensures
            final(self)@ == old(self)@.update(cell_index(x as int, y as int), Some(shot)),
            final(self).wf(),
    {
        self.cells.set(x * 10 + y, Some(shot));
    }

    /// A fresh board with the same cells.
    pub fn duplicate(&self) -> (r: Self)
        requires
            self.wf(),
        ensures
            r@ == self@,
    {
        let mut cells: Vec<Option<Shot>> = Vec::new();
        for n in 0..NUM_CELLS
            invariant
                self.wf(),
                cells@.len() == n,
                forall|i: int| 0 <= i < n ==> cells@[i] == self@[i],
        {
            cells.push(self.cells[n]);
        }
        let r = ShotMap { cells };
        proof {
            assert(r@ =~= self@);
        }
        r
    }
}

/// True iff the placement of a boat at origin (px, py) in the given
/// orientation, cut down to its first k cells, covers the cell (x, y).
pub open spec fn covers_prefix(horiz: bool, px: int, py: int, k: int, x: int, y: int) -> bool {
    if horiz {
        y == py && px <= x < px + k
    } else {
        x == px && py <= y < py + k
    }
}

/// True iff the whole placement of `b` at (px, py) covers the cell (x, y).
pub open spec fn covers(b: Boat, horiz: bool, px: int, py: int, x: int, y: int) -> bool {
    covers_prefix(horiz, px, py, spec_length(b) as int, x, y)
}

/// The flat index of the placement's cell at the given offset from its
/// origin.
pub open spec fn covered_index(horiz: bool, px: int, py: int, off: int) -> int {
    if horiz {
        cell_index(px + off, py)
    } else {
        cell_index(px, py + off)
    }
}

/// One if the cell records a hit.
pub open spec fn hit_one(c: Option<Shot>) -> nat {
    if c matches Some(Shot::Hit(_)) {
        1
    } else {
        0
    }
}

/// One if the cell records any shot.
pub open spec fn shot_one(c: Option<Shot>) -> nat {
    if c is Some {
        1
    } else {
        0
    }
}

/// One if the cell holds the given boat.
pub open spec fn boat_one(c: Boat, boat: Boat) -> nat {
    if c == boat {
        1
    } else {
        0
    }
}

/// One if the cell holds any boat.
pub open spec fn occupied_one(c: Boat) -> nat {
    if c != Boat::Empty {
        1
    } else {
        0
    }
}

/// Number of hits recorded among the first n cells.
pub open spec fn count_hits_up_to(s: Seq<Option<Shot>>, n: int) -> nat
    decreases n,
{
    if n <= 0 {
        0
    } else {
        count_hits_up_to(s, n - 1) + hit_one(s[n - 1])
    }
}

/// Number of hits recorded on the whole board.
pub open spec fn count_hits(s: Seq<Option<Shot>>) -> nat {
    count_hits_up_to(s, 100)
}

/// Number of shots recorded among the first n cells.
pub open spec fn count_shots_up_to(s: Seq<Option<Shot>>, n: int) -> nat
    decreases n,
{
    if n <= 0 {
        0
    } else {
        count_shots_up_to(s, n - 1) + shot_one(s[n - 1])
    }
}

/// Number of shots recorded on the whole board.
pub open spec fn count_shots(s: Seq<Option<Shot>>) -> nat {
    count_shots_up_to(s, 100)
}

/// Number of cells holding the given boat among the first n cells.
pub open spec fn count_boat_up_to(b: Seq<Boat>, boat: Boat, n: int) -> nat
    decreases n,
{
    if n <= 0 {
        0
    } else {
        count_boat_up_to(b, boat, n - 1) + boat_one(b[n - 1], boat)
    }
}

/// Number of cells holding the given boat on the whole board.
pub open spec fn count_boat(b: Seq<Boat>, boat: Boat) -> nat {
    count_boat_up_to(b, boat, 100)
}

/// Number of occupied cells among the first n cells.
pub open spec fn count_occupied_up_to(b: Seq<Boat>, n: int) -> nat
    decreases n,
{
    if n <= 0 {
        0
    } else {
        count_occupied_up_to(b, n - 1) + occupied_one(b[n - 1])
    }
}

/// A boat board is valid when every boat of the fleet covers exactly as many
/// cells as its length.
pub open spec fn valid_boats(b: Seq<Boat>) -> bool {
    forall|k: int|
        0 <= k < 5 ==> count_boat(b, #[trigger] fleet()[k]) == spec_length(fleet()[k])
}

/// A shot at (x, y) is legal when the cell lies on the board and has not
/// been fired upon.
pub open spec fn is_legal(s: Seq<Option<Shot>>, x: int, y: int) -> bool {
    in_grid(x, y) && s[cell_index(x, y)] is None
}

/// Some legal shot is left on the board.
pub open spec fn has_legal(s: Seq<Option<Shot>>) -> bool {
    exists|i: int| 0 <= i < 100 && s[i] is None
}

/// A shot board is consistent with the opponent's boat board when every
/// recorded hit names the boat standing on that cell and every recorded miss
/// marks an unoccupied cell.
pub open spec fn consistent_cell(b: Boat, c: Option<Shot>) -> bool {
    match c {
        None => true,
        Some(Shot::Miss) => b == Boat::Empty,
        Some(Shot::Hit(hb)) => b != Boat::Empty && hb == b,
    }
}

/// The whole-board consistency of a shot board with the boat board it fires
/// at.
pub open spec fn consistent(b: Seq<Boat>, s: Seq<Option<Shot>>) -> bool {
    forall|i: int| 0 <= i < 100 ==> consistent_cell(b[i], #[trigger] s[i])
}

/// The shot board b is a with exactly one new outcome recorded on a cell
/// that had none: how a player's board grows on each of its turns.
pub open spec fn grows_by_one_shot(a: Seq<Option<Shot>>, b: Seq<Option<Shot>>) -> bool {
    exists|i: int|
        0 <= i < 100 && (#[trigger] a[i]) is None && b[i] is Some && (forall|j: int|
            0 <= j < 100 && j != i ==> a[j] == #[trigger] b[j])
}

/// A count over a prefix never exceeds the prefix length.
pub proof fn lemma_count_shots_bound(s: Seq<Option<Shot>>, n: int)
    requires
        0 <= n,
    ensures
        count_shots_up_to(s, n) <= n,
    decreases n,
{
    if n > 0 {
        lemma_count_shots_bound(s, n - 1);
    }
}

/// Hits are a subset of shots.
pub proof fn lemma_hits_le_shots(s: Seq<Option<Shot>>, n: int)
    requires
        0 <= n,
    ensures
        count_hits_up_to(s, n) <= count_shots_up_to(s, n),
    decreases n,
{
    if n > 0 {
        lemma_hits_le_shots(s, n - 1);
    }
}

/// How one updated cell changes the hit count.
pub proof fn lemma_count_hits_update(s: Seq<Option<Shot>>, i: int, v: Option<Shot>, n: int)
    requires
        0 <= i < s.len(),
        0 <= n <= s.len(),
    ensures
        i < n ==> count_hits_up_to(s.update(i, v), n) + hit_one(s[i])
            == count_hits_up_to(s, n) + hit_one(v),
        i >= n ==> count_hits_up_to(s.update(i, v), n) == count_hits_up_to(s, n),
    decreases n,
{
    if n > 0 {
        lemma_count_hits_update(s, i, v, n - 1);
    }
}

/// How one updated cell changes the shot count.
pub proof fn lemma_count_shots_update(s: Seq<Option<Shot>>, i: int, v: Option<Shot>, n: int)
    requires
        0 <= i < s.len(),
        0 <= n <= s.len(),
    ensures
        i < n ==> count_shots_up_to(s.update(i, v), n) + shot_one(s[i])
            == count_shots_up_to(s, n) + shot_one(v),
        i >= n ==> count_shots_up_to(s.update(i, v), n) == count_shots_up_to(s, n),
    decreases n,
{
    if n > 0 {
        lemma_count_shots_update(s, i, v, n - 1);
    }
}

/// How one updated cell changes the count of a boat.
pub proof fn lemma_count_boat_update(b: Seq<Boat>, boat: Boat, i: int, v: Boat, n: int)
    requires
        0 <= i < b.len(),
        0 <= n <= b.len(),
    ensures
        i < n ==> count_boat_up_to(b.update(i, v), boat, n) + boat_one(b[i], boat)
            == count_boat_up_to(b, boat, n) + boat_one(v, boat),
        i >= n ==> count_boat_up_to(b.update(i, v), boat, n) == count_boat_up_to(b, boat, n),
    decreases n,
{
    if n > 0 {
        lemma_count_boat_update(b, boat, i, v, n - 1);
    }
}

/// On a board with no shots both counts are zero.
pub proof fn lemma_counts_empty(s: Seq<Option<Shot>>, n: int)
    requires
        0 <= n,
        forall|i: int| 0 <= i < n ==> s[i] is None,
    ensures
        count_hits_up_to(s, n) == 0,
        count_shots_up_to(s, n) == 0,
    decreases n,
{
    if n > 0 {
        lemma_counts_empty(s, n - 1);
    }
}

/// A boat whose count is zero stands on no cell.
pub proof fn lemma_count_boat_zero(b: Seq<Boat>, boat: Boat, n: int)
    requires
        0 <= n,
        count_boat_up_to(b, boat, n) == 0,
    ensures
        forall|i: int| 0 <= i < n ==> b[i] != boat,
    decreases n,
{
    if n > 0 {
        lemma_count_boat_zero(b, boat, n - 1);
    }
}

/// On a board with no boats every boat count is zero.
pub proof fn lemma_count_boat_empty(b: Seq<Boat>, boat: Boat, n: int)
    requires
        0 <= n,
        boat != Boat::Empty,
        forall|i: int| 0 <= i < n ==> b[i] == Boat::Empty,
    ensures
        count_boat_up_to(b, boat, n) == 0,
    decreases n,
{
    if n > 0 {
        lemma_count_boat_empty(b, boat, n - 1);
    }
}

/// Occupied cells split by the boat that stands on them: the five per-boat
/// counts sum to the count of occupied cells.
proof fn lemma_occupied_is_fleet_sum(b: Seq<Boat>, n: int)
    requires
        0 <= n,
    ensures
        count_occupied_up_to(b, n) == count_boat_up_to(b, Boat::Destroyer, n)
            + count_boat_up_to(b, Boat::Submarine, n) + count_boat_up_to(b, Boat::Cruiser, n)
            + count_boat_up_to(b, Boat::Battleship, n) + count_boat_up_to(b, Boat::Carrier, n),
    decreases n,
{
    if n > 0 {
        lemma_occupied_is_fleet_sum(b, n - 1);
    }
}

/// A valid fleet occupies exactly 17 cells.
pub proof fn lemma_valid_boats_occupy_fleet_cells(b: Seq<Boat>)
    requires
        valid_boats(b),
    ensures
        count_occupied_up_to(b, 100) == fleet_cells(),
{
    lemma_occupied_is_fleet_sum(b, 100);
    assert(count_boat(b, fleet()[0]) == spec_length(fleet()[0]));
    assert(count_boat(b, fleet()[1]) == spec_length(fleet()[1]));
    assert(count_boat(b, fleet()[2]) == spec_length(fleet()[2]));
    assert(count_boat(b, fleet()[3]) == spec_length(fleet()[3]));
    assert(count_boat(b, fleet()[4]) == spec_length(fleet()[4]));
}

/// Number of occupied cells already fired upon, among the first n cells.
spec fn count_occupied_shot_up_to(b: Seq<Boat>, s: Seq<Option<Shot>>, n: int) -> nat
    decreases n,
{
    if n <= 0 {
        0
    } else {
        count_occupied_shot_up_to(b, s, n - 1)
            + if b[n - 1] != Boat::Empty && s[n - 1] is Some {
                1nat
            } else {
                0nat
            }
    }
}

/// On a consistent pair of boards, the hits are exactly the shots on
/// occupied cells.
proof fn lemma_hits_are_occupied_shots(b: Seq<Boat>, s: Seq<Option<Shot>>, n: int)
    requires
        0 <= n <= 100,
        consistent(b, s),
    ensures
        count_hits_up_to(s, n) == count_occupied_shot_up_to(b, s, n),
    decreases n,
{
    if n > 0 {
        lemma_hits_are_occupied_shots(b, s, n - 1);
        assert(consistent_cell(b[n - 1], s[n - 1]));
    }
}

/// If every occupied cell among the first n has been fired upon, the counts
/// agree.
proof fn lemma_all_occupied_shot(b: Seq<Boat>, s: Seq<Option<Shot>>, n: int)
    requires
        0 <= n,
        forall|i: int| 0 <= i < n && b[i] != Boat::Empty ==> #[trigger] s[i] is Some,
    ensures
        count_occupied_shot_up_to(b, s, n) == count_occupied_up_to(b, n),
    decreases n,
{
    if n > 0 {
        lemma_all_occupied_shot(b, s, n - 1);
    }
}

/// Only occupied cells can be hit.
proof fn lemma_occupied_shot_le_occupied(b: Seq<Boat>, s: Seq<Option<Shot>>, n: int)
    requires
        0 <= n,
    ensures
        count_occupied_shot_up_to(b, s, n) <= count_occupied_up_to(b, n),
    decreases n,
{
    if n > 0 {
        lemma_occupied_shot_le_occupied(b, s, n - 1);
    }
}

/// Against a valid fleet, a consistent shot board records at most 17 hits.
pub proof fn lemma_hits_bounded(b: Seq<Boat>, s: Seq<Option<Shot>>)
    requires
        valid_boats(b),
        consistent(b, s),
    ensures
        count_hits(s) <= fleet_cells(),
{
    lemma_hits_are_occupied_shots(b, s, 100);
    lemma_occupied_shot_le_occupied(b, s, 100);
    lemma_valid_boats_occupy_fleet_cells(b);
}

/// While a player has hit fewer than the fleet's 17 cells, some boat cell of
/// the opponent is still unfired upon, so a legal shot is left.
pub proof fn lemma_no_winner_has_legal(b: Seq<Boat>, s: Seq<Option<Shot>>)
    requires
        valid_boats(b),
        consistent(b, s),
        count_hits(s) < fleet_cells(),
    ensures
        exists|i: int| 0 <= i < 100 && b[i] != Boat::Empty && s[i] is None,
        has_legal(s),
{
    if forall|i: int| 0 <= i < 100 && b[i] != Boat::Empty ==> #[trigger] s[i] is Some {
        lemma_hits_are_occupied_shots(b, s, 100);
        lemma_all_occupied_shot(b, s, 100);
        lemma_valid_boats_occupy_fleet_cells(b);
        assert(false);
    }
    let i = choose|i: int| !(0 <= i < 100 && b[i] != Boat::Empty ==> s[i] is Some);
    assert(0 <= i < 100 && b[i] != Boat::Empty && s[i] is None);
}

} // verus!
