//! A coordinate on the 10x10 board.

use vstd::prelude::*;

verus! {

/// Number of rows of a board.
pub const NUM_ROWS: usize = 10;

/// Number of columns of a board.
pub const NUM_COLS: usize = 10;

/// Number of cells of a board.
pub const NUM_CELLS: usize = 100;

/// An x and y for a position on a board, both zero based.
#[derive(Clone, Copy, Debug, PartialEq, Eq, Structural)]
pub struct Pos {
    pub x: usize,
    pub y: usize,
}

impl Pos {
    /// Builds the position (x, y).
    pub fn new(x: usize, y: usize) -> (r: Self)
        ensures
            r.x == x,
            r.y == y,
    {
        Self { x, y }
    }
}

/// True iff (x, y) lies on the board.
pub open spec fn in_grid(x: int, y: int) -> bool {
    0 <= x < 10 && 0 <= y < 10
}

/// The flat index of the cell (x, y): boards are stored column by column,
/// x outermost, y innermost.
pub open spec fn cell_index(x: int, y: int) -> int {
    x * 10 + y
}

/// True iff the position lies on the board.
pub open spec fn pos_on_board(p: Pos) -> bool {
    p.x < 10 && p.y < 10
}

/// The position stored at a flat index.
pub open spec fn pos_of_index(i: int) -> Pos {
    Pos { x: (i / 10) as usize, y: (i % 10) as usize }
}

} // verus!
