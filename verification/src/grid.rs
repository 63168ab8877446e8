//! Board geometry: a square of `SIZE` by `SIZE` cells stored row by row, and
//! the step of one cell in one of the four directions.

use vstd::prelude::*;

verus! {

/// Number of cells on each side of the board.
pub const SIZE: usize = 17;

/// Number of cells on the board.
pub const CELLS: usize = 289;

/// Board value of the cell that holds the food.
pub const FOOD: i32 = -1;

/// Board value of the snake's tail.
pub const CAUDA: i32 = 1;

/// Board value of an empty cell.
pub const VAZIO: i32 = 0;

/// Value of the "next cell" index when no step is pending.
pub const NO_NEXT: usize = 999;

/// The four steps the snake can take, and standing still.
pub open spec fn is_step(offset: int) -> bool {
    offset == 0 || offset == 1 || offset == -1 || offset == 17 || offset == -17
}

/// Row of a cell.
pub open spec fn row_of(i: int) -> int {
    i / 17
}

/// Column of a cell.
pub open spec fn col_of(i: int) -> int {
    i % 17
}

/// Whether a step of `offset` from cell `alfa` leaves the board: a sideways
/// step (`offset` of 1 or -1) leaves it when it crosses the left or right
/// edge; any other step leaves it when the index falls outside the board.
pub open spec fn collides(alfa: int, offset: int) -> bool {
    if offset == 1 || offset == -1 {
        let x: int = col_of(alfa) + offset;
        x < 0 || x >= 17
    } else {
        let y: int = alfa + offset;
        y < 0 || y >= 289
    }
}

/// The cell reached by a step of `offset` from `alfa`, if it stays on the board.
pub open spec fn next_cell(alfa: int, offset: int) -> Option<int> {
    if collides(alfa, offset) {
        None
    } else {
        Some(alfa + offset)
    }
}

/// Row of cell `i`.
pub fn lin(i: u32) -> (r: u32)
    ensures
        r == row_of(i as int),
{
    i / SIZE as u32
}

/// Column of cell `i`.
pub fn col(i: u32) -> (r: u32)
    ensures
        r == col_of(i as int),
{
    i % SIZE as u32
}

/// Row and column of cell `alfa`.
pub fn coord(alfa: u32) -> (r: (u32, u32))
    ensures
        r.0 == row_of(alfa as int),
        r.1 == col_of(alfa as int),
{
    (lin(alfa), col(alfa))
}

/// Cell index of column `a` in row `b`.
pub fn index(a: u32, b: u32) -> (r: usize)
    requires
        b * 17 + a <= usize::MAX,
    ensures
        r == b * 17 + a,
{
    b as usize * SIZE + a as usize
}

/// The cell number as the step arithmetic reads it: its low 32 bits, then
/// the low 16 of those as a signed number. On the board this is the cell
/// number itself.
pub open spec fn index_as_i16(alfa: usize) -> int {
    ((alfa as u32) as i16) as int
}

/// Whether `colide` finds that a step of `offset` from `alfa` leaves the
/// board: a sideways step tests the column (`alfa` taken as a `u32`, modulo
/// 17) plus the step, any other step tests `index_as_i16(alfa)` plus the
/// step. On board cells this is `collides`.
pub open spec fn step_collides(alfa: usize, offset: i16) -> bool {
    if offset == 1 || offset == -1 {
        let x: int = ((alfa as u32) % 17) as int + offset;
        x < 0 || x >= 17
    } else {
        let y: int = index_as_i16(alfa) + offset;
        y < 0 || y >= 289
    }
}

/// The cell that `compute_proximo` gives for a step of `offset` from
/// `alfa`: none where the step collides or its target lies off the board.
pub open spec fn step_target(alfa: usize, offset: i16) -> Option<int> {
    if step_collides(alfa, offset) {
        None
    } else {
        let r: int = index_as_i16(alfa) + offset;
        if 0 <= r < 289 {
            Some(r)
        } else {
            None
        }
    }
}

/// The arithmetic of a step stays within `i16`: the step is not `i16::MIN`
/// and neither the column nor the index plus the step overflows.
pub open spec fn step_in_range(alfa: usize, offset: i16) -> bool {
    &&& offset > i16::MIN
    &&& ((alfa as u32) % 17) as int + offset <= i16::MAX
    &&& i16::MIN <= index_as_i16(alfa) + offset <= i16::MAX
}

/// Whether a step of `offset` from cell `alfa` would leave the board.
pub fn colide(alfa: usize, offset: i16) -> (r: bool)
    requires
        step_in_range(alfa, offset),
    ensures
        r == step_collides(alfa, offset),
        alfa < CELLS ==> r == collides(alfa as int, offset as int),
{
    let index: u32 = alfa as u32;
    let x: i16 = col(index) as i16 + offset;
    let y: i16 = index as i16 + offset;

    let out_of_bounds_x = x < 0 || x >= SIZE as i16;
    let out_of_bounds_y = y < 0 || y >= (SIZE * SIZE) as i16;

    if offset == 1 || offset == -1 {
        out_of_bounds_x
    } else {
        out_of_bounds_y
    }
}

/// The cell reached by a step of `offset` from cell `alfa`, or `None` where
/// the step would leave the board.
pub fn compute_proximo(alfa: usize, offset: i16) -> (r: Option<usize>)
    requires
        step_in_range(alfa, offset),
    ensures
        r matches Some(p) ==> step_target(alfa, offset) == Some(p as int),
        r is None ==> step_target(alfa, offset) is None,
        r matches Some(p) ==> p < CELLS,
        alfa < CELLS ==> (r matches Some(p) ==> next_cell(alfa as int, offset as int) == Some(
            p as int,
        )),
        alfa < CELLS ==> (r is None ==> next_cell(alfa as int, offset as int) is None),
{
    if colide(alfa, offset) {
        return None;
    }
    assert((alfa as i16) == ((alfa as u32) as i16)) by (bit_vector);
    let result: i16 = alfa as i16 + offset;
    if result >= 0 && result < (SIZE * SIZE) as i16 {
        Some(result as usize)
    } else {
        None
    }
}

/// Two cells side by side: in the same row and next to each other, or in
/// the same column and next to each other.
pub open spec fn adjacent(c: int, d: int) -> bool {
    (d == c + 17 || c == d + 17) || (row_of(c) == row_of(d) && (d == c + 1 || c == d + 1))
}

/// A step that stays on the board lands on a cell adjacent to where it
/// started.
pub proof fn lemma_step_is_adjacent(alfa: int, offset: int)
    requires
        0 <= alfa < 289,
        is_step(offset),
        offset != 0,
        !collides(alfa, offset),
    ensures
        adjacent(alfa, alfa + offset),
        0 <= alfa + offset < 289,
{
    lemma_step_stays_on_grid(alfa, offset);
}

/// Row and column of `(x, y)` steps for each of the four directions.
pub open spec fn step_delta(offset: int) -> (int, int) {
    if offset == 1 {
        (0, 1)
    } else if offset == -1 {
        (0, -1)
    } else if offset == 17 {
        (1, 0)
    } else if offset == -17 {
        (-1, 0)
    } else {
        (0, 0)
    }
}

/// A cell index and its (row, column) pair determine each other:
/// `index(col(i), lin(i)) == i` on the board, and `lin`, `col` give back the
/// row and column that `index` was built from.
pub proof fn lemma_index_coord_roundtrip(i: int, a: int, b: int)
    requires
        0 <= i < 289,
        0 <= a < 17,
        0 <= b < 17,
    ensures
        row_of(i) * 17 + col_of(i) == i,
        0 <= row_of(i) < 17,
        0 <= col_of(i) < 17,
        row_of(b * 17 + a) == b,
        col_of(b * 17 + a) == a,
{
}

/// A step never wraps around the board: a step from a board cell collides
/// exactly when the (row, column) it aims at lies off the board, and
/// otherwise it lands on the cell one row or one column away, in the
/// direction of the step.
pub proof fn lemma_step_stays_on_grid(alfa: int, offset: int)
    requires
        0 <= alfa < 289,
        is_step(offset),
    ensures
        ({
            let (dr, dc): (int, int) = step_delta(offset);
            let r: int = row_of(alfa) + dr;
            let c: int = col_of(alfa) + dc;
            &&& collides(alfa, offset) <==> !(0 <= r < 17 && 0 <= c < 17)
            &&& !collides(alfa, offset) ==> {
                &&& 0 <= alfa + offset < 289
                &&& row_of(alfa + offset) == r
                &&& col_of(alfa + offset) == c
            }
        }),
{
}

} // verus!
