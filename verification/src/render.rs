//! How each cell of the board is drawn: a symbol of two columns and a color.

use vstd::prelude::*;

use crate::patterns::{chess_mash, noise};

verus! {

/// The colors the game draws with.
#[derive(PartialEq, Eq, Structural, Clone, Copy, Debug)]
pub enum CellColor {
    Red,
    Yellow,
    Green,
    Black,
}

/// The background of the empty cell in column `x` and row `y`: a solid,
/// dark or light block after the checkerboard and the speckle.
pub open spec fn background_look(x: int, y: int) -> (Seq<char>, CellColor) {
    let chess: int = (x + y) % 2;
    let speckle: int = ((x * y) % 3) % 2;
    if chess == 0 && speckle == 0 {
        ("██"@, CellColor::Black)
    } else if chess == 0 && speckle == 1 {
        ("▓▓"@, CellColor::Black)
    } else {
        ("▒▒"@, CellColor::Black)
    }
}

/// How the cell of value `value` in column `col` and row `row` is drawn, at
/// a given level and snake length `n`: a bomb, the food (an apple at level 1,
/// a pumpkin after), the background, the tail (a heart, when the snake is
/// longer than one cell), or the body (an alien below level 4, an ogre
/// after).
pub open spec fn cell_look(value: i32, level: u16, n: i32, col: int, row: int) -> (
    Seq<char>,
    CellColor,
) {
    if value == -2 {
        ("💣"@, CellColor::Red)
    } else if value == -1 {
        if level < 2 {
            ("🍏"@, CellColor::Red)
        } else {
            ("🎃"@, CellColor::Yellow)
        }
    } else if value == 0 {
        background_look(col, row)
    } else if value == 1 && n != 1 && level < 4 {
        ("💜"@, CellColor::Green)
    } else if value == 1 && n != 1 {
        ("🧡"@, CellColor::Red)
    } else if level < 4 {
        ("👾"@, CellColor::Green)
    } else {
        ("👺"@, CellColor::Red)
    }
}

/// The background goes by the checkerboard first: a cell whose column plus
/// row is odd is always the light block, whatever the speckle; a cell whose
/// column plus row is even is the solid block without the speckle and the
/// dark block with it; all in black.
pub proof fn lemma_background_by_parity(x: int, y: int)
    requires
        0 <= x,
        0 <= y,
    ensures
        (x + y) % 2 == 1 ==> background_look(x, y).0 == "▒▒"@,
        (x + y) % 2 == 0 && ((x * y) % 3) % 2 == 0 ==> background_look(x, y).0 == "██"@,
        (x + y) % 2 == 0 && ((x * y) % 3) % 2 == 1 ==> background_look(x, y).0 == "▓▓"@,
        background_look(x, y).1 == CellColor::Black,
{
}

/// The food is an apple at level 1 and a pumpkin from level 2 on; the body
/// (age 2 or more, or the one cell of a one-cell snake) is an alien below
/// level 4 and an ogre from level 4 on; the tail of a longer snake is a
/// purple heart below level 4 and an orange one from level 4 on; an empty
/// cell shows the background.
pub proof fn lemma_cell_look_by_level(value: i32, level: u16, n: i32, col: int, row: int)
    ensures
        value == -1 && level < 2 ==> cell_look(value, level, n, col, row) == ("🍏"@, CellColor::Red),
        value == -1 && level >= 2 ==> cell_look(value, level, n, col, row) == ("🎃"@, CellColor::Yellow),
        (value > 1 || (value == 1 && n == 1)) && level < 4 ==> cell_look(value, level, n, col, row)
            == ("👾"@, CellColor::Green),
        (value > 1 || (value == 1 && n == 1)) && level >= 4 ==> cell_look(value, level, n, col, row)
            == ("👺"@, CellColor::Red),
        value == 1 && n != 1 && level < 4 ==> cell_look(value, level, n, col, row) == (
            "💜"@,
            CellColor::Green,
        ),
        value == 1 && n != 1 && level >= 4 ==> cell_look(value, level, n, col, row) == (
            "🧡"@,
            CellColor::Red,
        ),
        value == 0 ==> cell_look(value, level, n, col, row) == background_look(col, row),
        value == -2 ==> cell_look(value, level, n, col, row) == ("💣"@, CellColor::Red),
{
}

/// The background of the empty cell in column `x` and row `y`.
pub fn render_background(x: usize, y: usize) -> (r: (&'static str, CellColor))
    requires
        x + y <= usize::MAX,
        x * y <= usize::MAX,
    ensures
        r.0@ == background_look(x as int, y as int).0,
        r.1 == background_look(x as int, y as int).1,
        (x + y) % 2 == 1 ==> r.0@ == "▒▒"@,
        (x + y) % 2 == 0 && ((x * y) % 3) % 2 == 0 ==> r.0@ == "██"@,
        (x + y) % 2 == 0 && ((x * y) % 3) % 2 == 1 ==> r.0@ == "▓▓"@,
        r.1 == CellColor::Black,
{
    let chess: usize = chess_mash(x, y);
    let speckle: usize = noise(x, y);
    if chess == 0 && speckle == 0 {
        ("██", CellColor::Black)
    } else if chess == 0 && speckle == 1 {
        ("▓▓", CellColor::Black)
    } else {
        ("▒▒", CellColor::Black)
    }
}

/// How the cell of value `value` in column `col` and row `row` is drawn.
pub fn cell_symbol(value: i32, level: u16, n: i32, col: usize, row: usize) -> (r: (
    &'static str,
    CellColor,
))
    requires
        col + row <= usize::MAX,
        col * row <= usize::MAX,
    ensures
        r.0@ == cell_look(value, level, n, col as int, row as int).0,
        r.1 == cell_look(value, level, n, col as int, row as int).1,
{
    if value == -2 {
        ("💣", CellColor::Red)
    } else if value == -1 {
        if level < 2 {
            ("🍏", CellColor::Red)
        } else {
            ("🎃", CellColor::Yellow)
        }
    } else if value == 0 {
        render_background(col, row)
    } else if value == 1 && n != 1 && level < 4 {
        ("💜", CellColor::Green)
    } else if value == 1 && n != 1 {
        ("🧡", CellColor::Red)
    } else if level < 4 {
        ("👾", CellColor::Green)
    } else {
        ("👺", CellColor::Red)
    }
}

} // verus!
