//! A plain text dump of the board, for debugging.

use vstd::prelude::*;
use vstd::string::StringExecFns;

use crate::grid::SIZE;

verus! {

/// The character of decimal digit `d`.
pub open spec fn digit(d: int) -> char {
    (48 + d) as char
}

/// The decimal digits of `v`, most significant first.
pub open spec fn digits(v: nat) -> Seq<char>
    decreases v,
{
    if v < 10 {
        seq![digit(v as int)]
    } else {
        digits(v / 10) + seq![digit((v % 10) as int)]
    }
}

/// The decimal text of `v`, with a minus sign when it is negative.
pub open spec fn decimal(v: int) -> Seq<char> {
    if v < 0 {
        seq!['-'] + digits((-v) as nat)
    } else {
        digits(v as nat)
    }
}

/// The texts of the first `k` cells of row `r`, one after the other.
pub open spec fn row_text(b: Seq<i32>, r: int, k: int) -> Seq<char>
    decreases k,
{
    if k <= 0 {
        Seq::empty()
    } else {
        row_text(b, r, k - 1) + decimal(b[r * 17 + k - 1] as int)
    }
}

/// The texts of the first `rows` rows, each ended by a newline.
pub open spec fn board_text(b: Seq<i32>, rows: int) -> Seq<char>
    decreases rows,
{
    if rows <= 0 {
        Seq::empty()
    } else {
        board_text(b, rows - 1) + row_text(b, rows - 1, 17) + seq!['\n']
    }
}

/// Appends the digit `d`.
fn append_digit(text: &mut String, d: u32)
    requires
        d < 10,
    ensures
        final(text)@ == old(text)@ + seq![digit(d as int)],
{
    proof {
        reveal_strlit("0");
        reveal_strlit("1");
        reveal_strlit("2");
        reveal_strlit("3");
        reveal_strlit("4");
        reveal_strlit("5");
        reveal_strlit("6");
        reveal_strlit("7");
        reveal_strlit("8");
        reveal_strlit("9");
    }
    if d == 0 {
        text.append("0");
    } else if d == 1 {
        text.append("1");
    } else if d == 2 {
        text.append("2");
    } else if d == 3 {
        text.append("3");
    } else if d == 4 {
        text.append("4");
    } else if d == 5 {
        text.append("5");
    } else if d == 6 {
        text.append("6");
    } else if d == 7 {
        text.append("7");
    } else if d == 8 {
        text.append("8");
    } else {
        text.append("9");
    }
}

/// Appends the decimal digits of `m`.
fn append_digits(text: &mut String, m: u32)
    ensures
        final(text)@ == old(text)@ + digits(m as nat),
    decreases m,
{
    if m >= 10 {
        append_digits(text, m / 10);
    }
    append_digit(text, m % 10);
    assert(digits(m as nat) =~= if m < 10 {
        seq![digit(m as int)]
    } else {
        digits((m / 10) as nat) + seq![digit((m % 10) as int)]
    });
}

/// The decimal text of `v`, with a leading minus sign when it is negative.
fn decimal_text(v: i32) -> (r: String)
    ensures
        r@ == decimal(v as int),
{
    let mut r = String::new();
    let magnitude: u32 = if v < 0 {
        proof {
            reveal_strlit("-");
        }
        r.append("-");
        (0i64 - v as i64) as u32
    } else {
        v as u32
    };
    append_digits(&mut r, magnitude);
    r
}

/// The board as text: each row of cells as decimal numbers written one after
/// the other, each row ended by a newline.
pub fn ddebug(board: [i32; 289]) -> (result: String)
    ensures
        result@ == board_text(board@, 17),
{
    let mut result = String::new();
    let mut i: usize = 0;
    while i < SIZE
        invariant
            i <= SIZE,
            board@.len() == 289,
            result@ == board_text(board@, i as int),
        decreases SIZE - i,
    {
        let mut j: usize = 0;
        while j < SIZE
            invariant
                i < SIZE,
                j <= SIZE,
                board@.len() == 289,
                result@ == board_text(board@, i as int) + row_text(board@, i as int, j as int),
            decreases SIZE - j,
        {
            let text = decimal_text(board[SIZE * i + j]);
            result.append(text.as_str());
            assert(result@ =~= board_text(board@, i as int) + row_text(board@, i as int, j + 1));
            j = j + 1;
        }
        proof {
            reveal_strlit("\n");
        }
        result.append("\n");
        assert(result@ =~= board_text(board@, i + 1));
        i = i + 1;
    }
    result
}

} // verus!
