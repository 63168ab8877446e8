//! Whole-board operations: the snake's cells hold their age (1 at the tail,
//! `n` at the head), the food holds `FOOD`, empty cells hold `VAZIO`.

use vstd::prelude::*;

use crate::grid::{adjacent, col_of, row_of, CELLS, CAUDA, FOOD, VAZIO};
use vstd::relations::injective_on;
use vstd::set_lib::{lemma_int_range, lemma_len_subset, lemma_map_size, set_int_range};

verus! {

/// One cell after the snake advances: every snake cell ages by one.
pub open spec fn aged(v: i32) -> i32 {
    if v >= CAUDA {
        (v - 1) as i32
    } else {
        v
    }
}

/// The board after every snake cell has aged by one.
pub open spec fn aged_board(b: Seq<i32>) -> Seq<i32> {
    Seq::new(b.len(), |i: int| aged(b[i]))
}

/// One cell after the snake turns back: a snake cell of age `v` gets
/// `tone - v`, so that head and tail swap.
pub open spec fn turned(v: i32, tone: int) -> i32 {
    if v > VAZIO {
        (tone - v) as i32
    } else {
        v
    }
}

/// The board after the snake turns back with `tone` (the snake's length plus one).
pub open spec fn turned_board(b: Seq<i32>, tone: int) -> Seq<i32> {
    Seq::new(b.len(), |i: int| turned(b[i], tone))
}

/// The cells of the trophy drawn when the game is won: a checkerboard of the
/// five by five square of rows and columns 6 to 10.
pub open spec fn is_trophy_cell(i: int) -> bool {
    let x: int = col_of(i);
    let y: int = row_of(i);
    6 <= x < 11 && 6 <= y < 11 && (x + y) % 2 == 0
}

/// The board with the trophy drawn in value `n`.
pub open spec fn trophy_board(b: Seq<i32>, n: i32) -> Seq<i32> {
    Seq::new(b.len(), |i: int| if is_trophy_cell(i) { n } else { b[i] })
}

/// The first cell holding `v`, if any.
pub open spec fn first_index_of(b: Seq<i32>, v: i32) -> Option<int> {
    if exists|i: int| 0 <= i < b.len() && b[i] == v && forall|j: int| 0 <= j < i ==> b[j] != v {
        Some(
            choose|i: int| 0 <= i < b.len() && b[i] == v && forall|j: int| 0 <= j < i ==> b[j] != v,
        )
    } else {
        None
    }
}

/// The empty cells of the board, in increasing order.
pub open spec fn empty_cells(b: Seq<i32>) -> Seq<usize>
    decreases b.len(),
{
    if b.len() == 0 {
        Seq::empty()
    } else if b.last() == VAZIO {
        empty_cells(b.drop_last()).push((b.len() - 1) as usize)
    } else {
        empty_cells(b.drop_last())
    }
}

/// Each listed empty cell lies on the board, holds `VAZIO`, and the list
/// goes strictly up.
pub proof fn lemma_empty_cells_are_empty(b: Seq<i32>)
    requires
        b.len() <= usize::MAX,
    ensures
        forall|k: int|
            0 <= k < empty_cells(b).len() ==> {
                &&& #[trigger] empty_cells(b)[k] < b.len()
                &&& b[empty_cells(b)[k] as int] == VAZIO
            },
        forall|k: int, l: int|
            0 <= k < l < empty_cells(b).len() ==> empty_cells(b)[k] < empty_cells(b)[l],
        empty_cells(b).len() <= b.len(),
    decreases b.len(),
{
    if b.len() > 0 {
        let p = b.drop_last();
        lemma_empty_cells_are_empty(p);
        assert forall|k: int| 0 <= k < empty_cells(p).len() implies b[empty_cells(p)[k] as int]
            == p[empty_cells(p)[k] as int] by {}
    }
}

/// Every empty cell of the board is listed.
pub proof fn lemma_empty_cells_complete(b: Seq<i32>, c: int)
    requires
        b.len() <= usize::MAX,
        0 <= c < b.len(),
        b[c] == VAZIO,
    ensures
        empty_cells(b).contains(c as usize),
    decreases b.len(),
{
    if c == b.len() - 1 {
        assert(empty_cells(b).last() == c as usize);
    } else {
        let p = b.drop_last();
        lemma_empty_cells_complete(p, c);
        let k: int = choose|k: int| 0 <= k < empty_cells(p).len() && empty_cells(p)[k] == c as usize;
        assert(empty_cells(b)[k] == c as usize);
    }
}

/// The empty cells of the board, in increasing order.
pub fn free_cells(board: &[i32; 289]) -> (r: Vec<usize>)
    ensures
        r@ == empty_cells(board@),
{
    let mut r: Vec<usize> = Vec::new();
    let mut i: usize = 0;
    while i < CELLS
        invariant
            i <= CELLS,
            board@.len() == CELLS,
            r@ == empty_cells(board@.take(i as int)),
        decreases CELLS - i,
    {
        assert(board@.take(i + 1).drop_last() =~= board@.take(i as int));
        if board[i] == VAZIO {
            r.push(i);
        }
        i = i + 1;
    }
    assert(board@.take(CELLS as int) =~= board@);
    r
}

/// The first cell of the board that holds `v`, if any.
pub fn first_cell_with(board: &[i32; 289], v: i32) -> (r: Option<usize>)
    ensures
        r matches Some(i) ==> first_index_of(board@, v) == Some(i as int),
        r is None ==> first_index_of(board@, v) is None,
{
    let mut i: usize = 0;
    while i < CELLS
        invariant
            i <= CELLS,
            board@.len() == CELLS,
            forall|j: int| 0 <= j < i ==> board@[j] != v,
        decreases CELLS - i,
    {
        if board[i] == v {
            let ghost b = board@;
            assert(0 <= i < b.len() && b[i as int] == v && forall|j: int| 0 <= j < i ==> b[j] != v);
            let ghost c = choose|c: int|
                0 <= c < b.len() && b[c] == v && forall|j: int| 0 <= j < c ==> b[j] != v;
            assert(c == i) by {
                if c < i {
                    assert(b[c] != v);
                } else if c > i {
                    assert(b[i as int] != v);
                }
            }
            return Some(i);
        }
        i = i + 1;
    }
    None
}

/// Some cell of the board has age `a`.
pub open spec fn has_age(b: Seq<i32>, a: int) -> bool {
    exists|c: int| 0 <= c < b.len() && b[c] == a
}

/// The board shows one snake of length `n`: every age from 1 to `n` is on
/// exactly one cell, no cell is older than `n`, and cells of consecutive
/// ages are adjacent on the board.
pub open spec fn is_snake(b: Seq<i32>, n: int) -> bool {
    &&& forall|c: int| 0 <= c < b.len() ==> #[trigger] b[c] <= n
    &&& forall|a: int| 1 <= a <= n ==> #[trigger] has_age(b, a)
    &&& forall|c: int, d: int|
        0 <= c < b.len() && 0 <= d < b.len() && #[trigger] b[c] > 0 && #[trigger] b[d] == b[c]
            ==> c == d
    &&& forall|c: int, d: int|
        0 <= c < b.len() && 0 <= d < b.len() && #[trigger] b[c] > 0 && #[trigger] b[d] == b[c]
            + 1 ==> adjacent(c, d)
}

/// On a board that shows a snake, the first cell of age 1 is its tail, the
/// one cell of age 1.
pub proof fn lemma_tail_is_first(b: Seq<i32>, n: int)
    requires
        is_snake(b, n),
        n >= 1,
    ensures
        first_index_of(b, CAUDA) is Some,
        b[first_index_of(b, CAUDA)->0] == CAUDA,
        0 <= first_index_of(b, CAUDA)->0 < b.len(),
{
    assert(has_age(b, 1));
    let t: int = choose|c: int| 0 <= c < b.len() && b[c] == 1;
    assert forall|j: int| 0 <= j < t implies b[j] != CAUDA by {
        if b[j] == CAUDA {
            assert(b[t] > 0 && b[j] == b[t]);
        }
    }
}

/// Where a snake shorter than the board covers every cell it does not
/// leave empty or give the food, some cell is left empty.
pub proof fn lemma_room_left(b: Seq<i32>, m: int)
    requires
        is_snake(b, m),
        0 <= m < b.len(),
        forall|c: int| 0 <= c < b.len() ==> #[trigger] b[c] >= VAZIO,
    ensures
        exists|c: int| 0 <= c < b.len() && b[c] == VAZIO,
{
    if forall|c: int| 0 <= c < b.len() ==> b[c] != VAZIO {
        let x = set_int_range(0, b.len() as int);
        let f = |c: int| b[c] as int;
        let y = x.map(f);
        lemma_int_range(0, b.len() as int);
        assert(injective_on(f, x)) by {
            assert forall|c: int, d: int| x.contains(c) && x.contains(d) && #[trigger] f(c)
                == #[trigger] f(d) implies c == d by {
                assert(b[c] > 0 && b[d] == b[c]);
            }
        }
        lemma_map_size(x, y, f);
        lemma_int_range(1, m + 1);
        assert(y.subset_of(set_int_range(1, m + 1))) by {
            assert forall|v: int| y.contains(v) implies set_int_range(1, m + 1).contains(v) by {
                let c = choose|c: int| x.contains(c) && f(c) == v;
                assert(b[c] <= m);
            }
        }
        lemma_len_subset(y, set_int_range(1, m + 1));
        assert(false);
    }
}

/// Advancing keeps the snake whole: where the snake steps onto an empty
/// cell or onto its own tail, next to (or onto) the cell of age `n`, every
/// cell ages and the new cell gets age `n`, the board again shows one snake
/// of length `n`.
pub proof fn lemma_advance_keeps_snake(b: Seq<i32>, n: int, p: int)
    requires
        is_snake(b, n),
        1 <= n <= i32::MAX,
        0 <= p < b.len(),
        b[p] == VAZIO || b[p] == CAUDA,
        forall|c: int| 0 <= c < b.len() && b[c] == n ==> c == p || adjacent(c, p),
    ensures
        is_snake(aged_board(b).update(p, n as i32), n),
{
    let b2 = aged_board(b).update(p, n as i32);
    assert forall|a: int| 1 <= a <= n implies #[trigger] has_age(b2, a) by {
        if a == n {
            assert(b2[p] == a);
        } else {
            assert(has_age(b, a + 1));
            let c = choose|c: int| 0 <= c < b.len() && b[c] == a + 1;
            assert(c != p);
            assert(b2[c] == a);
        }
    }
    assert forall|c: int, d: int|
        0 <= c < b2.len() && 0 <= d < b2.len() && #[trigger] b2[c] > 0 && #[trigger] b2[d]
            == b2[c] implies c == d by {
        if c != p && d != p {
            assert(b[c] > 0 && b[d] == b[c]);
        } else if c == p && d != p {
            assert(b[d] <= n);
        } else if d == p && c != p {
            assert(b[c] <= n);
        }
    }
    assert forall|c: int, d: int|
        0 <= c < b2.len() && 0 <= d < b2.len() && #[trigger] b2[c] > 0 && #[trigger] b2[d]
            == b2[c] + 1 implies adjacent(c, d) by {
        if c != p && d != p {
            assert(b[c] > 0 && b[d] == b[c] + 1);
        } else if c == p {
            assert(b[d] <= n);
        } else {
            assert(b[c] == n);
        }
    }
}

/// Eating keeps the snake whole: the food cell, next to the cell of age
/// `n`, becomes the head with age `n + 1`, and the board shows one snake of
/// length `n + 1`.
pub proof fn lemma_eat_grows_snake(b: Seq<i32>, n: int, p: int)
    requires
        is_snake(b, n),
        0 <= n < i32::MAX,
        0 <= p < b.len(),
        b[p] == FOOD,
        forall|c: int| 0 <= c < b.len() && b[c] == n ==> adjacent(c, p),
    ensures
        is_snake(b.update(p, (n + 1) as i32), n + 1),
{
    let b2 = b.update(p, (n + 1) as i32);
    assert forall|a: int| 1 <= a <= n + 1 implies #[trigger] has_age(b2, a) by {
        if a == n + 1 {
            assert(b2[p] == a);
        } else {
            assert(has_age(b, a));
            let c = choose|c: int| 0 <= c < b.len() && b[c] == a;
            assert(b2[c] == a);
        }
    }
    assert forall|c: int, d: int|
        0 <= c < b2.len() && 0 <= d < b2.len() && #[trigger] b2[c] > 0 && #[trigger] b2[d]
            == b2[c] implies c == d by {
        if c != p && d != p {
            assert(b[c] > 0 && b[d] == b[c]);
        } else if c == p && d != p {
            assert(b[d] <= n);
        } else if d == p && c != p {
            assert(b[c] <= n);
        }
    }
    assert forall|c: int, d: int|
        0 <= c < b2.len() && 0 <= d < b2.len() && #[trigger] b2[c] > 0 && #[trigger] b2[d]
            == b2[c] + 1 implies adjacent(c, d) by {
        if c != p && d != p {
            assert(b[c] > 0 && b[d] == b[c] + 1);
        } else if c == p {
            assert(b[d] <= n);
        } else {
            assert(b[c] == n);
        }
    }
}

/// Turning back keeps the snake whole: ages `v` become `n + 1 - v`, so the
/// tail becomes the head and the board again shows one snake of length `n`.
pub proof fn lemma_turn_keeps_snake(b: Seq<i32>, n: int)
    requires
        is_snake(b, n),
        0 <= n < i32::MAX,
    ensures
        is_snake(turned_board(b, n + 1), n),
{
    let b2 = turned_board(b, n + 1);
    assert forall|a: int| 1 <= a <= n implies #[trigger] has_age(b2, a) by {
        assert(has_age(b, n + 1 - a));
        let c = choose|c: int| 0 <= c < b.len() && b[c] == n + 1 - a;
        assert(b2[c] == a);
    }
    assert forall|c: int, d: int|
        0 <= c < b2.len() && 0 <= d < b2.len() && #[trigger] b2[c] > 0 && #[trigger] b2[d]
            == b2[c] implies c == d by {
        assert(b[c] > 0 && b[d] == b[c]);
    }
    assert forall|c: int, d: int|
        0 <= c < b2.len() && 0 <= d < b2.len() && #[trigger] b2[c] > 0 && #[trigger] b2[d]
            == b2[c] + 1 implies adjacent(c, d) by {
        assert(b[d] > 0 && b[c] == b[d] + 1);
    }
}

/// Turning back twice gives back the board.
pub proof fn lemma_turn_twice(b: Seq<i32>, n: int)
    requires
        is_snake(b, n),
        0 <= n < i32::MAX,
    ensures
        turned_board(turned_board(b, n + 1), n + 1) == b,
{
    assert(turned_board(turned_board(b, n + 1), n + 1) =~= b);
}

/// Putting the food on an empty cell keeps the snake whole.
pub proof fn lemma_food_keeps_snake(b: Seq<i32>, n: int, f: int)
    requires
        is_snake(b, n),
        0 <= f < b.len(),
        b[f] == VAZIO,
    ensures
        is_snake(b.update(f, FOOD), n),
{
    let b2 = b.update(f, FOOD);
    assert forall|a: int| 1 <= a <= n implies #[trigger] has_age(b2, a) by {
        assert(has_age(b, a));
        let c = choose|c: int| 0 <= c < b.len() && b[c] == a;
        assert(b2[c] == a);
    }
    assert forall|c: int, d: int|
        0 <= c < b2.len() && 0 <= d < b2.len() && #[trigger] b2[c] > 0 && #[trigger] b2[d]
            == b2[c] implies c == d by {
        assert(b[c] > 0 && b[d] == b[c]);
    }
    assert forall|c: int, d: int|
        0 <= c < b2.len() && 0 <= d < b2.len() && #[trigger] b2[c] > 0 && #[trigger] b2[d]
            == b2[c] + 1 implies adjacent(c, d) by {
        assert(b[c] > 0 && b[d] == b[c] + 1);
    }
}

} // verus!
