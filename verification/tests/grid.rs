use snake_game::grid::{col, colide, compute_proximo, coord, index, lin, CELLS, SIZE};
use snake_game::patterns::{chess_mash, noise};
use snake_game::render::{cell_symbol, render_background, CellColor};

#[test]
fn lin_and_col_split_a_cell() {
    assert_eq!(lin(0), 0);
    assert_eq!(col(0), 0);
    assert_eq!(lin(16), 0);
    assert_eq!(col(16), 16);
    assert_eq!(lin(17), 1);
    assert_eq!(col(17), 0);
    assert_eq!(lin(288), 16);
    assert_eq!(col(288), 16);
}

#[test]
fn coord_gives_row_then_column() {
    assert_eq!(coord(0), (0, 0));
    assert_eq!(coord(1), (0, 1));
    assert_eq!(coord(15), (0, 15));
    assert_eq!(coord(16), (0, 16));
    assert_eq!(coord(17), (1, 0));
    assert_eq!(coord(18), (1, 1));
    assert_eq!(coord(19), (1, 2));
}

#[test]
fn index_takes_column_then_row() {
    assert_eq!(index(0, 0), 0);
    assert_eq!(index(1, 0), 1);
    assert_eq!(index(16, 0), 16);
    assert_eq!(index(0, 1), 17);
    assert_eq!(index(1, 1), 18);
    assert_eq!(index(2, 1), 19);
    assert_eq!(index(16, 16), 288);
}

#[test]
fn index_and_coord_round_trip() {
    for i in 0..CELLS as u32 {
        let (r, c) = coord(i);
        assert_eq!(index(c, r), i as usize);
    }
}

#[test]
fn sideways_steps_stop_at_the_side_walls() {
    assert!(colide(0, -1));
    assert!(!colide(0, 1));
    assert!(colide(16, 1));
    assert!(!colide(16, -1));
    assert!(colide(17, -1));
    assert!(colide(33, 1));
    assert!(!colide(18, -1));
}

#[test]
fn vertical_steps_stop_at_top_and_bottom() {
    assert!(colide(0, -17));
    assert!(colide(16, -17));
    assert!(!colide(17, -17));
    assert!(colide(272, 17));
    assert!(colide(288, 17));
    assert!(!colide(271, 17));
}

#[test]
fn standing_still_never_collides() {
    for i in 0..CELLS {
        assert!(!colide(i, 0));
    }
}

#[test]
fn compute_proximo_steps_or_refuses() {
    assert_eq!(compute_proximo(0, 1), Some(1));
    assert_eq!(compute_proximo(0, 17), Some(17));
    assert_eq!(compute_proximo(18, -17), Some(1));
    assert_eq!(compute_proximo(18, -1), Some(17));
    assert_eq!(compute_proximo(0, -1), None);
    assert_eq!(compute_proximo(16, 1), None);
    assert_eq!(compute_proximo(280, 17), None);
    assert_eq!(compute_proximo(5, 0), Some(5));
}

#[test]
fn steps_never_wrap_around() {
    let steps: [i16; 4] = [1, -1, 17, -17];
    for i in 0..CELLS {
        for &o in steps.iter() {
            let (r, c) = coord(i as u32);
            match compute_proximo(i, o) {
                Some(p) => {
                    let (r2, c2) = coord(p as u32);
                    let dr = r2 as i32 - r as i32;
                    let dc = c2 as i32 - c as i32;
                    assert_eq!((dr.abs() + dc.abs()), 1);
                }
                None => {
                    let (dr, dc) = match o {
                        1 => (0, 1),
                        -1 => (0, -1),
                        17 => (1, 0),
                        _ => (-1, 0),
                    };
                    let r2 = r as i32 + dr;
                    let c2 = c as i32 + dc;
                    assert!(r2 < 0 || r2 >= SIZE as i32 || c2 < 0 || c2 >= SIZE as i32);
                }
            }
        }
    }
}

#[test]
fn background_patterns() {
    assert_eq!(chess_mash(0, 0), 0);
    assert_eq!(chess_mash(1, 0), 1);
    assert_eq!(chess_mash(3, 5), 0);
    assert_eq!(noise(0, 7), 0);
    assert_eq!(noise(1, 1), 1);
    assert_eq!(noise(1, 2), 0);
    assert_eq!(noise(2, 2), 1);
    assert_eq!(noise(3, 3), 0);
}

#[test]
fn background_blocks() {
    assert_eq!(render_background(0, 0), ("██", CellColor::Black));
    assert_eq!(render_background(1, 1), ("▓▓", CellColor::Black));
    assert_eq!(render_background(1, 0), ("▒▒", CellColor::Black));
    assert_eq!(render_background(1, 2), ("▒▒", CellColor::Black));
}

#[test]
fn cell_symbols() {
    assert_eq!(cell_symbol(-2, 1, 3, 0, 0), ("💣", CellColor::Red));
    assert_eq!(cell_symbol(-1, 1, 3, 0, 0), ("🍏", CellColor::Red));
    assert_eq!(cell_symbol(-1, 2, 3, 0, 0), ("🎃", CellColor::Yellow));
    assert_eq!(cell_symbol(0, 1, 3, 1, 1), ("▓▓", CellColor::Black));
    assert_eq!(cell_symbol(1, 1, 3, 0, 0), ("💜", CellColor::Green));
    assert_eq!(cell_symbol(1, 4, 3, 0, 0), ("🧡", CellColor::Red));
    assert_eq!(cell_symbol(1, 1, 1, 0, 0), ("👾", CellColor::Green));
    assert_eq!(cell_symbol(1, 4, 1, 0, 0), ("👺", CellColor::Red));
    assert_eq!(cell_symbol(5, 3, 5, 0, 0), ("👾", CellColor::Green));
    assert_eq!(cell_symbol(5, 4, 5, 0, 0), ("👺", CellColor::Red));
}

#[test]
fn steps_from_cells_past_the_board() {
    assert!(!colide(300, 1));
    assert!(colide(305, 1)); // 305 % 17 == 16
    assert!(colide(300, 17));
    assert!(!colide(300, -17));
    assert!(colide(40000, 0)); // read as a negative i16
    assert_eq!(compute_proximo(300, 1), None);
    assert_eq!(compute_proximo(300, -17), Some(283));
    assert_eq!(compute_proximo(40000, 0), None);
}
