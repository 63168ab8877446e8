use snake_game::debug::ddebug;
use snake_game::game::{App, AudioCommand, Key};
use snake_game::grid::{CELLS, NO_NEXT};
use snake_game::rng::seed;

fn count(app: &App, v: i32) -> usize {
    app.board().iter().filter(|&&c| c == v).count()
}

/// A game with the snake on `head`, heading right, and the food on `food`
/// (a cell after `head`).
fn game_with(head: usize, food: usize) -> App {
    let mut app = App::new();
    assert!(food > head);
    app.new_game_with(head, food - 1);
    app.right();
    app
}

/// A snake of three cells on cells 0, 1, 2 of the top row, heading right.
fn snake_of_three() -> App {
    for _ in 0..1_000_000 {
        let mut app = game_with(0, 1);
        app.update(false);
        if app.i_comida() == 2 {
            app.update(false);
            return app;
        }
    }
    panic!("the food never fell on cell 2");
}

#[test]
fn a_fresh_app_greets_the_player() {
    let app = App::new();
    assert_eq!(app.mensagem(), "😀 Bem Vindo ");
    assert_eq!(app.n(), 1);
    assert_eq!(app.score(), 0);
    assert_eq!(app.level(), 1);
    assert_eq!(app.fps(), 400);
    assert!(!app.music());
    assert!(!app.exit());
    assert_eq!(count(&app, 0), CELLS);
}

#[test]
fn new_game_with_places_snake_and_food() {
    let mut app = App::new();
    app.new_game_with(5, 5);
    assert_eq!(app.i_cobrinha(), 5);
    assert_eq!(app.i_comida(), 6);
    assert_eq!(app.board()[5], 1);
    assert_eq!(app.board()[6], -1);
    assert_eq!(count(&app, 0), CELLS - 2);
    assert_eq!(app.i_proximo(), NO_NEXT);
    assert_eq!(app.offset(), 0);
    assert_eq!(app.mensagem(), "🎲 Novo jogo gerado ");
    app.new_game_with(5, 4);
    assert_eq!(app.i_comida(), 4);
}

#[test]
fn new_game_puts_food_off_the_snake() {
    let mut app = App::new();
    for _ in 0..200 {
        app.new_game();
        assert!(app.i_cobrinha() < CELLS);
        assert!(app.i_comida() < CELLS);
        assert_ne!(app.i_comida(), app.i_cobrinha());
        assert_eq!(count(&app, 1), 1);
        assert_eq!(count(&app, -1), 1);
        assert_eq!(app.n(), 1);
        assert_eq!(app.score(), 0);
    }
}

#[test]
fn seed_stays_on_the_board() {
    let mut seen_nonzero = false;
    for _ in 0..1000 {
        let s = seed();
        assert!(s < CELLS);
        if s != 0 {
            seen_nonzero = true;
        }
    }
    assert!(seen_nonzero);
}

#[test]
fn standing_still_does_nothing_but_clear_the_message() {
    let mut app = App::new();
    app.new_game_with(40, 100);
    let before = *app.board();
    assert_eq!(app.update(false), AudioCommand::Nothing);
    assert_eq!(*app.board(), before);
    assert_eq!(app.i_cobrinha(), 40);
    assert_eq!(app.mensagem(), "");
}

#[test]
fn the_snake_moves_one_cell() {
    let mut app = game_with(0, 10);
    app.update(false);
    assert_eq!(app.i_cobrinha(), 1);
    assert_eq!(app.board()[0], 0);
    assert_eq!(app.board()[1], 1);
    assert_eq!(app.i_proximo(), NO_NEXT);
    assert_eq!(app.mensagem(), "");
    app.down();
    app.update(false);
    assert_eq!(app.i_cobrinha(), 18);
    assert_eq!(app.board()[1], 0);
    assert_eq!(app.board()[18], 1);
    assert_eq!(app.x(), 1);
    assert_eq!(app.y(), 1);
}

#[test]
fn eating_grows_the_snake() {
    let mut app = game_with(0, 1);
    assert_eq!(app.update(false), AudioCommand::Nothing);
    assert_eq!(app.n(), 2);
    assert_eq!(app.score(), 1);
    assert_eq!(app.level(), 1);
    assert_eq!(app.fps(), 400);
    assert_eq!(app.i_cobrinha(), 1);
    assert_eq!(app.board()[0], 1);
    assert_eq!(app.board()[1], 2);
    assert_eq!(app.mensagem(), "👨 Boa 🍉");
    let f = app.i_comida();
    assert!(f >= 2);
    assert_eq!(app.board()[f], -1);
    assert_eq!(count(&app, -1), 1);
    assert_eq!(count(&app, 0), CELLS - 3);
}

#[test]
fn the_body_follows_the_head() {
    let mut app = snake_of_three();
    assert_eq!(app.n(), 3);
    assert_eq!(app.score(), 2);
    assert_eq!(&app.board()[0..3], &[1, 2, 3]);
    if app.i_comida() != 3 {
        app.update(false);
        assert_eq!(&app.board()[0..4], &[0, 1, 2, 3]);
        assert_eq!(app.i_cobrinha(), 3);
    }
}

#[test]
fn hitting_a_wall_ends_the_game() {
    let mut app = game_with(0, 10);
    app.up();
    let before = *app.board();
    assert_eq!(app.update(false), AudioCommand::Nothing);
    assert_eq!(app.mensagem(), "👨 Bateu na parede 🧱");
    assert_eq!(*app.board(), before);
    assert_eq!(app.i_cobrinha(), 0);
    app.left();
    app.update(false);
    assert_eq!(app.mensagem(), "👨 Bateu na parede 🧱");
    assert_eq!(app.i_cobrinha(), 0);
}

#[test]
fn turning_back_swaps_head_and_tail() {
    let mut app = game_with(20, 21);
    app.update(false);
    assert_eq!(app.n(), 2);
    // snake: 20 (tail, 1), 21 (head, 2), heading right
    app.left();
    app.update(false);
    if app.i_comida() != 19 {
        // turned: tail 20 became the head, stepped left onto 19
        assert_eq!(app.i_cobrinha(), 19);
        assert_eq!(app.board()[19], 2);
        assert_eq!(app.board()[20], 1);
        assert_eq!(app.board()[21], 0);
    }
}

#[test]
fn turning_back_at_the_wall_stops_on_the_body() {
    let mut app = snake_of_three();
    // snake: 0 (1), 1 (2), 2 (3); heading left aims at its neck
    app.left();
    assert_eq!(app.update(false), AudioCommand::Nothing);
    assert_eq!(app.mensagem(), "👨 Agora você aprendeu a andar de costa 🐛");
    assert_eq!(app.i_cobrinha(), 0);
    assert_eq!(app.i_proximo(), 1);
    assert_eq!(&app.board()[0..3], &[1, 2, 3]);
}

#[test]
fn revert_twice_restores_the_board() {
    let mut app = game_with(40, 41);
    app.update(false);
    let before = *app.board();
    app.revert();
    assert_eq!(app.board()[40], 2);
    assert_eq!(app.board()[41], 1);
    app.revert();
    assert_eq!(*app.board(), before);
}

#[test]
fn revert_of_a_single_cell_does_nothing() {
    let mut app = game_with(40, 100);
    let before = *app.board();
    app.revert();
    assert_eq!(*app.board(), before);
    assert_eq!(app.i_cobrinha(), 40);
}

#[test]
fn winner_draws_the_trophy() {
    let mut app = App::new();
    app.winner();
    assert_eq!(app.mensagem(), "🏆 Parabéns você ganhou!");
    let b = app.board();
    assert_eq!(b[6 * 17 + 6], 1);
    assert_eq!(b[6 * 17 + 7], 0);
    assert_eq!(b[7 * 17 + 7], 1);
    assert_eq!(b[10 * 17 + 10], 1);
    assert_eq!(b[11 * 17 + 11], 0);
    assert_eq!(b[5 * 17 + 5], 0);
    assert_eq!(count(&app, 1), 13);
}

#[test]
fn gameover_only_sets_the_message() {
    let mut app = game_with(40, 100);
    let before = *app.board();
    app.gameover("fim");
    assert_eq!(app.mensagem(), "fim");
    assert_eq!(*app.board(), before);
}

#[test]
fn place_food_uses_the_empty_cells_in_order() {
    let mut app = App::new();
    app.new_game_with(0, 287);
    assert_eq!(app.i_comida(), 288);
    app.place_food(0);
    assert_eq!(app.i_comida(), 1);
    assert_eq!(app.board()[1], -1);
}

#[test]
fn mover_ages_every_snake_cell() {
    let mut app = game_with(0, 1);
    app.update(false);
    app.down();
    let food = app.i_comida();
    if food != 18 {
        app.update(false);
        assert_eq!(app.board()[0], 0);
        assert_eq!(app.board()[1], 1);
        assert_eq!(app.board()[18], 2);
        assert_eq!(app.board()[food], -1);
    }
}

#[test]
fn keys_steer_and_quit() {
    let mut app = App::new();
    app.new_game_with(100, 0);
    assert_eq!(app.handle_key_event(true, Key::Char('w')), AudioCommand::Nothing);
    assert_eq!(app.offset(), -17);
    app.handle_key_event(true, Key::Right);
    assert_eq!(app.offset(), 1);
    app.handle_key_event(true, Key::Char('S'));
    assert_eq!(app.offset(), 17);
    app.handle_key_event(true, Key::Left);
    assert_eq!(app.offset(), -1);
    app.handle_key_event(true, Key::Char('D'));
    assert_eq!(app.offset(), 1);
    app.handle_key_event(false, Key::Up);
    assert_eq!(app.offset(), 1);
    app.handle_key_event(true, Key::Char('q'));
    assert_eq!(app.offset(), 1);
    assert!(!app.exit());
    app.handle_key_event(true, Key::Esc);
    assert!(app.exit());
}

#[test]
fn keys_drive_the_music() {
    let mut app = App::new();
    assert_eq!(app.handle_key_event(true, Key::Char('m')), AudioCommand::Play);
    assert!(app.music());
    assert_eq!(app.handle_key_event(true, Key::Char('M')), AudioCommand::Stop);
    assert!(!app.music());
    assert_eq!(app.handle_key_event(true, Key::Char('n')), AudioCommand::Skip);
    assert_eq!(app.mute(), AudioCommand::Play);
}

#[test]
fn key_z_starts_over() {
    let mut app = game_with(0, 1);
    app.update(false);
    assert_eq!(app.n(), 2);
    app.handle_key_event(true, Key::Char('z'));
    assert_eq!(app.n(), 1);
    assert_eq!(app.score(), 0);
    assert_eq!(app.offset(), 0);
    assert_eq!(count(&app, 1), 1);
    assert_eq!(count(&app, -1), 1);
}

#[test]
fn a_paused_player_switches_the_music_off() {
    let mut app = game_with(0, 10);
    app.mute();
    assert!(app.music());
    assert_eq!(app.update(true), AudioCommand::Stop);
    assert!(!app.music());
    assert_eq!(app.update(true), AudioCommand::Nothing);
    app.mute();
    assert_eq!(app.update(false), AudioCommand::Nothing);
    assert!(app.music());
}

#[test]
fn ddebug_writes_rows_of_numbers() {
    let mut board = [0i32; 289];
    board[0] = -1;
    board[17] = 12;
    let text = ddebug(board);
    let lines: Vec<&str> = text.split('\n').collect();
    assert_eq!(lines.len(), 18);
    assert_eq!(lines[0], "-10000000000000000");
    assert_eq!(lines[1], "120000000000000000");
    assert_eq!(lines[2], "00000000000000000");
    assert_eq!(lines[17], "");
}

fn adjacent(c: usize, d: usize) -> bool {
    c + 17 == d || d + 17 == c || (c / 17 == d / 17 && (c + 1 == d || d + 1 == c))
}

/// One snake of ages 1..=n on adjacent cells, its head holding n, and the
/// one food cell recorded.
fn assert_sound(app: &App) {
    let b = app.board();
    let n = app.n() as usize;
    let mut cell_of = vec![usize::MAX; n + 1];
    for (c, &v) in b.iter().enumerate() {
        assert!(v >= -1 && v <= n as i32);
        if v > 0 {
            assert_eq!(cell_of[v as usize], usize::MAX);
            cell_of[v as usize] = c;
        }
        if v == -1 {
            assert_eq!(c, app.i_comida());
        }
    }
    for a in 1..=n {
        assert_ne!(cell_of[a], usize::MAX);
        if a > 1 {
            assert!(adjacent(cell_of[a - 1], cell_of[a]));
        }
    }
    assert_eq!(b[app.i_cobrinha()] as usize, n);
    if n < CELLS {
        assert_eq!(b[app.i_comida()], -1);
    }
}

#[test]
fn ticks_keep_one_snake_and_one_food() {
    let mut app = App::new();
    app.new_game_with(8 * 17 + 8, 0);
    assert_sound(&app);
    let keys = [Key::Right, Key::Down, Key::Left, Key::Up];
    for step in 0..2000usize {
        if step % 7 == 0 {
            app.handle_key_event(true, keys[(step / 7) % 4]);
        }
        let before = app.n();
        app.update(false);
        if app.mensagem() == "👨 Bateu na parede 🧱" {
            app.new_game_with(8 * 17 + 8, 0);
        }
        assert!(app.n() >= before || app.n() == 1);
        assert_sound(&app);
        assert_eq!(app.score() as i32 + 1, app.n());
    }
}

#[test]
fn revert_twice_restores_board_and_head() {
    let mut app = snake_of_three();
    // head on 2, tail on 0, heading right; the steps from 2 and from 0 stay on the board
    let before = *app.board();
    let head = app.i_cobrinha();
    app.revert();
    assert_eq!(app.i_cobrinha(), 0);
    assert_eq!(app.i_proximo(), 1);
    app.revert();
    assert_eq!(*app.board(), before);
    assert_eq!(app.i_cobrinha(), head);
}

#[test]
fn ddebug_writes_extreme_values() {
    let mut board = [0i32; 289];
    board[0] = i32::MIN;
    board[1] = i32::MAX;
    board[2] = 1234567890;
    let text = ddebug(board);
    let first = text.split('\n').next().unwrap();
    assert_eq!(first, "-214748364821474836471234567890".to_string() + "00000000000000");
}

#[test]
fn eats_on_next_tick_looks_ahead() {
    let mut app = game_with(0, 1);
    assert!(app.eats_on_next_tick());
    app.down();
    assert!(!app.eats_on_next_tick());
    app.up();
    assert!(!app.eats_on_next_tick());
    let mut app = game_with(0, 3);
    assert!(!app.eats_on_next_tick());
    app.update(false);
    app.update(false);
    assert!(app.eats_on_next_tick());
    app.update(false);
    assert_eq!(app.n(), 2);
}
