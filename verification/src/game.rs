//! The game state and its rules: one tick of the game (`update`), the turn
//! back, the move, the win, the crash, a new game and the keys.

use vstd::prelude::*;

use crate::board::{
    aged, aged_board, empty_cells, first_cell_with, first_index_of, free_cells, is_trophy_cell,
    is_snake, has_age, lemma_advance_keeps_snake, lemma_eat_grows_snake, lemma_empty_cells_are_empty,
    lemma_room_left, lemma_tail_is_first, lemma_turn_twice,
    lemma_empty_cells_complete, lemma_food_keeps_snake, lemma_turn_keeps_snake, trophy_board, turned,
    turned_board,
};
use crate::grid::{
    adjacent, col_of, collides, colide, lemma_step_is_adjacent, lemma_step_stays_on_grid, step_delta, compute_proximo, index, is_step, lemma_index_coord_roundtrip,
    next_cell, row_of, CAUDA, CELLS, FOOD, NO_NEXT, SIZE, VAZIO,
};

use crate::rng::{random_below, seed};

verus! {

/// A record of a player's result.
pub struct Premios {
    jogador: String,
    score: u16,
}

/// What the game asks of the music player after an event.
#[derive(PartialEq, Eq, Structural, Clone, Copy, Debug)]
pub enum AudioCommand {
    /// Leave the music as it is.
    Nothing,
    /// Start the playlist.
    Play,
    /// Stop the music.
    Stop,
    /// Skip to the next track.
    Skip,
}

/// The game: the board, the snake and the food on it, the score and the
/// speed.
pub struct App {
    music: bool,
    exit: bool,
    board: [i32; 289],
    offset: i16,
    n: i32,
    i_cobrinha: usize,
    i_comida: usize,
    i_cauda: usize,
    i_proximo: usize,
    best: u16,
    score: u16,
    level: u16,
    fps: u64,
    historico: Vec<Premios>,
    mensagem: String,
}

/// The whole state of a game, as mathematical values.
pub struct GameState {
    pub music: bool,
    pub exit: bool,
    pub board: Seq<i32>,
    pub offset: i16,
    pub n: i32,
    pub head: usize,
    pub food: usize,
    pub tail: usize,
    pub next: usize,
    pub best: u16,
    pub score: u16,
    pub level: u16,
    pub fps: u64,
    pub history: Seq<Premios>,
    pub message: Seq<char>,
}

impl View for App {
    type V = GameState;

    closed spec fn view(&self) -> GameState {
        GameState {
            music: self.music,
            exit: self.exit,
            board: self.board@,
            offset: self.offset,
            n: self.n,
            head: self.i_cobrinha,
            food: self.i_comida,
            tail: self.i_cauda,
            next: self.i_proximo,
            best: self.best,
            score: self.score,
            level: self.level,
            fps: self.fps,
            history: self.historico@,
            message: self.mensagem@,
        }
    }
}

/// A well-formed game: the board has its cells, the snake stands on the
/// board and steps by one cell, and its length `n` is between 1 and the
/// number of cells.
pub open spec fn wf(s: GameState) -> bool {
    &&& s.board.len() == CELLS
    &&& is_step(s.offset as int)
    &&& s.head < CELLS
    &&& s.food < CELLS
    &&& s.tail < CELLS
    &&& (s.next < CELLS || s.next == NO_NEXT)
    &&& 1 <= s.n <= CELLS
}

/// The state after the snake advances onto `s.next`: every snake cell ages,
/// the head moves there with age `n`, no step is pending, the message is
/// cleared, and the music is switched off where the player has paused.
pub open spec fn moved(s: GameState, player_paused: bool) -> GameState {
    GameState {
        board: aged_board(s.board).update(s.next as int, s.n),
        head: s.next,
        next: NO_NEXT,
        message: Seq::empty(),
        music: if player_paused && s.music { false } else { s.music },
        ..s
    }
}

/// What the music player is asked after the snake advances.
pub open spec fn moved_command(s: GameState, player_paused: bool) -> AudioCommand {
    if player_paused && s.music {
        AudioCommand::Stop
    } else {
        AudioCommand::Nothing
    }
}

/// The state after the snake turns back: where it is longer than one cell,
/// the tail (the cell of age 1) becomes the head and the pending step is
/// taken from there, and every snake cell of age `v` gets age `n + 1 - v`.
/// Where that step from the tail would leave the board, only the head moves
/// to the tail and the board stays as it was.
pub open spec fn turned_back(s: GameState) -> GameState {
    if s.n == CAUDA {
        s
    } else {
        let flipped = GameState { board: turned_board(s.board, s.n + 1), ..s };
        match first_index_of(s.board, CAUDA) {
            None => flipped,
            Some(t) => match next_cell(t, s.offset as int) {
                None => GameState { head: t as usize, ..s },
                Some(p) => GameState { head: t as usize, next: p as usize, ..flipped },
            },
        }
    }
}

/// The state after the game is won: the trophy is drawn on the board in the
/// snake's length, and the message congratulates the player.
pub open spec fn won(s: GameState) -> GameState {
    GameState { board: trophy_board(s.board, s.n), message: "🏆 Parabéns você ganhou!"@, ..s }
}

/// How one tick of the game ends.
#[derive(PartialEq, Eq, Structural, Clone, Copy, Debug)]
pub enum Outcome {
    /// The snake fills the board: the trophy is drawn.
    Won,
    /// The next step would leave the board.
    Crashed,
    /// The next cell holds the snake's own body.
    Blocked,
    /// The next cell holds the food.
    Ate,
    /// The snake advances.
    Moved,
}

/// The delay between two ticks, in milliseconds, at a given level: 400 at
/// level 1, 100 less at each level down to 100, and 83 above level 5.
pub open spec fn delay_for_level(level: u16) -> u64 {
    if level > 5 {
        83
    } else {
        let raw: int = if (level - 1) * 100 > 400 { 0 } else { 400 - (level - 1) * 100 };
        if raw < 100 { 100 } else { raw as u64 }
    }
}

/// The game never slows down as the level rises, and the delay stays between
/// 83 and 400 milliseconds.
pub proof fn lemma_delay_never_grows(l1: u16, l2: u16)
    requires
        1 <= l1 <= l2,
    ensures
        delay_for_level(l2) <= delay_for_level(l1),
        83 <= delay_for_level(l2) <= 400,
{
}

/// Eating at a higher score never gives a lower level or a longer delay,
/// and the delay after eating is always 400, 300, 200, 100 or 83
/// milliseconds.
pub proof fn lemma_eating_never_slows(s1: GameState, s2: GameState)
    requires
        s1.score <= s2.score < u16::MAX,
    ensures
        ate(s1).level <= ate(s2).level,
        ate(s2).fps <= ate(s1).fps,
        ate(s2).fps == 400 || ate(s2).fps == 300 || ate(s2).fps == 200 || ate(s2).fps == 100
            || ate(s2).fps == 83,
{
    lemma_delay_never_grows(ate(s1).level, ate(s2).level);
}

/// The state with the next cell aimed at from the head.
pub open spec fn aimed(s: GameState) -> GameState {
    GameState { next: (s.head + s.offset) as usize, ..s }
}

/// The state after the snake, having aimed, turns back where the aimed cell
/// holds its neck (age `n - 1`).
pub open spec fn after_turn(s: GameState) -> GameState {
    if s.board[s.next as int] == s.n - 1 {
        GameState { message: "👨 Agora você aprendeu a andar de costa 🐛"@, ..turned_back(s) }
    } else {
        s
    }
}

/// The state after the snake eats the food on its next cell: the head moves
/// there with age `n + 1`, the snake grows by one, the score counts one more,
/// the level is `score / 11 + 1` and the delay follows the level. The new
/// food is not yet placed.
pub open spec fn ate(s: GameState) -> GameState {
    let score: u16 = (s.score + 1) as u16;
    let level: u16 = (score / 11 + 1) as u16;
    GameState {
        board: s.board.update(s.next as int, (s.n + 1) as i32),
        n: (s.n + 1) as i32,
        score: score,
        level: level,
        fps: delay_for_level(level),
        head: s.next,
        message: "👨 Boa 🍉"@,
        ..s
    }
}

/// The state with the food placed on cell `f`.
pub open spec fn food_placed(s: GameState, f: usize) -> GameState {
    GameState { food: f, board: s.board.update(f as int, FOOD), ..s }
}

/// How one tick ends from state `s`.
pub open spec fn tick_outcome(s: GameState) -> Outcome {
    if s.n == CELLS {
        Outcome::Won
    } else if collides(s.head as int, s.offset as int) {
        Outcome::Crashed
    } else {
        let t = after_turn(aimed(s));
        if t.next < NO_NEXT && t.board[t.next as int] > 1 {
            Outcome::Blocked
        } else if t.board[t.next as int] == FOOD {
            Outcome::Ate
        } else {
            Outcome::Moved
        }
    }
}

/// The state after one tick from state `s`, where the new food, if the snake
/// eats and an empty cell is left, goes to cell `f`.
pub open spec fn ticked(s: GameState, f: usize, player_paused: bool) -> GameState {
    match tick_outcome(s) {
        Outcome::Won => won(s),
        Outcome::Crashed => GameState { message: "👨 Bateu na parede 🧱"@, ..s },
        Outcome::Blocked => after_turn(aimed(s)),
        Outcome::Ate => {
            let e = ate(after_turn(aimed(s)));
            if empty_cells(e.board).len() > 0 {
                food_placed(e, f)
            } else {
                e
            }
        },
        Outcome::Moved => moved(after_turn(aimed(s)), player_paused),
    }
}

/// What the music player is asked after one tick from state `s`.
pub open spec fn tick_command(s: GameState, player_paused: bool) -> AudioCommand {
    if tick_outcome(s) == Outcome::Moved {
        moved_command(s, player_paused)
    } else {
        AudioCommand::Nothing
    }
}

impl App {
    /// The game stays well-formed.
    #[verifier::type_invariant]
    spec fn well_formed(self) -> bool {
        wf(self@)
    }

    /// One tick of the game: the snake wins, crashes into the wall, turns
    /// back onto itself, stops at its own body, eats, or advances; see
    /// `ticked`. Where it eats and an empty cell is left, the new food goes
    /// to an empty cell drawn at random, and that is all that is said of
    /// where it goes. `player_paused` tells whether the music player is
    /// paused.
    pub fn update(&mut self, player_paused: bool) -> (cmd: AudioCommand)
        requires
            tick_outcome(old(self)@) == Outcome::Ate ==> old(self)@.score < u16::MAX,
        ensures
            wf(final(self)@),
            final(self)@ == ticked(old(self)@, final(self)@.food, player_paused),
            cmd == tick_command(old(self)@, player_paused),
            tick_outcome(old(self)@) == Outcome::Ate && empty_cells(
                ate(after_turn(aimed(old(self)@))).board,
            ).len() > 0 ==> empty_cells(ate(after_turn(aimed(old(self)@))).board).contains(
                final(self)@.food,
            ),
    {
        proof {
            use_type_invariant(&*self);
        }
        if self.n as usize == CELLS {
            self.winner();
            return AudioCommand::Nothing;
        }
        if colide(self.i_cobrinha, self.offset) {
            self.gameover("👨 Bateu na parede 🧱");
            return AudioCommand::Nothing;
        }
        self.i_proximo = compute_proximo(self.i_cobrinha, self.offset).unwrap();
        if self.board[self.i_proximo] == self.n - 1 {
            self.revert();
            self.mensagem = "👨 Agora você aprendeu a andar de costa 🐛".to_string();
        }
        if self.i_proximo < NO_NEXT && self.board[self.i_proximo] > 1 {
            return AudioCommand::Nothing;
        }
        if self.board[self.i_proximo] == FOOD {
            self.board[self.i_proximo] = self.n + 1;
            self.n = self.n + 1;
            self.score = self.score + 1;
            self.level = self.score / 11 + 1;
            if self.level > 5 {
                self.fps = 83;
            } else {
                let raw_delay: u64 = 400u64.saturating_sub((self.level - 1) as u64 * 100);
                self.fps = if raw_delay < 100 { 100 } else { raw_delay };
            }
            self.i_cobrinha = self.i_proximo;
            self.mensagem = "👨 Boa 🍉".to_string();
            let free: usize = free_cells(&self.board).len();
            if free > 0 {
                let pick: usize = random_below(free);
                self.place_food(pick);
            }
            return AudioCommand::Nothing;
        }
        self.mover(player_paused)
    }

    /// Places the food on the `pick`-th empty cell of the board (counting
    /// from 0, in increasing order of cells).
    pub fn place_food(&mut self, pick: usize)
        requires
            pick < empty_cells(old(self)@.board).len(),
        ensures
            final(self)@ == food_placed(old(self)@, empty_cells(old(self)@.board)[pick as int]),
            old(self)@.board[final(self)@.food as int] == VAZIO,
            wf(final(self)@),
    {
        proof {
            use_type_invariant(&*self);
        }
        let free = free_cells(&self.board);
        proof {
            lemma_empty_cells_are_empty(self.board@);
        }
        let cell: usize = free[pick];
        self.i_comida = cell;
        self.board[cell] = FOOD;
    }

    /// Ends the game with `message`.
    pub fn gameover(&mut self, message: &str)
        ensures
            final(self)@ == (GameState { message: message@, ..old(self)@ }),
    {
        proof {
            use_type_invariant(&*self);
        }
        self.mensagem = message.to_string();
    }

    /// Draws the trophy and congratulates the player: see `won`.
    pub fn winner(&mut self)
        ensures
            final(self)@ == won(old(self)@),
            wf(final(self)@),
    {
        proof {
            use_type_invariant(&*self);
        }
        let ghost old_board = self.board@;
        let n: i32 = self.n;
        let mut b = self.board;
        let mut y: usize = 6;
        while y < SIZE - 6
            invariant
                6 <= y <= 11,
                b@.len() == CELLS,
                old_board.len() == CELLS,
                forall|c: int|
                    0 <= c < CELLS ==> #[trigger] b@[c] == (if is_trophy_cell(c) && row_of(c) < y {
                        n
                    } else {
                        old_board[c]
                    }),
            decreases 11 - y,
        {
            let mut x: usize = 6;
            while x < SIZE - 6
                invariant
                    6 <= x <= 11,
                    6 <= y < 11,
                    b@.len() == CELLS,
                    old_board.len() == CELLS,
                    forall|c: int|
                        0 <= c < CELLS ==> #[trigger] b@[c] == (if is_trophy_cell(c) && (row_of(c) < y
                            || (row_of(c) == y && col_of(c) < x)) {
                            n
                        } else {
                            old_board[c]
                        }),
                decreases 11 - x,
            {
                proof {
                    lemma_index_coord_roundtrip(0, x as int, y as int);
                    assert forall|c: int| 0 <= c < CELLS implies row_of(c) * 17 + col_of(c) == c by {
                        lemma_index_coord_roundtrip(c, 0, 0);
                    }
                }
                if (x + y) % 2 == 0 {
                    b[index(x as u32, y as u32)] = n;
                }
                x = x + 1;
            }
            y = y + 1;
        }
        assert(b@ =~= trophy_board(old_board, n));
        self.board = b;
        self.mensagem = "🏆 Parabéns você ganhou!".to_string();
    }

    /// Turns the snake back: see `turned_back`.
    pub fn revert(&mut self)
        ensures
            final(self)@ == turned_back(old(self)@),
            wf(final(self)@),
    {
        proof {
            use_type_invariant(&*self);
        }
        if self.n == CAUDA {
            return;
        }
        let tone: i32 = self.n + 1;
        match first_cell_with(&self.board, CAUDA) {
            Some(t) => {
                self.i_cobrinha = t;
                match compute_proximo(t, self.offset) {
                    Some(value) => {
                        self.i_proximo = value;
                    },
                    None => {
                        return;
                    },
                }
            },
            None => {},
        }
        let ghost old_board = self.board@;
        let mut b = self.board;
        let mut i: usize = 0;
        while i < CELLS
            invariant
                i <= CELLS,
                b@.len() == CELLS,
                old_board.len() == CELLS,
                tone as int == old(self)@.n + 1,
                1 < tone <= CELLS + 1,
                forall|j: int| 0 <= j < i ==> b@[j] == turned(old_board[j], tone as int),
                forall|j: int| i <= j < CELLS ==> b@[j] == old_board[j],
            decreases CELLS - i,
        {
            if b[i] > VAZIO {
                b[i] = tone - b[i];
            }
            i = i + 1;
        }
        assert(b@ =~= turned_board(old_board, tone as int));
        self.board = b;
    }

    /// Switches the music on or off, and says what the player must do.
    pub fn mute(&mut self) -> (cmd: AudioCommand)
        ensures
            final(self)@ == (GameState { music: !old(self)@.music, ..old(self)@ }),
            cmd == (if final(self)@.music { AudioCommand::Play } else { AudioCommand::Stop }),
    {
        proof {
            use_type_invariant(&*self);
        }
        self.music = !self.music;
        if self.music {
            AudioCommand::Play
        } else {
            AudioCommand::Stop
        }
    }

    /// Advances the snake onto the pending cell `i_proximo`: the tail cell
    /// empties, every other snake cell ages, and the head takes the new cell.
    /// Where the music is on and the player reports it paused, the music is
    /// switched off.
    pub fn mover(&mut self, player_paused: bool) -> (cmd: AudioCommand)
        requires
            old(self)@.next < CELLS,
        ensures
            final(self)@ == moved(old(self)@, player_paused),
            cmd == moved_command(old(self)@, player_paused),
            wf(final(self)@),
    {
        proof {
            use_type_invariant(&*self);
        }
        let ghost old_board = self.board@;
        let mut b = self.board;
        let mut i: usize = 0;
        while i < CELLS
            invariant
                i <= CELLS,
                b@.len() == CELLS,
                old_board.len() == CELLS,
                forall|j: int| 0 <= j < i ==> b@[j] == aged(old_board[j]),
                forall|j: int| i <= j < CELLS ==> b@[j] == old_board[j],
            decreases CELLS - i,
        {
            if b[i] >= CAUDA {
                b[i] = b[i] - 1;
            }
            i = i + 1;
        }
        assert(b@ =~= aged_board(old_board));
        b[self.i_proximo] = self.n;
        self.board = b;
        self.i_cobrinha = self.i_proximo;
        self.i_proximo = NO_NEXT;
        self.mensagem = String::new();
        if player_paused && self.music {
            self.mute()
        } else {
            AudioCommand::Nothing
        }
    }
}

/// The empty board.
pub open spec fn empty_board() -> Seq<i32> {
    Seq::new(CELLS as nat, |i: int| VAZIO)
}

/// The board of a new game before the food is placed: only the snake's one
/// cell, on `head`.
pub open spec fn opening_board(head: usize) -> Seq<i32> {
    empty_board().update(head as int, CAUDA)
}

/// The state of a new game with the snake on `head` and the food on `food`:
/// the snake is one cell long and stands still, the score is 0 at level 1.
/// The delay, the best score, the music, the exit flag and the records are
/// kept.
pub open spec fn started(s: GameState, head: usize, food: usize) -> GameState {
    GameState {
        board: opening_board(head).update(food as int, FOOD),
        offset: 0,
        n: 1,
        head: head,
        tail: head,
        food: food,
        next: NO_NEXT,
        score: 0,
        level: 1,
        message: "🎲 Novo jogo gerado "@,
        ..s
    }
}

/// A key on the keyboard.
#[derive(PartialEq, Eq, Structural, Clone, Copy, Debug)]
pub enum Key {
    Esc,
    Char(char),
    Up,
    Left,
    Down,
    Right,
    Other,
}

/// What a key does to the game.
#[derive(PartialEq, Eq, Structural, Clone, Copy, Debug)]
pub enum KeyAction {
    Exit,
    TurnUp,
    TurnLeft,
    TurnDown,
    TurnRight,
    NewGame,
    Mute,
    NextMusic,
    Ignore,
}

/// What a key does: only pressed keys count; Esc leaves, w a s d and the
/// arrows steer, z starts a new game, m switches the music, n skips a track.
pub open spec fn key_action(pressed: bool, key: Key) -> KeyAction {
    if !pressed {
        KeyAction::Ignore
    } else {
        match key {
            Key::Esc => KeyAction::Exit,
            Key::Up => KeyAction::TurnUp,
            Key::Left => KeyAction::TurnLeft,
            Key::Down => KeyAction::TurnDown,
            Key::Right => KeyAction::TurnRight,
            Key::Char(c) => if c == 'w' || c == 'W' {
                KeyAction::TurnUp
            } else if c == 'a' || c == 'A' {
                KeyAction::TurnLeft
            } else if c == 's' || c == 'S' {
                KeyAction::TurnDown
            } else if c == 'd' || c == 'D' {
                KeyAction::TurnRight
            } else if c == 'z' || c == 'Z' {
                KeyAction::NewGame
            } else if c == 'm' || c == 'M' {
                KeyAction::Mute
            } else if c == 'n' || c == 'N' {
                KeyAction::NextMusic
            } else {
                KeyAction::Ignore
            },
            Key::Other => KeyAction::Ignore,
        }
    }
}

/// The state with the snake heading by `offset`.
pub open spec fn heading(s: GameState, offset: i16) -> GameState {
    GameState { offset: offset, ..s }
}

/// The cell of the food is one of the empty cells of the opening board.
proof fn lemma_opening_board_has_room(head: usize)
    requires
        head < CELLS,
    ensures
        empty_cells(opening_board(head)).len() > 0,
        forall|k: int|
            0 <= k < empty_cells(opening_board(head)).len() ==> {
                &&& #[trigger] empty_cells(opening_board(head))[k] < CELLS
                &&& empty_cells(opening_board(head))[k] != head
            },
{
    let b = opening_board(head);
    lemma_empty_cells_are_empty(b);
    let other: int = if head == 0 { 1 } else { 0 };
    lemma_empty_cells_complete(b, other);
}

/// The board of a game in play, apart from the head: it shows one snake of
/// length `n` (each age once, consecutive ages on adjacent cells), no cell
/// holds less than `FOOD`, the only cell that may hold the food is the one
/// the game records as the food's, and it does hold the food while the
/// snake is shorter than the board.
pub open spec fn sound_board(s: GameState) -> bool {
    &&& is_snake(s.board, s.n as int)
    &&& forall|c: int| 0 <= c < s.board.len() ==> #[trigger] s.board[c] >= FOOD
    &&& forall|c: int| 0 <= c < s.board.len() && #[trigger] s.board[c] == FOOD ==> c == s.food
    &&& s.n < CELLS ==> s.board[s.food as int] == FOOD
}

/// A game in play: a sound board whose head cell holds the snake's length.
pub open spec fn sound(s: GameState) -> bool {
    &&& sound_board(s)
    &&& s.board[s.head as int] == s.n
}

/// The one tick on which the game leaves the head on the tail: a snake
/// of three or more cells aims at its neck, turns back, and the step from
/// its tail would leave the board, so only the head moves to the tail.
pub open spec fn turns_into_wall(s: GameState) -> bool {
    let a = aimed(s);
    &&& s.n >= 3
    &&& !collides(s.head as int, s.offset as int)
    &&& a.board[a.next as int] == a.n - 1
    &&& match first_index_of(a.board, CAUDA) {
        Some(t) => next_cell(t, a.offset as int) is None,
        None => false,
    }
}

/// A new game starts sound: one snake cell of age 1 and the food elsewhere.
pub proof fn lemma_started_sound(s: GameState, head: usize, food: usize)
    requires
        head < CELLS,
        food < CELLS,
        food != head,
    ensures
        sound(started(s, head, food)),
        wf(started(s, head, food)),
{
    let t = started(s, head, food);
    assert(t.board[head as int] == 1);
    assert(has_age(t.board, 1));
}

/// What holds after a sound game aims and, maybe, turns back.
proof fn lemma_aim_and_turn(s: GameState)
    requires
        wf(s),
        sound(s),
        s.n < CELLS,
        !collides(s.head as int, s.offset as int),
        !turns_into_wall(s),
    ensures
        ({
            let t = after_turn(aimed(s));
            &&& wf(t)
            &&& sound_board(t)
            &&& t.n == s.n
            &&& t.food == s.food
            &&& t.score == s.score
            &&& t.next < CELLS
            &&& (t.board[t.head as int] == t.n || t.board[t.next as int] == CAUDA)
            &&& forall|c: int|
                0 <= c < t.board.len() && #[trigger] t.board[c] == t.n ==> c == t.next
                    || adjacent(c, t.next as int)
        }),
{
    let a = aimed(s);
    let n = s.n as int;
    let h = s.head as int;
    let b = s.board;
    if s.offset != 0 {
        lemma_step_is_adjacent(h, s.offset as int);
    }
    assert(wf(a));
    assert forall|c: int| 0 <= c < b.len() && #[trigger] b[c] == n implies c == h by {
        assert(b[h] > 0 && b[c] == b[h]);
    }
    if b[a.next as int] == n - 1 && n != 1 {
        lemma_tail_is_first(b, n);
        let t = first_index_of(b, CAUDA)->0;
        assert(s.offset != 0);
        match next_cell(t, s.offset as int) {
            Some(p) => {
                lemma_step_is_adjacent(t, s.offset as int);
                lemma_turn_keeps_snake(b, n);
                let tb = turned_board(b, n + 1);
                assert(tb[t] == n);
                assert forall|c: int| 0 <= c < tb.len() implies #[trigger] tb[c] >= FOOD by {
                    assert(b[c] >= FOOD);
                }
                assert forall|c: int| 0 <= c < tb.len() && #[trigger] tb[c] == FOOD implies c
                    == s.food by {
                    assert(b[c] == FOOD);
                }
                assert forall|c: int| 0 <= c < tb.len() && #[trigger] tb[c] == n implies c == t by {
                    assert(tb[t] > 0 && tb[c] == tb[t]);
                }
            },
            None => {
                assert(n == 2);
                assert(b[t] > 0 && b[a.next as int] == b[t]);
                assert(b[t] > 0 && b[h] == b[t] + 1);
            },
        }
    }
}

/// Every tick keeps a sound game sound, but for the winning tick (which
/// draws the trophy over the board) and the tick of `turns_into_wall`
/// (which leaves the head on the tail): the board again shows one snake,
/// of the new length, with its head on the head cell, and exactly the one
/// food cell the game records while the snake is shorter than the board.
pub proof fn lemma_tick_keeps_sound(s: GameState, f: usize, player_paused: bool)
    requires
        wf(s),
        sound(s),
        tick_outcome(s) != Outcome::Won,
        !turns_into_wall(s),
        tick_outcome(s) == Outcome::Ate && empty_cells(ate(after_turn(aimed(s))).board).len() > 0
            ==> empty_cells(ate(after_turn(aimed(s))).board).contains(f),
    ensures
        sound(ticked(s, f, player_paused)),
{
    if tick_outcome(s) != Outcome::Crashed {
        lemma_aim_and_turn(s);
        let t = after_turn(aimed(s));
        let n = t.n as int;
        let p = t.next as int;
        if tick_outcome(s) == Outcome::Moved {
            lemma_advance_keeps_snake(t.board, n, p);
            let m = moved(t, player_paused);
            assert forall|c: int| 0 <= c < m.board.len() implies #[trigger] m.board[c] >= FOOD by {
                assert(t.board[c] >= FOOD);
            }
            assert forall|c: int| 0 <= c < m.board.len() && #[trigger] m.board[c] == FOOD implies c
                == m.food by {
                assert(t.board[c] == FOOD);
            }
        } else if tick_outcome(s) == Outcome::Ate {
            assert(p == t.food);
            lemma_eat_grows_snake(t.board, n, p);
            let e = ate(t);
            assert forall|c: int| 0 <= c < e.board.len() implies #[trigger] e.board[c] != FOOD by {
                if c != p && t.board[c] == FOOD {
                    assert(c == t.food);
                }
            }
            assert forall|c: int| 0 <= c < e.board.len() implies #[trigger] e.board[c] >= VAZIO by {
                assert(t.board[c] >= FOOD);
                assert(e.board[c] != FOOD);
            }
            if e.n < CELLS {
                lemma_room_left(e.board, e.n as int);
                let c = choose|c: int| 0 <= c < e.board.len() && e.board[c] == VAZIO;
                lemma_empty_cells_complete(e.board, c);
            }
            if empty_cells(e.board).len() > 0 {
                lemma_empty_cells_are_empty(e.board);
                let k = choose|k: int|
                    0 <= k < empty_cells(e.board).len() && empty_cells(e.board)[k] == f;
                assert(e.board[f as int] == VAZIO);
                lemma_food_keeps_snake(e.board, e.n as int, f as int);
                let g = food_placed(e, f);
                assert forall|c: int| 0 <= c < g.board.len() implies #[trigger] g.board[c] >= FOOD by {
                    assert(e.board[c] >= VAZIO);
                }
                assert forall|c: int| 0 <= c < g.board.len() && #[trigger] g.board[c] == FOOD implies c
                    == g.food by {
                    if c != f {
                        assert(e.board[c] != FOOD);
                    }
                }
            } else {
                assert forall|c: int| 0 <= c < e.board.len() implies #[trigger] e.board[c] >= FOOD by {
                    assert(e.board[c] >= VAZIO);
                }
            }
        } else {
            assert(tick_outcome(s) == Outcome::Blocked);
        }
    }
}

/// A tick that steps onto an empty cell or onto the tail, without turning
/// back onto the neck, moves the snake: the head goes to the next cell with
/// age `n`, every other cell of age 1 or more gets one year younger (so the
/// cell the tail leaves empties), every other cell stays, and the length
/// and the score stay.
pub proof fn lemma_tick_moves_onto_free_or_tail(s: GameState, f: usize, player_paused: bool)
    requires
        wf(s),
        s.n < CELLS,
        !collides(s.head as int, s.offset as int),
        s.board[s.head + s.offset] == VAZIO || s.board[s.head + s.offset] == CAUDA,
        s.board[s.head + s.offset] != s.n - 1,
    ensures
        ({
            let p: int = s.head + s.offset;
            let r = ticked(s, f, player_paused);
            &&& r.head == p
            &&& r.board.len() == s.board.len()
            &&& r.board[p] == s.n
            &&& forall|c: int|
                0 <= c < s.board.len() && c != p ==> #[trigger] r.board[c] == if s.board[c] >= 1 {
                    s.board[c] - 1
                } else {
                    s.board[c] as int
                }
            &&& r.n == s.n
            &&& r.score == s.score
            &&& r.food == s.food
            &&& r.next == NO_NEXT
            &&& r.message == Seq::<char>::empty()
        }),
{
    lemma_step_stays_on_grid(s.head as int, s.offset as int);
}

/// A tick that steps onto the food eats it: the score grows by one, the
/// level becomes `score / 11 + 1` of the new score, the delay is 400 ms at
/// level 1, 300 at level 2, 200 at level 3, 100 at levels 4 and 5 and 83
/// above, and the snake grows by one with its head on the food's cell.
pub proof fn lemma_tick_eats_food(s: GameState, f: usize, player_paused: bool)
    requires
        wf(s),
        s.n < CELLS,
        !collides(s.head as int, s.offset as int),
        s.board[s.head + s.offset] == FOOD,
        s.score < u16::MAX,
    ensures
        ({
            let r = ticked(s, f, player_paused);
            &&& r.score == s.score + 1
            &&& r.level == (s.score + 1) / 11 + 1
            &&& r.fps == (if r.level == 1 {
                400u64
            } else if r.level == 2 {
                300u64
            } else if r.level == 3 {
                200u64
            } else if r.level <= 5 {
                100u64
            } else {
                83u64
            })
            &&& r.n == s.n + 1
            &&& r.head == s.head + s.offset
            &&& f < CELLS && f != s.head + s.offset ==> r.board[s.head + s.offset] == s.n + 1
        }),
{
    lemma_step_stays_on_grid(s.head as int, s.offset as int);
    let a = aimed(s);
    assert(a.next as int == s.head + s.offset);
    assert(after_turn(a) == a);
    assert(tick_outcome(s) == Outcome::Ate);
    let e = ate(a);
    assert(e.score == s.score + 1);
    assert(e.level == (s.score + 1) / 11 + 1);
    let r = ticked(s, f, player_paused);
    assert(r.score == e.score && r.level == e.level && r.fps == e.fps);
    assert(r.n == s.n + 1);
    assert(r.head == s.head + s.offset);
    assert(r.fps == delay_for_level(e.level));
    assert(r.level >= 1);
    assert(r.fps == (if r.level == 1 {
                400u64
            } else if r.level == 2 {
                300u64
            } else if r.level == 3 {
                200u64
            } else if r.level <= 5 {
                100u64
            } else {
                83u64
            }));
    assert(e.board[s.head + s.offset] == s.n + 1);
}

/// A started game is fresh whatever came before: a snake of one cell on the
/// head's cell, the food on its own cell, every other cell empty, standing
/// still, score 0 at level 1.
pub proof fn lemma_started_is_fresh(s: GameState, head: usize, food: usize)
    requires
        head < CELLS,
        food < CELLS,
        food != head,
    ensures
        ({
            let r = started(s, head, food);
            &&& r.level == 1
            &&& r.score == 0
            &&& r.n == 1
            &&& r.offset == 0
            &&& r.head == head
            &&& r.food == food
            &&& r.next == NO_NEXT
            &&& r.board.len() == CELLS
            &&& r.board[head as int] == 1
            &&& r.board[food as int] == -1
            &&& forall|c: int| 0 <= c < CELLS && c != head && c != food ==> #[trigger] r.board[c]
                == 0
        }),
{
}

/// Each steering key heads the snake its own way: up and w one row up
/// (-17), down and s one row down (17), left and a one column left (-1),
/// right and d one column right (1).
pub proof fn lemma_steering_keys()
    ensures
        key_action(true, Key::Up) == KeyAction::TurnUp,
        key_action(true, Key::Down) == KeyAction::TurnDown,
        key_action(true, Key::Left) == KeyAction::TurnLeft,
        key_action(true, Key::Right) == KeyAction::TurnRight,
        key_action(true, Key::Char('w')) == KeyAction::TurnUp,
        key_action(true, Key::Char('s')) == KeyAction::TurnDown,
        key_action(true, Key::Char('a')) == KeyAction::TurnLeft,
        key_action(true, Key::Char('d')) == KeyAction::TurnRight,
        step_delta(-17) == (-1int, 0int),
        step_delta(17) == (1int, 0int),
        step_delta(-1) == (0int, -1int),
        step_delta(1) == (0int, 1int),
{
}

/// Every tick keeps the score one less than the snake's length.
pub proof fn lemma_tick_counts_score(s: GameState, f: usize, player_paused: bool)
    requires
        wf(s),
        s.score + 1 == s.n,
    ensures
        ticked(s, f, player_paused).score + 1 == ticked(s, f, player_paused).n,
{
}

/// Turning a sound snake back twice gives back its board and its head,
/// where the step from the head and the step from the tail both stay on the
/// board.
pub proof fn lemma_turn_back_twice(s: GameState)
    requires
        wf(s),
        sound(s),
        next_cell(s.head as int, s.offset as int) is Some,
        forall|t: int|
            0 <= t < s.board.len() && s.board[t] == CAUDA ==> #[trigger] next_cell(
                t,
                s.offset as int,
            ) is Some,
    ensures
        turned_back(turned_back(s)).board == s.board,
        turned_back(turned_back(s)).head == s.head,
{
    if s.n != CAUDA {
        let n = s.n as int;
        let b = s.board;
        let h = s.head as int;
        lemma_tail_is_first(b, n);
        let t = first_index_of(b, CAUDA)->0;
        assert(next_cell(t, s.offset as int) is Some);
        lemma_turn_keeps_snake(b, n);
        let s1 = turned_back(s);
        let b1 = s1.board;
        assert(b1 == turned_board(b, n + 1));
        lemma_tail_is_first(b1, n);
        let t1 = first_index_of(b1, CAUDA)->0;
        assert(b1[h] == CAUDA);
        assert(b1[h] > 0 && b1[t1] == b1[h]);
        assert(t1 == h);
        lemma_turn_twice(b, n);
    }
}

impl App {
    /// A game before its first start, as the program sets it up: music off,
    /// an empty board, a snake of one cell on cell 0, score 0 at level 1, a
    /// delay of 400 ms and a welcome message.
    pub fn new() -> (a: App)
        ensures
            a@ == (GameState {
                music: false,
                exit: false,
                board: empty_board(),
                offset: 0,
                n: 1,
                head: 0,
                food: 0,
                tail: 0,
                next: 0,
                best: 0,
                score: 0,
                level: 1,
                fps: 400,
                history: Seq::empty(),
                message: "😀 Bem Vindo "@,
            }),
            wf(a@),
    {
        let a = App {
            music: false,
            exit: false,
            board: [0i32; 289],
            n: 1,
            offset: 0,
            i_cobrinha: 0,
            i_comida: 0,
            i_cauda: 0,
            i_proximo: 0,
            best: 0,
            score: 0,
            level: 1,
            fps: 400,
            historico: Vec::new(),
            mensagem: "😀 Bem Vindo ".to_string(),
        };
        assert(a.board@ =~= empty_board());
        a
    }

    /// Starts a new game with the snake on `head` and the food on the
    /// `pick`-th empty cell left (counting from 0, in increasing order of
    /// cells).
    pub fn new_game_with(&mut self, head: usize, pick: usize)
        requires
            head < CELLS,
            pick < empty_cells(opening_board(head)).len(),
        ensures
            final(self)@ == started(old(self)@, head, empty_cells(opening_board(head))[pick as int]),
            final(self)@.food != head,
            wf(final(self)@),
    {
        proof {
            use_type_invariant(&*self);
        }
        proof {
            lemma_opening_board_has_room(head);
        }
        let mut b = [0i32; 289];
        assert(b@ =~= empty_board());
        b[head] = CAUDA;
        assert(b@ =~= opening_board(head));
        let free = free_cells(&b);
        let food: usize = free[pick];
        b[food] = FOOD;
        self.board = b;
        self.offset = 0;
        self.n = 1;
        self.i_cobrinha = head;
        self.i_cauda = head;
        self.i_comida = food;
        self.i_proximo = NO_NEXT;
        self.score = 0;
        self.level = 1;
        self.mensagem = "🎲 Novo jogo gerado ".to_string();
    }

    /// Starts a new game with the snake on a random cell and the food on a
    /// random other cell. Which cells they are is left to chance.
    pub fn new_game(&mut self)
        ensures
            final(self)@ == started(old(self)@, final(self)@.head, final(self)@.food),
            final(self)@.food != final(self)@.head,
            wf(final(self)@),
    {
        let head: usize = seed();
        let mut b = [0i32; 289];
        assert(b@ =~= empty_board());
        b[head] = CAUDA;
        assert(b@ =~= opening_board(head));
        proof {
            lemma_opening_board_has_room(head);
        }
        let free: usize = free_cells(&b).len();
        let pick: usize = random_below(free);
        self.new_game_with(head, pick);
    }

    /// Heads up.
    pub fn up(&mut self)
        ensures
            final(self)@ == heading(old(self)@, -17i16),
    {
        proof {
            use_type_invariant(&*self);
        }
        self.offset = -(SIZE as i16);
    }

    /// Heads down.
    pub fn down(&mut self)
        ensures
            final(self)@ == heading(old(self)@, 17),
    {
        proof {
            use_type_invariant(&*self);
        }
        self.offset = SIZE as i16;
    }

    /// Heads left.
    pub fn left(&mut self)
        ensures
            final(self)@ == heading(old(self)@, -1i16),
    {
        proof {
            use_type_invariant(&*self);
        }
        self.offset = -1;
    }

    /// Heads right.
    pub fn right(&mut self)
        ensures
            final(self)@ == heading(old(self)@, 1),
    {
        proof {
            use_type_invariant(&*self);
        }
        self.offset = 1;
    }

    /// Asks the music player for the next track.
    pub fn next_music(&self) -> (cmd: AudioCommand)
        ensures
            cmd == AudioCommand::Skip,
    {
        AudioCommand::Skip
    }

    /// Applies a key: see `key_action`. A new game puts the snake and the
    /// food on random cells, and that is all that is said of them.
    pub fn handle_key_event(&mut self, pressed: bool, key: Key) -> (cmd: AudioCommand)
        ensures
            wf(final(self)@),
            pressed && (key == Key::Up || key == Key::Char('w') || key == Key::Char('W'))
                ==> final(self)@.offset == -17,
            pressed && (key == Key::Down || key == Key::Char('s') || key == Key::Char('S'))
                ==> final(self)@.offset == 17,
            pressed && (key == Key::Left || key == Key::Char('a') || key == Key::Char('A'))
                ==> final(self)@.offset == -1,
            pressed && (key == Key::Right || key == Key::Char('d') || key == Key::Char('D'))
                ==> final(self)@.offset == 1,
            !pressed ==> final(self)@ == old(self)@ && cmd == AudioCommand::Nothing,
            pressed && key == Key::Esc ==> final(self)@.exit,
            pressed && (key == Key::Char('m') || key == Key::Char('M')) ==> final(self)@.music
                == !old(self)@.music,
            pressed && (key == Key::Char('n') || key == Key::Char('N')) ==> cmd == AudioCommand::Skip
                && final(self)@ == old(self)@,
            pressed && (key == Key::Char('z') || key == Key::Char('Z')) ==> final(self)@.n == 1
                && final(self)@.score == 0 && final(self)@.level == 1 && final(self)@.offset == 0,
            match key_action(pressed, key) {
                KeyAction::Exit => final(self)@ == (GameState { exit: true, ..old(self)@ }) && cmd
                    == AudioCommand::Nothing,
                KeyAction::TurnUp => final(self)@ == heading(old(self)@, -17i16) && cmd
                    == AudioCommand::Nothing,
                KeyAction::TurnLeft => final(self)@ == heading(old(self)@, -1i16) && cmd
                    == AudioCommand::Nothing,
                KeyAction::TurnDown => final(self)@ == heading(old(self)@, 17) && cmd
                    == AudioCommand::Nothing,
                KeyAction::TurnRight => final(self)@ == heading(old(self)@, 1) && cmd
                    == AudioCommand::Nothing,
                KeyAction::NewGame => final(self)@ == started(
                    old(self)@,
                    final(self)@.head,
                    final(self)@.food,
                ) && final(self)@.food != final(self)@.head && cmd == AudioCommand::Nothing,
                KeyAction::Mute => final(self)@ == (GameState {
                    music: !old(self)@.music,
                    ..old(self)@
                }) && cmd == (if final(self)@.music {
                    AudioCommand::Play
                } else {
                    AudioCommand::Stop
                }),
                KeyAction::NextMusic => final(self)@ == old(self)@ && cmd == AudioCommand::Skip,
                KeyAction::Ignore => final(self)@ == old(self)@ && cmd == AudioCommand::Nothing,
            },
    {
        proof {
            use_type_invariant(&*self);
        }
        if !pressed {
            return AudioCommand::Nothing;
        }
        match key {
            Key::Esc => {
                self.exit = true;
                AudioCommand::Nothing
            },
            Key::Up => {
                self.up();
                AudioCommand::Nothing
            },
            Key::Left => {
                self.left();
                AudioCommand::Nothing
            },
            Key::Down => {
                self.down();
                AudioCommand::Nothing
            },
            Key::Right => {
                self.right();
                AudioCommand::Nothing
            },
            Key::Char(c) => {
                if c == 'w' || c == 'W' {
                    self.up();
                    AudioCommand::Nothing
                } else if c == 'a' || c == 'A' {
                    self.left();
                    AudioCommand::Nothing
                } else if c == 's' || c == 'S' {
                    self.down();
                    AudioCommand::Nothing
                } else if c == 'd' || c == 'D' {
                    self.right();
                    AudioCommand::Nothing
                } else if c == 'z' || c == 'Z' {
                    self.new_game();
                    AudioCommand::Nothing
                } else if c == 'm' || c == 'M' {
                    self.mute()
                } else if c == 'n' || c == 'N' {
                    self.next_music()
                } else {
                    AudioCommand::Nothing
                }
            },
            Key::Other => AudioCommand::Nothing,
        }
    }

    /// Whether the next tick has the snake eat: see `tick_outcome`.
    pub fn eats_on_next_tick(&self) -> (r: bool)
        ensures
            r == (tick_outcome(self@) == Outcome::Ate),
    {
        proof {
            use_type_invariant(self);
        }
        if self.n as usize == CELLS {
            return false;
        }
        if colide(self.i_cobrinha, self.offset) {
            return false;
        }
        let next: usize = compute_proximo(self.i_cobrinha, self.offset).unwrap();
        let mut target: usize = next;
        let mut value: i32 = self.board[next];
        if value == self.n - 1 && self.n != CAUDA {
            match first_cell_with(&self.board, CAUDA) {
                Some(t) => {
                    match compute_proximo(t, self.offset) {
                        Some(p) => {
                            target = p;
                            value = if self.board[p] > VAZIO {
                                self.n + 1 - self.board[p]
                            } else {
                                self.board[p]
                            };
                        },
                        None => {},
                    }
                },
                None => {
                    value = self.n + 1 - value;
                },
            }
        }
        !(target < NO_NEXT && value > 1) && value == FOOD
    }

    /// Column of the snake's head.
    pub fn x(&self) -> (r: usize)
        ensures
            r == col_of(self@.head as int),
    {
        self.i_cobrinha % SIZE
    }

    /// Row of the snake's head.
    pub fn y(&self) -> (r: usize)
        ensures
            r == row_of(self@.head as int),
    {
        self.i_cobrinha / SIZE
    }

    /// The board, row by row.
    pub fn board(&self) -> (r: &[i32; 289])
        ensures
            r@ == self@.board,
    {
        &self.board
    }

    /// Whether the player asked to leave.
    pub fn exit(&self) -> (r: bool)
        ensures
            r == self@.exit,
    {
        self.exit
    }

    /// Whether the music is on.
    pub fn music(&self) -> (r: bool)
        ensures
            r == self@.music,
    {
        self.music
    }

    /// The snake's length.
    pub fn n(&self) -> (r: i32)
        ensures
            r == self@.n,
    {
        self.n
    }

    /// The step the snake takes at each tick.
    pub fn offset(&self) -> (r: i16)
        ensures
            r == self@.offset,
    {
        self.offset
    }

    /// The cell of the snake's head.
    pub fn i_cobrinha(&self) -> (r: usize)
        ensures
            r == self@.head,
    {
        self.i_cobrinha
    }

    /// The cell of the food.
    pub fn i_comida(&self) -> (r: usize)
        ensures
            r == self@.food,
    {
        self.i_comida
    }

    /// The cell the snake steps onto next, or `NO_NEXT`.
    pub fn i_proximo(&self) -> (r: usize)
        ensures
            r == self@.next,
    {
        self.i_proximo
    }

    /// The score.
    pub fn score(&self) -> (r: u16)
        ensures
            r == self@.score,
    {
        self.score
    }

    /// The best score.
    pub fn best(&self) -> (r: u16)
        ensures
            r == self@.best,
    {
        self.best
    }

    /// The level.
    pub fn level(&self) -> (r: u16)
        ensures
            r == self@.level,
    {
        self.level
    }

    /// The delay between two ticks, in milliseconds.
    pub fn fps(&self) -> (r: u64)
        ensures
            r == self@.fps,
    {
        self.fps
    }

    /// The message shown to the player.
    pub fn mensagem(&self) -> (r: &str)
        ensures
            r@ == self@.message,
    {
        self.mensagem.as_str()
    }
}

} // verus!
