# snake_game

A terminal snake game whose rules are written in Verus and proved.

- `src/grid.rs`: the 17 by 17 board, cell indices, rows and columns, and the
  one-cell step (`colide`, `compute_proximo`), with the laws that a step never
  wraps around the board and that indices and coordinates determine each other.
- `src/board.rs`: whole-board operations (ageing, turning back, the trophy,
  the empty cells) and the laws that keep one snake of ages 1 to `n` on it.
- `src/game.rs`: the game state `App`, its mathematical view `GameState`, one
  tick (`update`), the keys, a new game, and the law that every tick keeps
  the board sound but the winning one and the one that turns the snake back
  against the wall (`turns_into_wall`).
- `src/render.rs`, `src/patterns.rs`: what each cell looks like.
- `src/rng.rs`: random cells from the `rand` crate.
- `src/debug.rs`: a text dump of the board.
- `app/main.rs`: the terminal loop, drawing with `ratatui`, keys from
  `crossterm`, and music with `rodio`.
