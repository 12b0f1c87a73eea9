# minesweeper

A minesweeper board whose rules are proved with Verus, and a Bevy front end.

- `src/cell.rs`: the values of one cell and of a click's outcome.
- `src/view.rs`: the abstract board (`BoardView`), neighbourhoods, counts.
- `src/rules.rs`: each operation stated as a relation between the board
  before and after it (flood fill, reveal, flags, chords, mine placement).
- `src/board.rs`: `MinesweeperBoard`, verified against those relations.
- `src/random.rs`: the calls into `rand` that choose where mines go.
- `src/game.rs`: what a frame's mouse input does to the game.
- `src/laws.rs`: properties across operations, e.g. the first click is
  safe, flood fill opens whole empty regions and never a flagged cell, and
  on a board whose numbers are right a chord hits a mine exactly when one
  of its cells holds one.
- `app/main.rs`: the window, drawing and input, built on Bevy.
