# dacttylo

A terminal application to practice typing code: type a source file against the clock,
alone or against the replay of an earlier session on the same file, and keep a record of
your inputs to race against later.

The logic is a library written in Verus and proved against its contracts; a thin
program around it does the terminal, file and clock work.

## Layout

- `src/` — the verified library.
  - `app/` — player state (what each input does to a player's position and mistakes),
    pools of opponents, and how the typed text is styled for display.
  - `editor/`, `editor_state.rs`, `editor_view.rs` — text editing over a rope or a list
    of lines, cursor moves by grapheme cluster, and which lines a view keeps on screen.
  - `graphemes.rs`, `chars.rs` — grapheme clusters and character helpers.
  - `line/`, `line_stylizer.rs`, `highlight.rs`, `highlighting/` — styled cells, tab and
    line feed symbols, breaking a line into rows of a given width, and syntax
    highlighting: choosing the syntax and theme, and cutting each line into styled cells.
  - `game_state/` — highlighted tokens and the cursors drawn over them.
  - `record/`, `input/` — input records, their timings, and where they are stored.
  - `modes/` — the decisions of a practice session and of an online one: what a key
    does, when a game ends, how finishers are ranked.
  - `session/` — the steps of hosting and joining an online session, and the registry
    of its users.
  - `cli/`, `protocol.rs`, `report.rs`, `network/`, `events/`, `clock.rs`, `ghost.rs`,
    `text_coord.rs`, `keyed.rs`, `sorted.rs` — options, messages, results and small helpers.
- `tests/` — tests of the library, run against the compiled crate.
- `app/` — the program: argument parsing, the terminal loop, files, the highlighting sets
  loaded once, and the typing-speed figures.
