# cts6-emulator

An emulator of the wire protocol of the Colorado Time Systems CTS6 timing
console, with a terminal interface to run a synthetic meet. Its logic is a
library written and proved in Verus.

## Layout

- `src/` is the library.
  - `event`, `lineups`: events of a meet and preset lineups.
  - `race`, `running`: touches, finishes, places, and the life of a race.
  - `state`: lineup, sequence-memory slots, stored races, navigation cursors and
    the meet download.
  - `command`, `repl`, `listing`: the command language and what commands do.
  - `protocol`, `server`: frames, and the reply to each of them.
  - `app`, `keys`, `tree`, `scoreboard`, `popups`, `slots`, `tui`, `screen`: the
    terminal interface, from a key to what is shown.
  - `clock`, `notation`, `order`, `output`, `text`, `cli`: what the others share.
- `app/` is the program around it: sockets, terminal, sound, clock.
- `tests/` runs the library.

## How contracts are written

Each type has a view made of sequences, maps and sets. A command, a frame or a
key is a function on views: `StateView::ran`, `StateView::served`,
`StateView::keyed`, `TuiView::keyed`, each with a companion that says what is
reported (`ran_effects`, `served_effects`, `keyed_effects`). The executable
functions are proved to compute exactly these. Sounds and log lines are returned
as a list of effects, which the program performs.

What holds of the library as a whole is stated in the public proof functions
whose names begin with `law_`.

The calendar comes from `chrono`, and text widths and the division of the screen
from `ratatui`; the functions that call them say in their doc comments what is
taken on trust. Time enters as an argument: readings of one monotonic clock, in
nanoseconds.
