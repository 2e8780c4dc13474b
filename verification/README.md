# cassette

A freewriting tool whose notes are "cassettes": two-sided text buffers kept
in a store of sessions that several writers (a human at the terminal,
agents on the command line) share through a queue.

The library in `src/` is written in Verus; every function in it carries a
contract that Verus proves. `app/` is the plain Rust around it: the command
line as clap reads it, the config file, the terminal, the clock, JSON on
stdout and the exit paths.

## Layout of `src/`

- `text` — whitespace, words, lines, trimming and string building.
- `cassette` — the cursor-zipper buffer with its two sides, undo and
  display wrapping.
- `app` — the editing session: focus, scrolling, the timer, the word goal,
  queue order, merging what other writers changed.
- `keys` — what each key does in each mode.
- `picker`, `catalog`, `find`, `stats`, `export`, `recap` — the session
  list, search, statistics, export and the end-of-session recap.
- `queue` — the JSON contract, body format, writes, placement and moves,
  and the listing views of the queue commands.
- `store`, `priority` — the store's records and queue order.
- `resume`, `sync`, `session_writer` — opening a session, noticing other
  writers' changes each tick, and what the editor writes back.
- `cli`, `session`, `output`, `sync_folder` — arguments, session listings,
  cassette bodies, and the synced-folder warning.

Tests are under `tests/`.
