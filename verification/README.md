# herdr_flash

A scrollback viewer popup for [Herdr](https://herdr.dev): it reads the
source pane's scrollback over the Herdr socket, shows it with relative line
numbers and a cursor, and offers flash-style word and line jump labels and
incremental search. The logic is a library verified with Verus; a thin
binary drives the terminal.

## Layout

- `src/` — the verified library.
  - `flash.rs` — word-jump labels (matches, continuations, the label pool,
    distance ordering) and line-jump labels; `flash_laws.rs` and
    `sorting.rs` prove what the labels guarantee.
  - `search.rs` — incremental search matches and the current match.
  - `config.rs` — `config.toml` settings over built-in defaults;
    `config_laws.rs` proves what every loaded configuration guarantees.
  - `viewer.rs` — the viewer state, cursor motion, scrolling, and what each
    visible line shows; `viewer_laws.rs` proves visibility and undo laws.
  - `render.rs` — hex colors, popup centering, selection ranges, and the
    styled spans of one line.
  - `protocol.rs` — JSON documents as plain values, the launch context and
    `pane.read` replies.
  - `toml_doc.rs` — TOML documents as plain values.
  - `text.rs`, `style.rs` — character helpers, colors and cell styles.
- `tests/` — tests of the library.
- `app/` — the binary: environment, files, the socket, and the ratatui /
  crossterm terminal loop.
