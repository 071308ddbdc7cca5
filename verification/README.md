# fsspec_browser

A terminal browser for fsspec-style filesystems (the local disk and S3
buckets), whose logic is a Verus-verified library.

## Layout

- `src/` — the verified library.
  - `text`, `options`, `args`, `launch`: strings, storage options, the command
    line and the session prompt.
  - `entry`, `tree`: filesystem entries and the tree of loaded entries with the
    rows it shows.
  - `listing`, `backend`, `python_backend`, `urls`: listing order and pages,
    what a backend decides (names, parents, how paths are shown, how a session
    is opened), preview pages of database tables and columns, download targets.
  - `render`, `sizes`: preview text, JSON tables, metadata lines, sizes.
  - `app_spec`, `app`, `actions`, `panes`: the browser as a state machine — its
    state, what each key and each finished background job does to it, and what
    its panes show.
- `app/main.rs` — the program: terminal drawing with ratatui and crossterm,
  reading the prompt, opening filesystems with `fsspec_rs`, and running the
  background reads that the browser asks for.
- `tests/` — the tests.
