# polybot

The verified core of Polybot, a command-line tool for trading on Polymarket's
central limit order book, written in Verus.

## Layout

- `src/` — the library, proved with Verus.
  - `text.rs`, `paths.rs` — string and path helpers with their specifications.
  - `auth.rs`, `auth_env.rs` — client set-up decisions and the L2 request
    signature (HMAC-SHA256 over timestamp, method, path and body).
  - `address_book/` — the address book: entries and their invariants,
    queries and their ordering, the CSV format, the service operations, the
    sync paging and retry policy, the activity tally, and the laws that
    relate the operations (`laws.rs`).
  - `cli/` — the arguments of each command and the decisions the commands
    make: query building and paging of the market database, key handling
    of the terminal interfaces, cache validity, chunk tallies of the index,
    worktree listing, trade date ranges.
- `tests/` — tests of the library on concrete values.
- `app/` — the executable: argument parsing, files, git, and the
  floating-point figures.

Calls into `base64`, `hmac`/`sha2`, `chrono`, `rust_decimal` and
`serde_json` are made in the library through small trusted wrappers whose
contracts state what those crates document; the clock is read there too,
through `chrono::Utc::now`.
