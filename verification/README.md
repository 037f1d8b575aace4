# vibe_monitor

The logic of a local cockpit for AI coding sessions: workspaces, the Attention
Queue, Git status and changes, Codex app-server messages and terminal sessions,
written in Verus with its behaviour stated in contracts and proved.

## Layout

- `src/` — the verified library.
  - `attention.rs` — items that need the user: validation, creation,
    resolution, and the queue order (priority, then creation time). Item
    identifiers are unique in every table (its type invariant).
  - `workspace.rs` — the workspace table: adding a directory (an update when
    the path is already known), listing, finding and removing. Paths and
    identifiers are unique in every table (its type invariant).
  - `git.rs` — reading `git status --porcelain=v1 --branch`, the `diff`,
    `add` and `restore --staged` commands, and the conflict item that unmerged
    files raise.
  - `codex.rs`, `codex/` — detecting the Codex tool, turning approval requests
    into queue items, the app-server protocol messages, and the turn
    lifecycle that decides what can be interrupted.
  - `terminal.rs` — terminal sessions per workspace, with the launcher and
    the pseudo-terminal behind traits.
  - `text.rs`, `json.rs`, `keyed.rs` — text, JSON values (read from a line
    of text with `serde_json`) and a keyed list that the modules share. The keyed list (a vector of key and value with
    unique keys as its type invariant) stands where a `HashMap<String, _>`
    would: with a `String` key, vstd's specification of `HashMap` did not let
    even the length after one insert be proved, while the list's `get`, `insert` and `remove` are verified
    against a `Map` view.
  - `stamps.rs`, `db.rs` — identifiers, timestamps and the database path,
    from `uuid`, `chrono` and `std::path`.
  - The public proof functions named `law_*` state what holds across calls.
- `tests/` — the tests, run against the compiled library.
- `app/` — the desktop side: the SQLite store, the processes (Git, Codex,
  pseudo-terminals), and serde copies of the library's types for the front end.
