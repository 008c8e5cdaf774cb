# hakai

hakai finds build-artifact directories (`node_modules`, `target`, `__pycache__`
and more) and deletes them, from an interactive terminal list, in headless JSON
mode, or as an IPC server for a separate front end.

## Layout

- `src/` — the library, verified with Verus:
  - `tui/app.rs` — the state machine of the interactive list: results, sizes and
    totals, sorting and filtering, the cursor, selection modes, search, pending
    and batch deletes, undo, keys, mouse and outside events.
  - `tui/ui.rs` — what each row, bar and popup of the interface shows.
  - `tui/laws.rs` — properties that relate several operations of the list.
  - `config.rs` — settings, profiles and the built-in profiles.
  - `scanner.rs`, `sizer.rs`, `deleter.rs`, `risk.rs` — the decisions of the
    walk, the size totals, the deletion outcomes and the risk levels.
  - `headless.rs`, `ipc.rs`, `cli.rs` — headless records and reports, the IPC
    session and its events, command-line values.
  - `paths.rs`, `text.rs`, `sorting.rs` — Unix path semantics, string helpers
    and a verified stable sort.
- `app/` — the program around it: arguments, configuration files, the parallel
  walker, the file system, the terminal, JSON and the IPC transport.
- `tests/` — tests of the library.
