# clipboard_manager

A clipboard history manager for macOS and Windows, built around a verified core.

- `src/` is the core, verified with Verus:
  - `storage`: the history table and the settings table (`Database`), with the
    insert-or-refresh rule for repeated content, the listing query (filters,
    `LIKE` search, pinned-first and newest-first order, paging), pinning,
    deleting, clearing and the history limit; `storage::proofs` holds the
    lemmas about filtering and the listing order.
  - `clipboard`: the change detection of the macOS and Windows monitors.
  - `capture`: how a captured text or image becomes a history record.
  - `paste`: what pasting a record writes to the clipboard.
  - `text`: hex, decimal, `u32` parsing and `LIKE` matching.
  - `laws`: properties that span several operations.
- `app/` is the desktop application: the Tauri shell and commands, the
  clipboard polling thread, the SQLite file the history is kept in, the tray
  menu, the global shortcut, thumbnails and the platform calls.
- `tests/` runs the core on concrete values.
