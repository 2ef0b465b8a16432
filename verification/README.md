# jinfu_search

A local file-name search index, verified with Verus, and the programs around it.

The index keeps metadata only: paths, names, sizes, times and NTFS record numbers, never what files
contain. It is filled by walks through directory trees and by snapshots of NTFS file tables, and it
is kept up to date from the change journals of volumes and from file-system notifications.

## Layout

- `src/` is the library. It does no input or output: what was read comes in as values, and so does
  the present.
  - `text`, `utf16`, `bytes`, `clock`, `paths`, `like`, `normalize`: texts, numbers, times, paths.
  - `ntfs`, `volume`: records of file tables and journals, and how volumes are read.
  - `tables`, `delta`, `root`, `index`, `sync`, `overview`, `refresh`: what the index holds and what
    each operation does to it.
  - `search`: which entries a query finds, and in which order.
  - `json`, `rpc`, `pipe`, `mcp`: the control protocol, its transport and the tools for agents.
  - `maintenance`, `search_ui`, `tray`, `startup`: background work, window, tray and start.
  - `laws`, `tree_laws`: what holds across operations.
- `tests/` runs the library on values.
- `app/` is ordinary Rust: the database, the disks, the pipe, the window and the command line.

## What is not proved

The library calls `unicode-normalization` for canonical composition, `serde_json` for reading and
printing JSON, and the standard library for lower case and a few conversions. Each of these calls
stands behind one declaration whose comment says what is taken for granted.
