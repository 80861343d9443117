# nicewatch

An automatic CPU/IO scheduling-priority daemon for Linux desktops: it watches
the process table, matches processes against a rules file (or a game
heuristic), and applies nice values, IO priorities and cgroup v2 limits.

## Layout

- `src/` — the verified library (Verus). Everything the daemon decides lives
  here, with contracts:
  - `common` — tiers and presets, the rule schema, config paths, IPC request
    shapes.
  - `rules` — the rule set and the resolution of one process to a target.
  - `game_detect`, `known_games` — the game heuristic and the catalog match.
  - `proc_scan` — parsers for the `/proc` files the daemon reads.
  - `applier` — IO-priority encoding, nice clamping, cgroup naming, limit
    files, and `CgroupManager`, the table of enrolled pids that plans each
    reconcile step.
  - `sync` — the two-file config state machine (root file authoritative,
    local file a debounced staging copy promoted after it settles).
  - `daemon` — per-process targets, GUI requests and game prompts.
  - `config`, `cli`, `setup`, `paths`, `text` — validation, CLI formatting,
    service files, path and text helpers.
  - `apps`, `theme`, `settings`, `gui` — the GUI's desktop-entry, theme and
    action logic.
- `tests/` — tests of the library on concrete values.
- `app/` — the daemon binary: reads `/proc` and the rules files, performs the
  syscalls and filesystem writes the library plans, serves the GUI socket.
