# Pulse core

The rules of Pulse, a menu bar app that checks HTTP endpoints, as a library whose behaviour is
stated in contracts and proved with Verus.

## Layout

- `src/` — the verified library.
  - `domain/` — services, settings, assertions, JSON documents, check evidence, error messages,
    and the view the UI lists.
  - `eval/` — JSON paths and the verdict on a response.
  - `poller/` — the per-service state machine (three strikes to Down), redirects and the request
    of a check, offline detection, and the scheduler's decisions.
  - `notify/` — toast copy, grouping of Downs into a digest, quiet hours and their queue.
  - `store/` — schema versions, import/export, keychain plans and reveal grants, history clocks.
  - `platform/` — tray mark and click protocol, popover placement, launch prompt, power events.
  - `launch.rs`, `logging.rs`, `draft.rs`, `text.rs`.
- `tests/` — tests run against the compiled library.
- `app/` — files on disk, the SQLite history, HTTP with reqwest, the polling tasks (tokio), JSON
  shapes (serde), floating-point formatting, assertion comparison, the log file, and the startup
  sequence.

Times are milliseconds since the Unix epoch (`i64`) or on a monotonic clock (`u64`).
