# idm_rs

A resumable, multi-connection download accelerator whose decision logic is a
Verus-verified library.

- `src/` — the verified library:
  - `ranges`: splitting a file into inclusive byte ranges, with the proof that
    the ranges partition the file;
  - `adaptive`: the shared connection-target controller and its tuning step;
  - `engine`: probing metadata, enqueue planning, resuming stored chunks, the
    worker step, retry/backoff policy, request planning (`Range` header,
    user agent), throttling and stream accounting, file-name inference;
  - `text`: decimal parsing and formatting, substring search;
  - `ai`: the FNV-1a token hash, token bucket counts, scoring-rule matching;
  - `config`, `models`, `dashboard`, `fileio`: settings, stored records,
    shared counters and the positional-write step.
- `app/` — the command-line program: HTTP, SQLite, files, timers, the worker
  pool and the floating-point metrics around the library.
- `tests/` — tests of the library on concrete values.
