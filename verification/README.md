# Taz Reader

A library for reading taz.de articles and turning them into LingQ lessons,
verified with Verus, and a small program around it.

- `src/` — the verified library:
  - `text`, `numbers`, `dates`, `patterns`: characters, words, decimal
    numbers, calendar dates and regular-expression rewriting.
  - `identity`: stable keys for article URLs.
  - `taz`: article models, the section list, text cleanup for reading and
    for lessons, and the reading-difficulty score.
  - `lingq`: lesson text, lesson rows, upload payloads, addresses and paging.
  - `database`: the library's records, full-text query sanitising, listing
    query plans and schema migration steps.
  - `settings`: the persisted preferences.
  - `gui`: the desktop app's decisions — input parsing, pick lists, filters,
    lesson matching, the job queue and retry list, bulk fetch runs, job
    bookkeeping, the step from a background task's report to the window's
    next state and follow-up work, and the texts shown to the user.
- `tests/` — tests of the library.
- `app/` — the program: SQLite storage, the settings and token files, the
  LingQ HTTP client and JSON decoding.
