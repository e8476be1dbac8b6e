# draction

Draction takes files dropped on the desktop into an inbox, matches them against
rules, and runs the matching rule's workflow (move, copy, rename, transcode, webhook).
An ingest can be undone for ten seconds.

This crate is the verified core, written in Verus; `app/` is the program around it.

## Layout

- `src/` — the library. Every function has a contract; all are proved by Verus
  except eight trusted wrappers around outside calls, whose contracts state what the
  outside crates' code and documentation show: `clock::system_clock`
  (`SystemTime::now`), `clock::utc_date_of` (`chrono` date formatting),
  `auth::random_bytes` (`rand`'s `OsRng`), `ids::uuid_simple_from` (`uuid`),
  `executors::home_dir` (`dirs`), `file_ops::sha256_digest` (`sha2`),
  `text::push_char` (`String::push`) and `text::to_lowercase` (`str::to_lowercase`).
  The modules:
  - `rule`, `rule_engine`, `decimal`: rules and their conditions; the first enabled
    rule whose condition holds decides; numbers compare by value.
  - `workflow`, `workflow_engine`: workflows as graphs; dependency order (Kahn),
    execution waves, and the run state machine (fail-fast, a node starts only once
    its predecessors succeeded).
  - `node_registry`, `executors`: node kinds and what each node does to a file,
    given what the program observed (does the file exist, is ffmpeg there).
  - `undo`: the bounded, time-limited undo stack.
  - `ingest`, `app_core`, `payloads`: where a file lands in the inbox, the built-in
    rules and workflows, what an ingest leads to and the events it emits.
  - `crud`, `settings`, `api`, `runs_api`, `events_api`, `watcher_api`, `auth`:
    the decisions behind the local HTTP API.
  - `paths`, `text`, `json`, `hex`: the text, path and JSON operations these need.
  - `native_shell`: the native window's state and how each message changes it.
  - `laws`: properties that relate several operations.
- `app/` — the program: HTTP server, SQLite history, file and process work, folder
  watching. It calls the library for every decision.
- `tests/` — tests of the library.
