# cairnkit

The deterministic core of a knowledge-precipitation harness for AI-assisted delivery,
written in Verus: every function in `src/` carries a contract that Verus proves, except three
small trusted wrappers around std calls in `text.rs` (`String::push`, `Debug` formatting of a
string and `str::to_lowercase`), whose contracts are believed as stated in their doc comments.
The library never reads the clock: dates and timestamps are handed in by the caller.

- `src/` — the verified library:
  - `stages`, `state`, `gate`, `intent`: the delivery pipeline as a state machine over files
    (routes, advancing, CLARIFY pauses, verify retries and blocking, the admission check);
  - `config`, `import_state`, `evolve`, `notify`: configuration, the cold-start import, the
    self-evolution proposal log and notification text;
  - `knowledge/`: the knowledge model and schema, the progressive index, the budgeted query,
    the reference-tracking loop, the maturity lifecycle, lint, the extraction filter and the
    shared knowledge repository;
  - `text`, `sort`, `strmap`, `json`, `clock`, `errors`: the supporting pieces.
- `tests/` — the test suite, run against the compiled library.
- `app/` — the `cairn` command line: argument parsing, files, git, the clock and the
  YAML/JSON encodings, handing plain values to the library and writing back what it returns.

Laws that span functions are public proof functions named `law_*` (and, in `stages`, the
route facts); each states its property in its doc comment.
