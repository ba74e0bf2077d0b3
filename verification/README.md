# repo_radar

A read-only repository inspector: it walks a directory tree, counts files,
bytes, lines, extensions and languages, summarizes Git status and recent
commit activity, reads the Cargo manifest and lockfile, finds the project's
stated purpose, and renders the result as text, JSON or a self-contained HTML
dashboard.

The library under `src/` is written in Verus. Every function there carries a
`requires`/`ensures` contract over spec-level models (`Seq`, `Map`, `nat`,
views of the library's own types), and Verus proves the code against it.

## Layout

- `src/lib.rs` — the report model (`ScanReport`, `Analysis`, `NotEvaluated`,
  `ScanConfig`, …) and terminal sanitizing.
- `src/scan/` — the scan's decisions and bookkeeping: which entries to skip,
  the order entries are walked in, line counting over streamed chunks, and the
  per-extension, per-language and per-directory totals.
- `src/analysis/` — Git status and activity from the output of `git`, the
  Cargo manifest and lockfile, and the project purpose (manifests, README,
  `.git/description`).
- `src/render/` — byte sizes for people, the text summary and the HTML
  dashboard.
- `src/cli.rs` — argument parsing.
- `src/sort.rs`, `src/text.rs` — a verified stable merge sort and the text
  helpers the rest builds on.
- `src/document.rs` — a parsed TOML or JSON document as the library reads
  it, and the names for what the two parsers make of a text.
- `src/boundary.rs` — the few calls into `std`, `toml` and `serde_json` that
  Verus does not see into, each with the contract the library relies on.
- `app/` — the program around the library: reading the filesystem, running
  `git`, deserializing manifests, JSON output and `main`.
- `tests/` — the test suite, run against the compiled library.

## Laws

Besides each function's contract, the library states and proves properties
that span functions, as public proof functions: sanitizing removes every
terminal control and is idempotent; the text summary holds no terminal
control but its line breaks; escaped HTML is inert and reads back as the
text it came from; the report's
per-language, per-extension and root-directory totals reconcile with its file
and byte totals; the walk order and the README choice never depend on how the
filesystem lists a directory; the report's lists are strictly ordered;
the commit activity does not depend on the order of `git log`'s lines;
reported dependencies are ordered by kind and
name; normalized statements are normal and normalizing is idempotent; a capped
statement stays within its cap.
