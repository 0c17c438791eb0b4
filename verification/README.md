# kotlin-analyzer

A language server for a subset of Kotlin. The core logic is a library written
in Verus: its functions carry `requires`/`ensures` contracts over
mathematical models (sequences of chars, maps of documents, sequences of
index entries) and Verus proves them.

## Layout

- `src/text` — documents and their store, UTF-16 position mapping over a
  `ropey::Rope`, string orders and sorting, URIs.
- `src/parser` — lexer, declaration grammar (a small automaton), and syntax
  diagnostics.
- `src/diagnostics` — diagnostics and their protocol form.
- `src/analysis` — the symbols of one file.
- `src/index` — the workspace symbol index and the decisions of a disk scan.
- `src/gradle` — Gradle build files, their fingerprint, the classpath run's
  command and arguments, and the per-root cache.
- `src/lsp` — go to definition, the server's command and roots, and what
  happens when a document is opened, changed or closed.
- `app/` — the server process: `tower_lsp` plumbing, file system walks,
  the Gradle process, logging.
- `tests/` — tests of the library.

Laws that span several calls are public proof functions named `law_*`.
