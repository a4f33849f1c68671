# flapjack core

The verified core of a multi-tenant full-text search engine, written in Verus.

- `src/` is the library. Its functions are verified, except the small
  `#[verifier::external_body]` wrappers around calls into `serde_json`,
  `indexmap`, `dashmap`, `tantivy` and `std`, whose contracts are trusted and each say in
  a doc comment what they claim of the outside function:
  - `memory`, `memory_observer`: the writer memory budget and memory-pressure levels;
  - `schema`, `search_schema`: field definitions and the search engine schema every index uses;
  - `document`: document values, their split into searched and filtered parts, and JSON term paths;
  - `converter`: a document's id, its parts and facet paths, and the engine's document built from them;
  - `search`: the order of searchable paths, merging the hits of query variants, the reported
    total, the page window and the shorter queries tried when nothing was found;
  - `settings`: index settings, facet attributes, retrievability, embedder changes;
  - `synonyms`, `rules`: synonym and query-rule stores, search, query expansion and rule effects;
  - `write_queue`: when the write queue commits, and what one committed batch does;
  - `recovery`: last-writer-wins stamps and the replay of the operation log;
  - `tasks`: task bookkeeping, and the steps of the export and compaction tasks;
  - `s3`: snapshot naming, ordering and retention;
  - `text`, `error`: verified string helpers and the library's error type.
- `tests/` exercises the library with concrete values.
- `app/` is ordinary Rust around the library: environment and files, JSON
  persistence, the asynchronous write and task loops, the compaction and
  recovery drivers, and relevance weights (floating point).
