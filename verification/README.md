# ai_hist

The rules of a local history of coding-agent sessions, verified with Verus: what is
stored of a session, how it is read back and paged, which model requests count towards
its usage, and what a live capture does when files change.

The library (`src/`) computes on plain values. It opens no database, reads no file and
starts no thread; `app/` does that around it, and calls the library for every decision.

## The library

| Module | What it holds |
| --- | --- |
| `usage`, `session_usage` | token counters of the providers in one shape; the requests of a session and its total |
| `attribution` | which prompt a measured request is charged to |
| `messages`, `evidence` | the events of a session as messages; everything that is stored of one session |
| `source_evidence`, `evidence_columns`, `evidence_sql` | the records that a connector may hand in, and the statements that store them |
| `source_intake`, `sources` | reconciling a snapshot with the stored rows; the registry of connectors |
| `catalog`, `session_store` | what moved in the catalog; errors, sources, and what a store's operations decide |
| `watch`, `registrations` | the watch loop, wake by wake; the roots that a watcher has registered |
| `store`, `queries`, `fts`, `pages`, `keyset`, `storage` | the rows of the ledger, the queries on them, pages and scans |
| `schema`, `migrations`, `migrated` | what a database has to hold, the steps that bring it there, and that they do |
| `prompts` | prompts out of the lines that agents write |
| `json`, `digest`, `text`, `order`, `doubles` | plain JSON values, digests, texts, and doubles by their bits |

Each function states in its `ensures` what it returns. What holds of several functions
together is stated by the public proof functions whose names begin with `law_`.

Four things are taken on trust, each behind one small function: what `serde_json` makes
of a text and how it writes a value (`json`), what `sha2` computes (`digest`), and the
lower case that the standard library gives (`store`).

The name of one source is not fixed by the library: the caller gives it, in
`store::SourceNames`.

## The rest

`tests/` runs the library, in part against an in-memory SQLite database. `app/` opens and
migrates the database, runs the queries, registers with the filesystem and owns the
threads; the ingestion of the providers is behind the traits of `app/engine.rs`.
