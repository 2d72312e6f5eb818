# memex

Shard-based memory service: content is ingested into per-entity shards of
tokens (kept resident in a cortex KV cache), retrieval composes shards of one
namespace, every position a retrieval returns is traced back to the content it
came from, and every ingestion and retrieval is written to a hash-chained,
tamper-evident audit log.

Layout:

- `src/` — the library, verified with Verus: shard identifiers and the shard
  manager (`shard`, `manager`), the position map (`sidecar`), the audit log
  (`audit`, `digest`, `time`), consent (`consent`), the ingestion and
  retrieval pipelines (`ingest`, `retrieval`), the API's error mapping and
  shard operations (`api`), the corpus driver's chunking rules (`corpus`,
  `driver`), the operator CLI's parsing and ingest loop state (`cli`, `run`)
  and the retrieval smoke battery's glob matching and report (`smoke`).
- `tests/` — tests of the library.
- `app/` — the program around it: the HTTP server (axum), sled persistence,
  the HTTP cortex client, the operator CLI (`serve`, `ingest`, `smoke`), the
  wasm driver host and the markdown driver's file reading.
