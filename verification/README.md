# orchestra_core

The core of a workflow orchestrator, written in Verus: workflow sources are
lexed, parsed and lowered into execution plans; compiled artifacts are
assembled, sealed under the SHA-256 of their canonical JSON and checked
again; automation runs claim tracker issues, dispatch them under a
concurrency limit, record effects, and are paused, reconciled and projected
for clients; execution queries page and digest what a run recorded.

Layout:

- `src/` is the verified library. Each module states its behaviour in
  `requires` / `ensures` contracts over spec functions and proves it. Calls
  into `sha2`, `serde_json`, `serde_json_canonicalizer` and `minijinja` stand
  behind small trusted wrappers whose contracts name or state their results.
- `tests/` runs the library on concrete values.
- `app/` is the unverified shell around it: process spawning for validation
  workers, serde records for the wire and YAML formats, and file reading.
