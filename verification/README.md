# Gaslite

A gas-optimization engine for Solidity contracts on the Mantle L2, with its logic
verified in Verus.

Gaslite parses a contract into functions, retrieves Yul patterns for each of them from
a knowledge base, has a model rewrite the functions, and releases the result only when
Foundry proves it behaviourally equivalent and cheaper on a Mantle fork.

## Layout

- `src/` is the verified library. Every decision of the service is made there, from
  plain values to plain values:
  - `pipeline`, `optimize`, `verify`: the course of a request, what is released and what
    is cached.
  - `analyze`, `normalize`, `splice`: the contract's skeleton, its canonical forms, and
    putting rewrites back at their byte ranges.
  - `forge`, `constructor`, `gas`, `equivalence`: the sandbox project, the generated test
    files, and what forge's output means.
  - `retrieval`, `ingest`, `db`, `json`: searches, pattern records and Turso's pipeline
    protocol.
  - `agent`, `tools`, `orchestrator`: prompts, the watch on an agent's loop, routing.
  - `state`, `dto`, `health`, `logging`: limits and caches, payloads, reports.
  - `solidity`: what is code in a source, and what a comment or a string.
  - `text`, `split`, `number`, `order`, `bytes`, `unicode`, `utils`: strings.
- `tests/` runs the library.
- `app/` is the server around it: HTTP handlers, model calls, Qdrant, Turso, embeddings
  and forge subprocesses.

What holds of the library as a whole is stated by the public proof functions whose names
begin with `law_`.

## Running the server

It listens on `0.0.0.0:8000` and reads `DEEPSEEK_API_KEY`, `QDRANT_API_KEY`,
`QDRANT_CLUSTER_URL`, `TURSO_DATABASE_URL` and `TURSO_AUTH_TOKEN` from the environment,
and optionally `DEEPSEEK_BASE_URL`, `MANTLE_RPC_URL`, `CORS_ALLOW_ORIGINS`,
`FORGE_MAX_CONCURRENCY`, `FORGE_BUILD_TIMEOUT_SECS`, `FORGE_TEST_TIMEOUT_SECS` and
`FORGE_FUZZ_RUNS`.

| Method & path                  | Body                                |
| ------------------------------ | ----------------------------------- |
| `GET  /health`                 |                                     |
| `POST /api/optimize`           | `{ contract_source }`               |
| `POST /api/verify`             | `{ original_code, optimized_code }` |
| `POST /api/admin/ingest-local` | `{ directory_paths }`               |
| `POST /api/admin/qdrant/reset` |                                     |
