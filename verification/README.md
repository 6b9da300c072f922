# nebula

Nebula is the training forge of an autonomous agent swarm: it sanitizes
inference telemetry, judges and routes divergent answers, builds datasets,
trains, validates and quantizes LoRA adapters, and syncs knowledge between
nodes. Each service is a module of this library; the services talk to the
outside world (buses, stores, models, registries) through traits that the
deployment implements.

## Layout

- `src/` — the library, verified with Verus. A function that only computes
  states its result in its contract. A function that calls the deployment's
  traits states which calls it makes, with which arguments and in which
  order, and how its result follows from their answers; what those answers
  are is up to the deployment, so it cannot promise them. Properties that
  relate several functions are stated and proved as public proof functions.
  - shared: `error`, `text` (characters, search, trimming, lines, joining,
    UTF-8 length), `order` (stable ordering by rank, lexicographic order of
    strings), `hashing` (SHA-256 and hex), `jsonl` (JSON string quoting).
  - services: `anonymizer`, `telemetry_gateway`, `tenant_core`,
    `tenant_router`, `eval_ast`, `divergence_aggregator`, `economic_governor`,
    `redis_budget`, `teacher_arbitrator`, `dpo_judge`, `dataset_forge`,
    `golden_dataset`, `crdt_merger`, `p2p_sync`, `training_orchestrator`,
    `lora_validator`, `quantization`, `deployment_policy`, `drift_monitor`,
    `curriculum`, `doc_parser`, `semantic_chunker`, `tool_gap`,
    `tool_architect`, `wasm_foundry`.
- `tests/` — tests of the library on concrete values.
- `app/` — the shell: JSON and protobuf decoding of incoming payloads, the
  Redis connection, the TypeScript export of tenant summaries, and the parts
  of services that decide in floating point (semantic similarity,
  deduplication, rollout and drift rates).

Values that are JSON documents in messages (contexts, tool schemas) are held
as JSON text in the library; `f32` values that the library only carries are
held as their bits.
