# floxide

A workflow framework whose deciding logic is verified with Verus: retry
policies and backoff schedules, context merging, the event log, the
in-memory stores behind distributed runs, the choices workers and
orchestrators make between their asynchronous calls, event routing, and
the workflow definition language (tokenizer, grammar, parser, edge
grouping and the plan derived from a definition, DOT output included).

Layout:

- `src/` — the verified library. Each public function states its result in
  its `ensures`; laws that relate several functions are public proof
  functions (`lemma_*`). Calls into `std`, `uuid`, `chrono` and `rand`
  go through small trusted wrappers in `duration.rs`, `clock.rs`,
  `distributed/worker.rs` and `definition/plan.rs`.
- `tests/` — tests on concrete values.
- `app/` — the asynchronous runtime around the library: node and workflow
  traits, workers, orchestrators, channels, serde records and file
  polling. It calls the library for every decision.
