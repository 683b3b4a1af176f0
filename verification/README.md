# Alfred

Alfred is a local-only Model Context Protocol server that gives an agent deterministic,
workspace-scoped tools: workspace queries and search, plan and memory state, patches,
bulk file operations and runtime logs.

This crate is written in Verus. Its logic is verified against the contracts stated in
its source.

## Layout

- `src/`: the verified library.
  - `app.rs`, `router.rs`, `capabilities.rs`, `tool_execution.rs`, `envelope.rs`,
    `protocol.rs`: the tool surface, routing and the result envelopes.
  - `configuration.rs` and `configuration/`: configuration documents, their merge with
    the environment and the host's directories, and the paths derived from them.
  - `path_encoding.rs`: rendering host paths (including non-UTF-8 ones) as protocol text,
    and reading them back.
  - `redaction.rs`: redaction rules and their application to text and JSON values.
  - `services/`: the plan document (`plan_store.rs`, with `plan_round_trip.rs` proving
    that a rendered plan reads back as itself, and what a read gives after an add, an
    edit, a delete or a status update), memory facts, patches and reverts, the
    workspace index, bulk file jobs, log following, ignore rules and bounded file reads.
  - `text.rs`, `json.rs`: text and JSON building blocks with their specifications.
- `app/`: the executable and the system side: files, directories, the environment,
  threads, the full-text memory store and the runtime logger. It hands the library plain
  values and acts on what the library decides.
- `tests/`: tests of the library on concrete values.
