# agent_orchestrator

Orchestration logic for parallel coding agents, verified with Verus.

- `src/supervisor.rs` decides whether a request asks for parallel agents
  (`/parallel a, b, c`) and estimates how complex a request is.
- `src/workspace.rs` is the state that agents share: tracked files,
  messages, pending diffs and agent states.
- `src/synthesis.rs` combines the agents' findings and merges their diffs
  per file, reporting files that several agents changed.
- `src/agent.rs`, `src/config.rs`, `src/ai_client.rs`, `src/context.rs`,
  `src/history.rs` and `src/router.rs` are the agent panel: built-in and
  configured agents, the provider configuration, the server-sent event
  stream, and the decisions of a slash command.
- `src/context_builder.rs` assembles the project context handed to agents.
- `src/text.rs` holds the character-level text functions the others use.

`app/` holds the I/O around the library: the Zed extension, reading the
configuration file, HTTP streaming, `git diff`, JSON, and a lock for
sharing a workspace between threads.
