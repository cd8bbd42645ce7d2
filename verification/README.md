# worksmith

A minimal terminal harness for coding agents. The library holds the rules: when a turn
is done, what a tool may do without asking, what is kept in memory, what a worker's
report says, how a reply is read off a stream. Each rule is stated in a contract and
proved by Verus. The program around it reads files, talks to models and servers, and
starts processes; it performs what the library decides and hands the outcome back.

## Layout

- `src/turn.rs`, `src/agent.rs`, `src/command.rs`: the agent loop as a state machine. It
  hands out commands and takes in what came of them.
- `src/llm/`: requests, streamed replies, and tool calls rescued from plain text.
- `src/tools/`: the tools, the policy on commands, and approval.
- `src/mcp/`: remote tools: catalogs, activation, calls, and stored results.
- `src/session/`: transcripts, replay, compaction, and dated discovery.
- `src/memory.rs`, `src/knowledge.rs`, `src/mining.rs`: what is remembered, indexed, and
  learned from past sessions.
- `src/skill/`: instruction packs, their outlines, and the catalog.
- `src/config.rs`, `src/check.rs`, `src/trust.rs`: configuration, its report, and what a
  project's own configuration may do.
- `src/supervisor.rs`, `src/fanout.rs`, `src/report.rs`, `src/worker.rs`: background
  workers.
- `src/metrics/`, `src/cli/`: accounts of a session, and the words of the command line.
- The other files under `src/` hold what these share: texts, lists, order, paths, JSON,
  TOML, regular expressions, ids and digests. What comes from an outside crate is called
  there through a few small functions whose contracts are believed; their doc comments
  say what is claimed.
- `tests/`: the library, run.
- `app/`: the program.

Most modules end with laws: public proof functions that say what holds of all inputs or
of several calls together.
