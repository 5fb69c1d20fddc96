# exocortex

The verified core of a cognitive substrate for multi-agent systems:
decisions screened by capability and by five conservation laws, priority
message queues with backpressure, an identifier stream, an
event bus with per-trace rate limiting, three-tier memory bookkeeping,
per-agent resonance logs, shadow glyph rendering and an agent space (registry,
routing and event log).

- `src/` is the library. Every function carries a contract that Verus proves.
  Quantities that are floating point in the framework (priorities, energies,
  timestamps, embeddings) do not enter it: the library works on integer ranks
  and on the decisions those quantities lead to.
- `app/` is the framework's public face in ordinary Rust: the float-carrying
  types (messages, events, memory entries, conservation budgets, agents) built
  on the library.
- `tests/` exercises the library on concrete values.
