# vulcano

A small command-line client for chat-completion models (DeepSeek, with the
OpenAI-compatible API), in six modes that follow how models came to be used:
`ask`, `chat`, `tools`, `agent`, `crew`, `manager`.

The library under `src/` is written in Verus and verified: every function has
a contract over a mathematical model of its data.

- `text` — character-level helpers (trim, split, lines, join, decimal, order).
- `config` — where configuration lives, and the `env` secrets file format.
- `message` — conversation messages.
- `stream` — assembling a streamed (server-sent events) reply.
- `chat` — a conversation with history.
- `tools` — tool registry and the tool-calling loop as a state machine.
- `crew` — agents and pipelines of agents.
- `team` — the personas and delegation rules of the agent modes.
- `skills` — Markdown skills: front matter, choosing, composing, ordering.
- `cli` — mode selection, shared flags, help text, chat input.
- `ui` — the reporter interface and the terminal look.
- `toolbox` — the texts of the system tools.
- `mcp` — naming and result rules of the Model Context Protocol client.

`app/` holds the program around it: the HTTP streaming, child processes for MCP
servers, the file system, the terminal, and the async drivers of the library's
state machines.
