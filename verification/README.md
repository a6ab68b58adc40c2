# Asteria

A command-line assistant that talks to a DeepSeek model, runs tools in the
workspace, searches local documents and connects to MCP servers. Its decisions
are a library whose contracts are proved by Verus; what touches files, the
network or the terminal is a thin program around it.

## Layout

- `src/`: the verified library.
  - `context`, `context_builder`, `intent`, `tokens`: the history, and what of
    it is sent to the model.
  - `agent_loop`, `agent`, `retry`: the turns of a conversation as a state
    machine, and the assistant around it.
  - `provider`: the wire format of the model and the answer as it streams in.
  - `tools`, `permission`, `tool_router`: the registered tools, who may run
    them, and which of them the model is shown.
  - `mcp`: configurations, names and connections of remote servers.
  - `rag`: chunks, keyword search and citations of local documents.
  - `session`, `events`: what is kept of a session, and what is kept out of it.
  - `commands`, `console`, `rpc`, `terminal`, `tui`, `boot`: what the user
    types and sees.
  - `text`, `paths`, `json`, `namemap`, `seqs`, `hashing`, `clock`: what the
    others are built from.
- `tests/`: tests of the library from outside.
- `app/`: the program: input and output, requests, child processes, files.

Files whose names end in `_laws` state what holds of several functions
together, as do the proof functions whose names begin with `law_` elsewhere.

## Outside code

The library calls `serde_json`, `quick-xml`, `zip`, `globset`, `regex`, `http`,
`meval`, `chrono`, `unicode-width` and `nu-ansi-term` through functions marked
`external_body`. The comment above each says what is believed of the call.
