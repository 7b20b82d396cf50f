# fcp_rust

The logic of an FCP ("intent-level command") server for Rust workspaces,
verified with Verus, and the I/O around it.

- `src/` — the verified library:
  - `fcpcore/` — the operation tokenizer and parser, the `ERROR:`/prefix
    formatter and "did you mean" suggestions, the undo/redo event log and its
    laws, and session command routing over domain hooks.
  - `lsp/` — LSP types (symbol kind and severity codes), Content-Length
    framing and header reading, message routing, and the server lifecycle
    (start plan, restart policy, documents to replay).
  - `resolver/` — the symbol index.
  - `mcp/` — tool parameters and the decisions behind the workspace tools
    (session actions, reports, diagnostics refresh and settling, the first
    symbol listing).
  - `bridge.rs` — daemon socket candidates and request routing.
  - `text.rs`, `text_map.rs` — text helpers and a string-keyed map.
- `tests/` — tests of the library.
- `app/` — the rust-analyzer child process, async stdio transport, serde
  forms of the types, the client lifecycle and socket discovery.
