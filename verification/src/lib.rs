//! An FCP ("intent-level command") toolkit for Rust workspaces: the command
//! tokenizer and parser, the undo/redo event log, session command routing,
//! response formatting, the symbol index, the LSP framing, types and server
//! lifecycle, and the decisions behind the workspace tools and the daemon bridge.
pub mod text;
pub mod text_map;

pub mod fcpcore;
pub mod lsp;
pub mod resolver;
pub mod mcp;
pub mod bridge;
