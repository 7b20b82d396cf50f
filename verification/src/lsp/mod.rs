//! The LSP side: protocol types, message framing and the server lifecycle.
pub mod types;
pub mod transport;
pub mod lifecycle;
