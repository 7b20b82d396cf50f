//! The MCP side: tool parameters and the decisions behind the workspace tools.
pub mod params;
pub mod workspace;
