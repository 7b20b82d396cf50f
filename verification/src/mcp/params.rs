//! Parameters of the MCP tools.
use vstd::prelude::*;

verus! {

#[derive(Debug)]
pub struct QueryParams {
    /// FCP query operation string, e.g. 'def main @file:main.rs'
    pub input: String,
}

#[derive(Debug)]
pub struct SessionParams {
    /// Session action: 'open PATH', 'status', 'close'
    pub action: String,
}

#[derive(Debug)]
pub struct MutationParams {
    /// Mutation operation strings, e.g. 'rename Config Settings'
    pub ops: Vec<String>,
}

#[derive(Debug)]
pub struct HelpParams {}

} // verus!
