//! The FCP core: tokenizer, operation parser, formatter, event log and
//! session routing.
pub mod tokenizer;
pub mod token_laws;
pub mod parsed_op;
pub mod formatter;
pub mod event_log;
pub mod log_laws;
pub mod session;
