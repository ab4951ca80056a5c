//! Card behaviour as data: pure expressions, continuous-effect modifications,
//! the event log, and the dependency analysis between them.
pub mod ability;
pub mod ce;
pub mod context;
pub mod cost;
pub mod event_log;
pub mod executor;
pub mod expr;
pub mod triggers;
