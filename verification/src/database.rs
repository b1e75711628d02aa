//! The relational store: its tables, and the routines that bring an
//! observation into them.

pub mod classification;
pub mod idempotence;
pub mod links;
pub mod process;
pub mod reconciliation;
pub mod reflection;
pub mod reflection_comment;
pub mod reflection_pr;
pub mod schema;
pub mod stored;
pub mod updates;
pub mod wellformed;
