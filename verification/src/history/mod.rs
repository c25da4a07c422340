//! The history of commands: reading the command line, composing the query,
//! and writing the rows.

pub mod args;
pub mod duration;
pub mod meaning;
pub mod render;
pub mod query;
