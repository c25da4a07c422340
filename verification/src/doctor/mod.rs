//! The doctor's report: what it finds in the environment, and its layout.

pub mod checks;
pub mod report;
pub mod runtime;
pub mod sources;
