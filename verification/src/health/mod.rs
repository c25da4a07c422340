//! The health report: its checks, what each says of a reading, and its layout.

pub mod check;
pub mod checks;
pub mod macos;
pub mod render;
pub mod report;
