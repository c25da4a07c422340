//! The host: a shell inside a pseudoterminal, with a status bar above it.

pub mod bar;
pub mod osc;
pub mod pump;
pub mod screen;
pub mod session;
pub mod terminal;
pub mod transient;
