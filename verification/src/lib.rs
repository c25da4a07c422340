//! Prompt segments, shell history, and the protocol of the daemon behind them.

pub mod banner;
pub mod capture;
pub mod color;
pub mod config;
pub mod configure;
pub mod daemon;
pub mod decimal;
pub mod doctor;
pub mod event;
pub mod health;
pub mod history;
pub mod host;
pub mod json;
pub mod legacy_cache;
pub mod order;
pub mod paths;
pub mod repo_status;
pub mod segments;
pub mod span;
pub mod table;
pub mod text;
pub mod wire;
