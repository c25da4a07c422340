//! The daemon: its wire protocol, its state and its connections.

pub mod client;
pub mod lifecycle;
pub mod listener;
pub mod percent;
pub mod places;
pub mod proto;
pub mod proto_laws;
pub mod spool;
pub mod state;
