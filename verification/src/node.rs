//! Decisions of the counter node: durable records, client protocol, peer frames and the engine's
//! state transitions.

pub mod app_store;
pub mod config;
pub mod engine;
pub mod host_registry;
pub mod peer_link;
pub mod protocol;
pub mod record;
pub mod render;
