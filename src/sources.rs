//! Producers that feed a graph from outside.

pub mod http_client;
pub mod websocket_client;
