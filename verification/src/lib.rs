//! Verified core of a WebSocket signalling node: message-type codes, session
//! bookkeeping, push routing, cache keys and room timeouts.
pub mod cache_keys;
pub mod config;
pub mod local_router_cache;
pub mod connection;
pub mod model;
pub mod processors;
pub mod push_routing;
pub mod room_timeout;
pub mod session;
pub mod session_manager;
pub mod session_tables;
pub mod text;
pub mod types;
pub mod ws_msg_type;
