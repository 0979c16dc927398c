//! A minimal chat relay core: the SMRT binary wire protocol (fixed-layout
//! framing over raw TCP or WebSocket), the HTTP/SMRT transport multiplexer,
//! the per-connection dispatcher, and the append-only per-chat message store.

pub mod codec;
pub mod constants;
pub mod dispatch;
pub mod helpers;
pub mod http;
pub mod layout;
pub mod store;
pub mod wire;
