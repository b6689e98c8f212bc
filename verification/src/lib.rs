//! A small Redis-compatible server core: RESP encoders, the request framing
//! parser, the in-memory key/value store and the command and replication
//! handshake decisions, all stated and proved with Verus.
pub mod decimal;
pub mod text;
pub mod encode;
pub mod framing;
pub mod app_state;
pub mod store;
pub mod connection;
pub mod args;
