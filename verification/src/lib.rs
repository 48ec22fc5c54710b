//! A small key-value server core speaking a RESP-like text protocol.
//!
//! The crate holds the parts of such a server that compute: an incremental
//! frame decoder over a growing text buffer, the command model (`PING`,
//! `ECHO`, `SET` with an optional expiry, `GET`), the store, the dispatcher
//! and the response encoder. Sockets, tasks and locks belong to the caller.
pub mod decimal;
pub mod error;
pub mod lines;
pub mod protocol;
pub mod request_processor;
pub mod storage;
pub mod text;
