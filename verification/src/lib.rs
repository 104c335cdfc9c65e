//! A small in-memory key-value server speaking a CRLF-delimited, typed wire
//! protocol, with per-key expiry and a primary/replica bootstrap handshake.
//!
//! The crate is organised around the data flow of one request: bytes are
//! parsed into a [`resp::Resp`] tree, turned into a [`commands::Command`],
//! executed by a [`handler::CommandHandler`] against the [`store::Store`],
//! and the resulting [`response::Response`] is serialized back to bytes.
//! [`handshake`] holds the request sequence a replica drives against its
//! primary; the listener, the connection threads and the lock around the
//! shared store live with the embedding program.
pub mod bytesutil;
pub mod commands;
pub mod config;
pub mod handler;
pub mod handshake;
pub mod num;
pub mod raw;
pub mod response;
pub mod resp;
pub mod store;
