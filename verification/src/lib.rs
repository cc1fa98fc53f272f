//! A minimal Redis-wire-compatible in-memory key-value store.
//!
//! The crate provides the protocol logic of a small Redis-like server:
//! a RESP (Redis Serialization Protocol) codec, a decoder for the string
//! subset of the RDB snapshot format, a keyspace with millisecond
//! expirations, and the command handlers built on them. Network I/O and
//! clock reads live outside the library; every function here is pure with
//! respect to its arguments (the current time is always passed in as a
//! plain millisecond count).
#![verifier::loop_isolation(false)]

pub mod arg_handler;
pub mod codec_laws;
pub mod command;
pub mod command_laws;
pub mod keyspace;
pub mod rdb_parser;
pub mod redis_item;
pub mod resp_response;
pub mod session;
