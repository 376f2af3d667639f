//! A JSON-RPC client transport over a plain socket: requests and responses
//! travel as byte frames separated by a delimiter (`\r\n` by default).
//!
//! The frame codec, its state machine and the decisions of the transport are
//! verified; the socket itself and the JSON-RPC client live outside.

pub mod client;
