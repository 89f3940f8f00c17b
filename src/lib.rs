//! A small request/response service: clients send an echo or an addition
//! request, the service answers with the matching response.
//!
//! The library holds the verified part: the message model, its binary wire
//! form (protobuf-compatible, built on prost's varint primitives), the
//! per-connection request handling and the decisions of the server's accept
//! loop and of the client. Sockets, threads and logging live with the caller.
pub mod client;
pub mod message;
pub mod server;
pub mod varint;
pub mod wire;
