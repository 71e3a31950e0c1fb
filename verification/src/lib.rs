//! Wire-protocol engine for a JSON-RPC-style debugging session carried over
//! WebSocket-style frames: the frame codec, the upgrade handshake with its
//! cryptographic accept check, and the call/event multiplexing layer.

pub mod byteops;
pub mod command;
pub mod errors;
pub mod frame;
pub mod handshake;
pub mod http;
pub mod mux;
