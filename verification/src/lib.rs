//! An MQTT 3.1.1 client library: packet encoding and decoding, client
//! configuration, and the decisions of the client's connection loop.

pub mod packet;
pub mod client;
pub mod error;
mod channel;
