//! The protocol that Frama-C's server speaks over its socket.

pub mod client;
pub mod codec;
