//! The TCP relay: its packets and its server.

pub mod packet;
pub mod server;
