//! The relay, the state format and what they stand on.

pub mod addr;
pub mod binary_io;
pub mod crypto_core;
pub mod dht;
pub mod io_channel;
pub mod onion;
pub mod state_format;
pub mod tcp;
pub mod time;
pub mod toxid;
