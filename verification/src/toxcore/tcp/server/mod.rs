//! The implementation of TCP relay server

pub mod client;
pub mod errors;
pub mod keys_by_addr;
pub mod laws;
pub mod links;
pub mod model;
pub mod server;

pub use self::client::Client;
pub use self::errors::Error;
pub use self::server::Server;
