//! What the library keeps of the DHT: its nodes as they are written down.

pub mod daemon_state;
pub mod packed_node;
