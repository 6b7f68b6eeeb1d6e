//! What the relay and the state format keep of the onion packets.

use vstd::prelude::*;
use crate::toxcore::addr::IpAddr;
use crate::toxcore::crypto_core::{Nonce, PublicKey};

verus! {

/// The transport over which an address is reached.
#[derive(Clone, Copy, Debug, PartialEq, Eq, Structural)]
pub enum ProtocolType {
    /// UDP.
    UDP,
    /// TCP.
    TCP,
}

/// An address, a port and the transport to reach them by.
#[derive(Clone, Copy, Debug, PartialEq, Eq)]
pub struct IpPort {
    /// Type of protocol.
    pub protocol: ProtocolType,
    /// IP address.
    pub ip_addr: IpAddr,
    /// Port number.
    pub port: u16,
}

/// The answer to an onion announce request.
#[derive(Clone, Debug, PartialEq, Eq)]
pub struct OnionAnnounceResponse {
    /// The data that the request asked to have sent back.
    pub sendback_data: u64,
    /// The nonce of the payload.
    pub nonce: Nonce,
    /// The sealed payload.
    pub payload: Vec<u8>,
}

/// Data that was sent to an announced node.
#[derive(Clone, Debug, PartialEq, Eq)]
pub struct OnionDataResponse {
    /// The nonce of the payload.
    pub nonce: Nonce,
    /// The key that the payload is sealed with.
    pub temporary_pk: PublicKey,
    /// The sealed payload.
    pub payload: Vec<u8>,
}

/// What comes back through an onion path.
#[derive(Clone, Debug, PartialEq, Eq)]
pub enum InnerOnionResponse {
    /// The answer to an announce request.
    OnionAnnounceResponse(OnionAnnounceResponse),
    /// Data that was sent to an announced node.
    OnionDataResponse(OnionDataResponse),
}

} // verus!
