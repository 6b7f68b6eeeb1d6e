//! The packets that a client and the relay exchange.

use vstd::prelude::*;
use crate::toxcore::crypto_core::{Nonce, PublicKey};
use crate::toxcore::onion::{InnerOnionResponse, IpPort};

verus! {

/// Asks the relay for a link to the client with the key `pk`.
#[derive(Clone, Debug, PartialEq, Eq)]
pub struct RouteRequest {
    /// The key of the peer.
    pub pk: PublicKey,
}

/// The answer to a [`RouteRequest`]: the wire id of the link to `pk`, or 0
/// where there is no link.
#[derive(Clone, Debug, PartialEq, Eq)]
pub struct RouteResponse {
    /// The wire id of the link, or 0.
    pub connection_id: u8,
    /// The key of the peer.
    pub pk: PublicKey,
}

/// Tells a client that the peer of the link `connection_id` has linked back.
#[derive(Clone, Debug, PartialEq, Eq)]
pub struct ConnectNotification {
    /// The wire id of the link.
    pub connection_id: u8,
}

/// From a client: gives up the link `connection_id`. From the relay: the peer
/// of the link `connection_id` is gone.
#[derive(Clone, Debug, PartialEq, Eq)]
pub struct DisconnectNotification {
    /// The wire id of the link.
    pub connection_id: u8,
}

/// Asks for a [`PongResponse`] with the same `ping_id`.
#[derive(Clone, Debug, PartialEq, Eq)]
pub struct PingRequest {
    /// The id of the ping; never 0.
    pub ping_id: u64,
}

/// The answer to a [`PingRequest`].
#[derive(Clone, Debug, PartialEq, Eq)]
pub struct PongResponse {
    /// The id of the ping that is answered.
    pub ping_id: u64,
}

/// Data for a client to which the sender holds no link.
#[derive(Clone, Debug, PartialEq, Eq)]
pub struct OobSend {
    /// The key of the client that the data is for.
    pub destination_pk: PublicKey,
    /// The data: 1 to 1024 bytes.
    pub data: Vec<u8>,
}

/// Data from a client that holds no link to the receiver.
#[derive(Clone, Debug, PartialEq, Eq)]
pub struct OobReceive {
    /// The key of the client that the data is from.
    pub sender_pk: PublicKey,
    /// The data.
    pub data: Vec<u8>,
}

/// Data for the peer of the link `connection_id`.
#[derive(Clone, Debug, PartialEq, Eq)]
pub struct Data {
    /// The wire id of the link.
    pub connection_id: u8,
    /// The data.
    pub data: Vec<u8>,
}

/// A request that the relay passes on to the onion over UDP.
#[derive(Clone, Debug, PartialEq, Eq)]
pub struct OnionRequest {
    /// The nonce of the payload.
    pub nonce: Nonce,
    /// Where the next node of the path is reached.
    pub ip_port: IpPort,
    /// The key that the payload is sealed with.
    pub temporary_pk: PublicKey,
    /// The sealed payload.
    pub payload: Vec<u8>,
}

/// What came back from the onion for a client.
#[derive(Clone, Debug, PartialEq, Eq)]
pub struct OnionResponse {
    /// What came back.
    pub payload: InnerOnionResponse,
}

/// A packet between a client and the relay.
#[derive(Clone, Debug, PartialEq, Eq)]
pub enum Packet {
    /// [`RouteRequest`] structure.
    RouteRequest(RouteRequest),
    /// [`RouteResponse`] structure.
    RouteResponse(RouteResponse),
    /// [`ConnectNotification`] structure.
    ConnectNotification(ConnectNotification),
    /// [`DisconnectNotification`] structure.
    DisconnectNotification(DisconnectNotification),
    /// [`PingRequest`] structure.
    PingRequest(PingRequest),
    /// [`PongResponse`] structure.
    PongResponse(PongResponse),
    /// [`OobSend`] structure.
    OobSend(OobSend),
    /// [`OobReceive`] structure.
    OobReceive(OobReceive),
    /// [`OnionRequest`] structure.
    OnionRequest(OnionRequest),
    /// [`OnionResponse`] structure.
    OnionResponse(OnionResponse),
    /// [`Data`] structure.
    Data(Data),
}

} // verus!
