//! A client as the relay keeps it: who it is, the queue of the packets for
//! it, its links and its pings.

use vstd::prelude::*;
use futures::sync::mpsc::UnboundedSender;
use crate::toxcore::addr::IpAddr;
use crate::toxcore::crypto_core::{gen_ping_id, PublicKey};
use crate::toxcore::io_channel::send_to;
use crate::toxcore::onion::InnerOnionResponse;
use crate::toxcore::tcp::packet::{
    ConnectNotification, Data, DisconnectNotification, OnionResponse, OobReceive, Packet,
    PingRequest, PongResponse, RouteResponse,
};
use crate::toxcore::tcp::server::errors::{delivery, Error};
use crate::toxcore::tcp::server::links::{
    empty_table, index_of, links_wf, spec_insert, spec_set_status, spec_take, spec_wire_id, Link,
    LinkStatus, Links,
};
use crate::toxcore::time::{Instant, NANOS_PER_SEC};

verus! {

/// Interval in seconds for sending TCP PingRequest
pub const TCP_PING_FREQUENCY: u64 = 30;

/// Timeout in seconds for waiting response of PingRequest sent
pub const TCP_PING_TIMEOUT: u64 = 10;

/// What a [`Client`] holds.
pub struct ClientView {
    /// PublicKey of the client.
    pub pk: PublicKey,
    /// IpAddr of the client.
    pub ip_addr: IpAddr,
    /// Port of the client.
    pub port: u16,
    /// The sending end of the queue of the packets for the client.
    pub tx: UnboundedSender<Packet>,
    /// The slots of the links from this client to others.
    pub links: Seq<Option<Link>>,
    /// The id of the last ping sent to the client; 0 before the first.
    pub ping_id: u64,
    /// Last time sent PingRequest packet
    pub last_pinged: Instant,
    /// Last time received PongResponse
    pub last_pong_resp: Instant,
    /// The packets that were handed to the queue, in their order, whether
    /// the queue took them or not.
    pub sent: Seq<Packet>,
}

/// The client `c` after the packet `p` was handed to its queue.
pub open spec fn offered(c: ClientView, p: Packet) -> ClientView {
    ClientView { sent: c.sent.push(p), ..c }
}

/// The client `c` with the links `links`.
pub open spec fn with_links(c: ClientView, links: Seq<Option<Link>>) -> ClientView {
    ClientView { links, ..c }
}

/// The client `c` after a ping with the id `ping_id` was sent to it at `now`.
pub open spec fn pinged(c: ClientView, now: Instant, ping_id: u64) -> ClientView {
    ClientView {
        ping_id,
        last_pinged: now,
        sent: c.sent.push(Packet::PingRequest(PingRequest { ping_id })),
        ..c
    }
}

/// Whether at `now` the last pong of the client is overdue: it is more than
/// `TCP_PING_FREQUENCY + TCP_PING_TIMEOUT` seconds old.
pub open spec fn pong_timedout(c: ClientView, now: Instant) -> bool {
    now.spec_since(c.last_pong_resp) > (TCP_PING_TIMEOUT + TCP_PING_FREQUENCY) * NANOS_PER_SEC
}

/// Whether at `now` the next ping of the client is due: the last one is
/// `TCP_PING_FREQUENCY` seconds old or older.
pub open spec fn ping_due(c: ClientView, now: Instant) -> bool {
    now.spec_since(c.last_pinged) >= TCP_PING_FREQUENCY * NANOS_PER_SEC
}

/// The wire id of the link to `pk`, if there is the link.
pub open spec fn wire_of(links: Seq<Option<Link>>, pk: PublicKey) -> Option<u8> {
    match index_of(links, pk) {
        Some(slot) => Some(spec_wire_id(slot)),
        None => None,
    }
}

/// The link with the wire id `id`, if there is one. Wire ids under 16 name
/// no link.
pub open spec fn link_of_wire(links: Seq<Option<Link>>, id: u8) -> Option<Link> {
    if id >= 16 {
        links[id - 16]
    } else {
        None
    }
}

/// The key of the peer of the link with the wire id `id`, if there is the
/// link.
pub open spec fn peer_of_wire(links: Seq<Option<Link>>, id: u8) -> Option<PublicKey> {
    match link_of_wire(links, id) {
        Some(link) => Some(link.pk),
        None => None,
    }
}

/// The links after the link with the wire id `id` was given up.
pub open spec fn without_wire(links: Seq<Option<Link>>, id: u8) -> Seq<Option<Link>> {
    if id >= 16 {
        spec_take(links, id - 16)
    } else {
        links
    }
}

/// The links after the link with the wire id `id` was marked as registered
/// on both sides, with `to` the wire id that the peer has for this side.
pub open spec fn upgraded_wire(links: Seq<Option<Link>>, id: u8, to: u8) -> Seq<Option<Link>> {
    if id >= 16 && to >= 16 {
        spec_set_status(links, id - 16, LinkStatus::Online((to - 16) as u8))
    } else {
        links
    }
}

/// Structure that represents how Server keeps connected clients. A write-only
/// socket with human interface. A client cannot send a message directly to
/// another client, whereas server can.
pub struct Client {
    /// PublicKey of the client.
    pk: PublicKey,
    /// IpAddr of the client.
    ip_addr: IpAddr,
    /// Port of the client.
    port: u16,
    /// The transmission end of a channel which is used to send values.
    tx: UnboundedSender<Packet>,
    /// The table of the links from this client to others. A client asks for
    /// a link to another client by its key, gets the wire id of the link
    /// back, and names the link by that id from then on.
    links: Links,
    /// Used to check whether PongResponse is correct
    ping_id: u64,
    /// Last time sent PingRequest packet
    last_pinged: Instant,
    /// Last time received PongResponse
    last_pong_resp: Instant,
    /// What was handed to `tx`.
    sent: Ghost<Seq<Packet>>,
}

impl View for Client {
    type V = ClientView;

    closed spec fn view(&self) -> ClientView {
        ClientView {
            pk: self.pk,
            ip_addr: self.ip_addr,
            port: self.port,
            tx: self.tx,
            links: self.links@,
            ping_id: self.ping_id,
            last_pinged: self.last_pinged,
            last_pong_resp: self.last_pong_resp,
            sent: self.sent@,
        }
    }
}

impl Client {
    /// Whether the links of the client are a table of links. They are in every
    /// client that this module makes, and stay so.
    pub open spec fn wf(&self) -> bool {
        links_wf(self@.links)
    }

    /// Create new Client: without links, never pinged, and as if its last
    /// pong had come at `now`.
    pub fn new(
        tx: UnboundedSender<Packet>,
        pk: &PublicKey,
        ip_addr: IpAddr,
        port: u16,
        now: Instant,
    ) -> (client: Client)
        ensures
            client.wf(),
            client@.pk == *pk,
            client@.ip_addr == ip_addr,
            client@.port == port,
            client@.tx == tx,
            client@.links =~= empty_table(),
            client@.ping_id == 0,
            client@.last_pinged == now,
            client@.last_pong_resp == now,
            client@.sent == Seq::<Packet>::empty(),
    {
        Client {
            pk: *pk,
            ip_addr,
            port,
            tx,
            links: Links::new(),
            ping_id: 0,
            last_pinged: now,
            last_pong_resp: now,
            sent: Ghost(Seq::empty()),
        }
    }

    /// PK of the `Client`
    pub fn pk(&self) -> (pk: PublicKey)
        ensures
            pk == self@.pk,
    {
        self.pk
    }

    /// Address of the `Client`
    pub fn ip_addr(&self) -> (ip_addr: IpAddr)
        ensures
            ip_addr == self@.ip_addr,
    {
        self.ip_addr
    }

    /// Port of the `Client`
    pub fn port(&self) -> (port: u16)
        ensures
            port == self@.port,
    {
        self.port
    }

    /// Last ping_id sent to client.
    pub fn ping_id(&self) -> (ping_id: u64)
        ensures
            ping_id == self@.ping_id,
    {
        self.ping_id
    }

    /// Set last_pong_resp
    pub fn set_last_pong_resp(&mut self, time: Instant)
        ensures
            final(self)@ == (ClientView { last_pong_resp: time, ..old(self)@ }),
    {
        self.last_pong_resp = time;
    }

    /// Check if PongResponse timed out
    pub fn is_pong_timedout(&self, now: Instant) -> (timedout: bool)
        ensures
            timedout == pong_timedout(self@, now),
    {
        now.since(self.last_pong_resp) > (TCP_PING_TIMEOUT + TCP_PING_FREQUENCY) * NANOS_PER_SEC
    }

    /// Check if Ping interval is elapsed
    pub fn is_ping_interval_passed(&self, now: Instant) -> (due: bool)
        ensures
            due == ping_due(self@, now),
    {
        now.since(self.last_pinged) >= TCP_PING_FREQUENCY * NANOS_PER_SEC
    }

    /// The table of the links of the client.
    pub fn links(&self) -> (links: &Links)
        ensures
            links@ == self@.links,
            self.wf() ==> links.wf(),
    {
        &self.links
    }

    /// The wire id of the link to `pk`, if there is the link.
    pub fn get_connection_id(&self, pk: &PublicKey) -> (id: Option<u8>)
        requires
            self.wf(),
        ensures
            id == wire_of(self@.links, *pk),
    {
        match self.links.id_by_pk(pk) {
            Some(slot) => Some(Links::wire_id(slot)),
            None => None,
        }
    }

    /// Gives the wire id of the link to `pk`, which is made if there is none
    /// yet. Gives nothing where there is neither the link nor room for it.
    pub fn insert_connection_id(&mut self, pk: &PublicKey) -> (id: Option<u8>)
        requires
            old(self).wf(),
        ensures
            final(self).wf(),
            final(self)@ == with_links(old(self)@, spec_insert(old(self)@.links, *pk).0),
            id == match spec_insert(old(self)@.links, *pk).1 {
                Some(slot) => Some(spec_wire_id(slot)),
                None => None,
            },
    {
        match self.links.insert(pk) {
            Some(slot) => Some(Links::wire_id(slot)),
            None => None,
        }
    }

    /// The key of the peer of the link with the wire id `connection_id`, if
    /// there is the link.
    pub fn get_link(&self, connection_id: u8) -> (pk: Option<PublicKey>)
        requires
            self.wf(),
        ensures
            pk == peer_of_wire(self@.links, connection_id),
    {
        match Links::slot_of(connection_id) {
            Some(slot) => match self.links.by_id(slot) {
                Some(link) => Some(link.pk),
                None => None,
            },
            None => None,
        }
    }

    /// Gives up the link with the wire id `connection_id` and gives the key
    /// of its peer, if there was the link.
    pub fn take_link(&mut self, connection_id: u8) -> (pk: Option<PublicKey>)
        requires
            old(self).wf(),
        ensures
            final(self).wf(),
            final(self)@ == with_links(old(self)@, without_wire(old(self)@.links, connection_id)),
            pk == peer_of_wire(old(self)@.links, connection_id),
    {
        match Links::slot_of(connection_id) {
            Some(slot) => match self.links.take(slot) {
                Some(link) => Some(link.pk),
                None => None,
            },
            None => None,
        }
    }

    /// Marks the link with the wire id `connection_id` as registered on both
    /// sides, with `peer_connection_id` the wire id that the peer has for
    /// this client.
    pub fn upgrade_link(&mut self, connection_id: u8, peer_connection_id: u8)
        requires
            old(self).wf(),
        ensures
            final(self).wf(),
            final(self)@ == with_links(
                old(self)@,
                upgraded_wire(old(self)@.links, connection_id, peer_connection_id),
            ),
    {
        if let Some(slot) = Links::slot_of(connection_id) {
            if let Some(to) = Links::slot_of(peer_connection_id) {
                self.links.upgrade(slot, to);
            }
        }
    }

    /// Send a packet. This method does not ignore IO error
    fn send(&mut self, packet: Packet) -> (r: Result<(), Error>)
        ensures
            final(self)@ == offered(old(self)@, packet),
            r == Ok::<(), Error>(()) || r == Err::<(), Error>(Error::SinkClosed),
    {
        proof {
            self.sent@ = self.sent@.push(packet);
        }
        delivery(send_to(&self.tx, packet))
    }

    /// Send a packet. This method ignores IO error
    fn send_ignore_error(&mut self, packet: Packet)
        ensures
            final(self)@ == offered(old(self)@, packet),
    {
        let ignored = self.send(packet);
    }

    /// Construct RouteResponse and send it to Client
    pub fn send_route_response(&mut self, pk: &PublicKey, connection_id: u8) -> (r: Result<
        (),
        Error,
    >)
        ensures
            final(self)@ == offered(
                old(self)@,
                Packet::RouteResponse(RouteResponse { connection_id, pk: *pk }),
            ),
            r == Ok::<(), Error>(()) || r == Err::<(), Error>(Error::SinkClosed),
    {
        self.send(Packet::RouteResponse(RouteResponse { connection_id, pk: *pk }))
    }

    /// Construct ConnectNotification and send it to Client ignoring IO error
    pub fn send_connect_notification(&mut self, connection_id: u8)
        ensures
            final(self)@ == offered(
                old(self)@,
                Packet::ConnectNotification(ConnectNotification { connection_id }),
            ),
    {
        self.send_ignore_error(Packet::ConnectNotification(ConnectNotification { connection_id }))
    }

    /// Construct DisconnectNotification and send it to Client ignoring IO error
    pub fn send_disconnect_notification(&mut self, connection_id: u8)
        ensures
            final(self)@ == offered(
                old(self)@,
                Packet::DisconnectNotification(DisconnectNotification { connection_id }),
            ),
    {
        self.send_ignore_error(
            Packet::DisconnectNotification(DisconnectNotification { connection_id }),
        )
    }

    /// Construct PongResponse and send it to Client
    pub fn send_pong_response(&mut self, ping_id: u64) -> (r: Result<(), Error>)
        ensures
            final(self)@ == offered(old(self)@, Packet::PongResponse(PongResponse { ping_id })),
            r == Ok::<(), Error>(()) || r == Err::<(), Error>(Error::SinkClosed),
    {
        self.send(Packet::PongResponse(PongResponse { ping_id }))
    }

    /// Construct OobReceive and send it to Client ignoring IO error
    pub fn send_oob(&mut self, sender_pk: &PublicKey, data: Vec<u8>)
        ensures
            final(self)@ == offered(
                old(self)@,
                Packet::OobReceive(OobReceive { sender_pk: *sender_pk, data }),
            ),
    {
        self.send_ignore_error(Packet::OobReceive(OobReceive { sender_pk: *sender_pk, data }))
    }

    /// Construct OnionResponse and send it to Client
    pub fn send_onion_response(&mut self, payload: InnerOnionResponse) -> (r: Result<(), Error>)
        ensures
            final(self)@ == offered(old(self)@, Packet::OnionResponse(OnionResponse { payload })),
            r == Ok::<(), Error>(()) || r == Err::<(), Error>(Error::SinkClosed),
    {
        self.send(Packet::OnionResponse(OnionResponse { payload }))
    }

    /// Construct Data and send it to Client
    pub fn send_data(&mut self, connection_id: u8, data: Vec<u8>) -> (r: Result<(), Error>)
        ensures
            final(self)@ == offered(old(self)@, Packet::Data(Data { connection_id, data })),
            r == Ok::<(), Error>(()) || r == Err::<(), Error>(Error::SinkClosed),
    {
        self.send(Packet::Data(Data { connection_id, data }))
    }

    /// Construct PingRequest with a fresh random id, which is never 0, and
    /// send it to Client; the id and the time `now` are kept for the pong.
    pub fn send_ping_request(&mut self, now: Instant) -> (r: Result<(), Error>)
        ensures
            final(self)@.ping_id != 0,
            final(self)@ == pinged(old(self)@, now, final(self)@.ping_id),
            r == Ok::<(), Error>(()) || r == Err::<(), Error>(Error::SinkClosed),
    {
        let ping_id = gen_ping_id();
        self.last_pinged = now;
        self.ping_id = ping_id;
        self.send(Packet::PingRequest(PingRequest { ping_id }))
    }
}

} // verus!
