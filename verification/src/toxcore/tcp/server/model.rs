//! What the relay does, said over what it holds: the clients with their
//! links and the packets handed to their queues, the index of addresses, and
//! the requests handed to the onion.
//!
//! The relay hands packets to queues. Whether a queue takes a packet is the
//! matter of whoever reads the queue; where the relay has to know, the answer
//! is the `delivered` that the functions below take.

use vstd::prelude::*;
use futures::sync::mpsc::UnboundedSender;
use crate::toxcore::addr::{IpAddr, SocketAddr};
use crate::toxcore::crypto_core::PublicKey;
use crate::toxcore::tcp::packet::{
    ConnectNotification, Data, DisconnectNotification, OnionRequest, OobReceive, Packet,
    PongResponse, RouteResponse,
};
use crate::toxcore::tcp::server::client::{
    offered, peer_of_wire, pong_timedout, upgraded_wire, wire_of, with_links, without_wire,
    ClientView,
};
use crate::toxcore::tcp::server::errors::{strict, Error};
use crate::toxcore::tcp::server::links::{index_of, links_wf, spec_insert, spec_wire_id, Link};
use crate::toxcore::time::Instant;

verus! {

/// What a relay holds.
pub struct ServerView {
    /// The connected clients, in the order in which their keys came.
    pub clients: Seq<ClientView>,
    /// The key of the client that was last seen at an address and a port.
    pub by_addr: Map<(IpAddr, u16), PublicKey>,
    /// The sending end of the queue to the onion, where the relay has one.
    pub onion_sink: Option<UnboundedSender<(OnionRequest, SocketAddr)>>,
    /// The requests that were handed to the queue to the onion, in their
    /// order, whether the queue took them or not.
    pub onion_sent: Seq<(OnionRequest, SocketAddr)>,
}

/// Whether the client at `i` has the key `pk`.
pub open spec fn is_client(clients: Seq<ClientView>, i: int, pk: PublicKey) -> bool {
    0 <= i < clients.len() && clients[i].pk == pk
}

/// Where the client with the key `pk` is, if it is connected.
pub open spec fn position(clients: Seq<ClientView>, pk: PublicKey) -> Option<int> {
    if exists|i: int| is_client(clients, i, pk) {
        Some(choose|i: int| is_client(clients, i, pk))
    } else {
        None
    }
}

/// What the clients of a relay are: no key is connected twice, and the links
/// of every client are a table of links.
pub open spec fn clients_wf(clients: Seq<ClientView>) -> bool {
    &&& forall|i: int| 0 <= i < clients.len() ==> links_wf((#[trigger] clients[i]).links)
    &&& forall|i: int, j: int|
        0 <= i < clients.len() && 0 <= j < clients.len() && (#[trigger] clients[i]).pk == (
        #[trigger] clients[j]).pk ==> i == j
}

/// A connected key is found where its client is.
pub proof fn lemma_position(clients: Seq<ClientView>, pk: PublicKey, i: int)
    requires
        clients_wf(clients),
    ensures
        position(clients, pk) == Some(i) <==> is_client(clients, i, pk),
{
    if is_client(clients, i, pk) {
        let found = choose|k: int| is_client(clients, k, pk);
        assert(clients[found].pk == clients[i].pk);
    }
}

/// The address and the port of a client.
pub open spec fn addr_of(c: ClientView) -> (IpAddr, u16) {
    (c.ip_addr, c.port)
}

/// Whether the client at `i` has the key `pk` and is connected at `addr`.
pub open spec fn is_owner(
    clients: Seq<ClientView>,
    i: int,
    addr: (IpAddr, u16),
    pk: PublicKey,
) -> bool {
    0 <= i < clients.len() && clients[i].pk == pk && addr_of(clients[i]) == addr
}

/// What the index of addresses is to the clients: the address of every
/// client is held for the key of that client, and every address that is held
/// is the address of the connected client whose key it is held for. So no
/// two clients are connected at one address.
pub open spec fn addr_wf(clients: Seq<ClientView>, by_addr: Map<(IpAddr, u16), PublicKey>) -> bool {
    &&& forall|i: int|
        0 <= i < clients.len() ==> by_addr.contains_key(addr_of(#[trigger] clients[i]))
            && by_addr[addr_of(clients[i])] == clients[i].pk
    &&& forall|addr: (IpAddr, u16)| #[trigger]
        by_addr.contains_key(addr) ==> exists|i: int| is_owner(clients, i, addr, by_addr[addr])
}

/// What a relay is: its clients are what the clients of a relay are, see
/// [`clients_wf`], and its index of addresses agrees with them, see
/// [`addr_wf`].
pub open spec fn server_wf(s: ServerView) -> bool {
    clients_wf(s.clients) && addr_wf(s.clients, s.by_addr)
}

/// The address that the index holds is that of the client it names.
pub proof fn lemma_owner(s: ServerView, addr: (IpAddr, u16))
    requires
        server_wf(s),
        s.by_addr.contains_key(addr),
    ensures
        position(s.clients, s.by_addr[addr]) is Some,
        addr_of(s.clients[position(s.clients, s.by_addr[addr])->0]) == addr,
{
    let i = choose|i: int| is_owner(s.clients, i, addr, s.by_addr[addr]);
    lemma_position(s.clients, s.by_addr[addr], i);
}

/// Clients that keep their keys and addresses, one by one, stay with the
/// index of addresses as they were.
pub proof fn lemma_addr_kept(
    before: Seq<ClientView>,
    after: Seq<ClientView>,
    by_addr: Map<(IpAddr, u16), PublicKey>,
)
    requires
        addr_wf(before, by_addr),
        after.len() == before.len(),
        forall|i: int| 0 <= i < before.len() ==> (#[trigger] after[i]).pk == before[i].pk,
        forall|i: int| 0 <= i < before.len() ==> addr_of(#[trigger] after[i]) == addr_of(before[i]),
    ensures
        addr_wf(after, by_addr),
{
    assert forall|i: int| 0 <= i < after.len() implies by_addr.contains_key(
        addr_of(#[trigger] after[i]),
    ) && by_addr[addr_of(after[i])] == after[i].pk by {
        assert(addr_of(after[i]) == addr_of(before[i]));
    }
    assert forall|addr: (IpAddr, u16)| #[trigger] by_addr.contains_key(addr) implies exists|
        i: int,
    | is_owner(after, i, addr, by_addr[addr]) by {
        let i = choose|i: int| is_owner(before, i, addr, by_addr[addr]);
        assert(addr_of(after[i]) == addr_of(before[i]));
        assert(is_owner(after, i, addr, by_addr[addr]));
    }
}

/// Clients that keep their keys, one by one, and have valid links stay what
/// the clients of a relay are, and every key is found where it was.
pub proof fn lemma_position_kept(before: Seq<ClientView>, after: Seq<ClientView>, pk: PublicKey)
    requires
        clients_wf(before),
        after.len() == before.len(),
        forall|i: int| 0 <= i < before.len() ==> (#[trigger] after[i]).pk == before[i].pk,
        forall|i: int| 0 <= i < before.len() ==> links_wf((#[trigger] after[i]).links),
    ensures
        clients_wf(after),
        position(after, pk) == position(before, pk),
{
    assert forall|a: int, b: int|
        0 <= a < after.len() && 0 <= b < after.len() && (#[trigger] after[a]).pk == (
        #[trigger] after[b]).pk implies a == b by {
        assert(before[a].pk == before[b].pk);
    }
    match position(before, pk) {
        Some(k) => {
            lemma_position(before, pk, k);
            assert(is_client(after, k, pk));
            lemma_position(after, pk, k);
        },
        None => {
            if position(after, pk) is Some {
                let k = position(after, pk)->0;
                lemma_position(after, pk, k);
                assert(is_client(before, k, pk));
            }
        },
    }
}

/// A client replaced by one with the same key, the same address and valid
/// links: the clients stay what the clients of a relay are, every key is
/// found where it was, and the index of addresses agrees with them as it
/// did.
pub proof fn lemma_update_client(clients: Seq<ClientView>, i: int, c: ClientView)
    requires
        clients_wf(clients),
        0 <= i < clients.len(),
        c.pk == clients[i].pk,
        addr_of(c) == addr_of(clients[i]),
        links_wf(c.links),
    ensures
        clients_wf(clients.update(i, c)),
        forall|pk: PublicKey| #[trigger] position(clients.update(i, c), pk) == position(clients, pk),
        forall|by_addr: Map<(IpAddr, u16), PublicKey>|
            addr_wf(clients, by_addr) ==> #[trigger] addr_wf(clients.update(i, c), by_addr),
{
    let after = clients.update(i, c);
    assert forall|k: int| 0 <= k < after.len() implies links_wf((#[trigger] after[k]).links)
        && after[k].pk == clients[k].pk && addr_of(after[k]) == addr_of(clients[k]) by {
        if k != i {
            assert(after[k] == clients[k]);
        }
    }
    assert forall|pk: PublicKey| #[trigger] position(after, pk) == position(clients, pk) by {
        lemma_position_kept(clients, after, pk);
    }
    lemma_position_kept(clients, after, c.pk);
    assert forall|by_addr: Map<(IpAddr, u16), PublicKey>|
        addr_wf(clients, by_addr) implies #[trigger] addr_wf(after, by_addr) by {
        lemma_addr_kept(clients, after, by_addr);
    }
}

/// A client taken out: the clients stay what the clients of a relay are, the
/// key of the client is connected no more, and every other key is connected
/// as it was.
pub proof fn lemma_remove_client(clients: Seq<ClientView>, i: int)
    requires
        clients_wf(clients),
        0 <= i < clients.len(),
    ensures
        clients_wf(clients.remove(i)),
        position(clients.remove(i), clients[i].pk) is None,
        forall|pk: PublicKey|
            pk != clients[i].pk ==> (#[trigger] position(clients.remove(i), pk) is Some
                <==> position(clients, pk) is Some),
{
    let after = clients.remove(i);
    assert forall|a: int, b: int|
        0 <= a < after.len() && 0 <= b < after.len() && (#[trigger] after[a]).pk == (
        #[trigger] after[b]).pk implies a == b by {
        let a0 = if a < i {
            a
        } else {
            a + 1
        };
        let b0 = if b < i {
            b
        } else {
            b + 1
        };
        assert(clients[a0].pk == clients[b0].pk);
    }
    assert forall|k: int| 0 <= k < after.len() implies links_wf((#[trigger] after[k]).links) by {
        let k0 = if k < i {
            k
        } else {
            k + 1
        };
        assert(after[k] == clients[k0]);
    }
    if position(after, clients[i].pk) is Some {
        let k = position(after, clients[i].pk)->0;
        lemma_position(after, clients[i].pk, k);
        let k0 = if k < i {
            k
        } else {
            k + 1
        };
        assert(clients[k0].pk == clients[i].pk);
    }
    assert forall|pk: PublicKey| pk != clients[i].pk implies (#[trigger] position(after, pk)
        is Some <==> position(clients, pk) is Some) by {
        if position(after, pk) is Some {
            let k = position(after, pk)->0;
            lemma_position(after, pk, k);
            let k0 = if k < i {
                k
            } else {
                k + 1
            };
            assert(is_client(clients, k0, pk));
        }
        if position(clients, pk) is Some {
            let k = position(clients, pk)->0;
            lemma_position(clients, pk, k);
            let k1 = if k < i {
                k
            } else {
                k - 1
            };
            assert(is_client(after, k1, pk));
        }
    }
}

/// A client taken out with its address: the index of addresses agrees with
/// the clients that are left.
pub proof fn lemma_remove_addr(
    clients: Seq<ClientView>,
    by_addr: Map<(IpAddr, u16), PublicKey>,
    i: int,
)
    requires
        clients_wf(clients),
        addr_wf(clients, by_addr),
        0 <= i < clients.len(),
    ensures
        addr_wf(clients.remove(i), by_addr.remove(addr_of(clients[i]))),
{
    let rest = clients.remove(i);
    let gone = addr_of(clients[i]);
    let left = by_addr.remove(gone);
    assert forall|k: int| 0 <= k < rest.len() implies left.contains_key(
        addr_of(#[trigger] rest[k]),
    ) && left[addr_of(rest[k])] == rest[k].pk by {
        let k0 = if k < i {
            k
        } else {
            k + 1
        };
        assert(rest[k] == clients[k0]);
        assert(by_addr[addr_of(clients[k0])] == clients[k0].pk);
        assert(by_addr[addr_of(clients[i])] == clients[i].pk);
    }
    assert forall|addr: (IpAddr, u16)| #[trigger] left.contains_key(addr) implies exists|i: int|
        is_owner(rest, i, addr, left[addr]) by {
        assert(by_addr.contains_key(addr));
        let k = choose|k: int| is_owner(clients, k, addr, by_addr[addr]);
        let k1 = if k < i {
            k
        } else {
            k - 1
        };
        assert(rest[k1] == clients[k]);
        assert(is_owner(rest, k1, addr, left[addr]));
    }
}

/// A client put in place of the client with its key: the index agrees with
/// the clients once it holds the new address in place of the old one. The
/// new address must be free, or be the old one.
pub proof fn lemma_replace_addr(
    clients: Seq<ClientView>,
    by_addr: Map<(IpAddr, u16), PublicKey>,
    i: int,
    c: ClientView,
)
    requires
        clients_wf(clients),
        addr_wf(clients, by_addr),
        0 <= i < clients.len(),
        c.pk == clients[i].pk,
        links_wf(c.links),
        !by_addr.contains_key(addr_of(c)) || addr_of(c) == addr_of(clients[i]),
    ensures
        clients_wf(clients.update(i, c)),
        position(clients.update(i, c), c.pk) == Some(i),
        addr_wf(
            clients.update(i, c),
            by_addr.remove(addr_of(clients[i])).insert(addr_of(c), c.pk),
        ),
{
    let after = clients.update(i, c);
    let gone = addr_of(clients[i]);
    let index = by_addr.remove(gone).insert(addr_of(c), c.pk);
    assert forall|k: int| 0 <= k < after.len() implies links_wf((#[trigger] after[k]).links)
        && after[k].pk == clients[k].pk by {
        if k != i {
            assert(after[k] == clients[k]);
        }
    }
    lemma_position_kept(clients, after, c.pk);
    lemma_position(clients, c.pk, i);
    assert forall|k: int| 0 <= k < after.len() implies index.contains_key(
        addr_of(#[trigger] after[k]),
    ) && index[addr_of(after[k])] == after[k].pk by {
        if k != i {
            assert(after[k] == clients[k]);
            assert(by_addr[addr_of(clients[k])] == clients[k].pk);
            assert(by_addr[addr_of(clients[i])] == clients[i].pk);
        }
    }
    assert forall|addr: (IpAddr, u16)| #[trigger] index.contains_key(addr) implies exists|k: int|
        is_owner(after, k, addr, index[addr]) by {
        if addr == addr_of(c) {
            assert(is_owner(after, i, addr, index[addr]));
        } else {
            assert(by_addr.contains_key(addr));
            let k = choose|k: int| is_owner(clients, k, addr, by_addr[addr]);
            assert(k != i);
            assert(after[k] == clients[k]);
            assert(is_owner(after, k, addr, index[addr]));
        }
    }
}

/// A client of a new key put behind the others at a free address: the index
/// agrees with the clients once it holds the address.
pub proof fn lemma_push_addr(
    clients: Seq<ClientView>,
    by_addr: Map<(IpAddr, u16), PublicKey>,
    c: ClientView,
)
    requires
        clients_wf(clients),
        addr_wf(clients, by_addr),
        position(clients, c.pk) is None,
        links_wf(c.links),
        !by_addr.contains_key(addr_of(c)),
    ensures
        clients_wf(clients.push(c)),
        position(clients.push(c), c.pk) == Some(clients.len() as int),
        addr_wf(clients.push(c), by_addr.insert(addr_of(c), c.pk)),
{
    let after = clients.push(c);
    let last = clients.len() as int;
    let index = by_addr.insert(addr_of(c), c.pk);
    assert forall|a: int, b: int|
        0 <= a < after.len() && 0 <= b < after.len() && (#[trigger] after[a]).pk == (
        #[trigger] after[b]).pk implies a == b by {
        if a < last && b < last {
            assert(clients[a].pk == clients[b].pk);
        } else if a < last {
            assert(is_client(clients, a, c.pk));
        } else if b < last {
            assert(is_client(clients, b, c.pk));
        }
    }
    assert forall|k: int| 0 <= k < after.len() implies links_wf((#[trigger] after[k]).links) by {
        if k < last {
            assert(after[k] == clients[k]);
        }
    }
    assert(is_client(after, last, c.pk));
    lemma_position(after, c.pk, last);
    assert forall|k: int| 0 <= k < after.len() implies index.contains_key(
        addr_of(#[trigger] after[k]),
    ) && index[addr_of(after[k])] == after[k].pk by {
        if k < last {
            assert(after[k] == clients[k]);
            assert(by_addr[addr_of(clients[k])] == clients[k].pk);
        }
    }
    assert forall|addr: (IpAddr, u16)| #[trigger] index.contains_key(addr) implies exists|k: int|
        is_owner(after, k, addr, index[addr]) by {
        if addr == addr_of(c) {
            assert(is_owner(after, last, addr, index[addr]));
        } else {
            let k = choose|k: int| is_owner(clients, k, addr, by_addr[addr]);
            assert(after[k] == clients[k]);
            assert(is_owner(after, k, addr, index[addr]));
        }
    }
}

/// The clients after the packet `p` was handed to the queue of the client
/// at `i`.
pub open spec fn offer_at(clients: Seq<ClientView>, i: int, p: Packet) -> Seq<ClientView> {
    clients.update(i, offered(clients[i], p))
}

/// The clients after the client at `i` got the links `links`.
pub open spec fn relink_at(clients: Seq<ClientView>, i: int, links: Seq<Option<Link>>) -> Seq<
    ClientView,
> {
    clients.update(i, with_links(clients[i], links))
}

/// The packet that answers a route request for `peer`.
pub open spec fn route_response(peer: PublicKey, connection_id: u8) -> Packet {
    Packet::RouteResponse(RouteResponse { connection_id, pk: peer })
}

/// The clients after the clients at `a` and at `b` were told of their link:
/// each link is marked as registered on both sides, and each client is
/// handed a `ConnectNotification` with the wire id of its own link, first the
/// client at `a`.
pub open spec fn connected(clients: Seq<ClientView>, a: int, wire_a: u8, b: int, wire_b: u8) -> Seq<
    ClientView,
> {
    let c1 = relink_at(clients, a, upgraded_wire(clients[a].links, wire_a, wire_b));
    let c2 = relink_at(c1, b, upgraded_wire(c1[b].links, wire_b, wire_a));
    let c3 = offer_at(
        c2,
        a,
        Packet::ConnectNotification(ConnectNotification { connection_id: wire_a }),
    );
    offer_at(c3, b, Packet::ConnectNotification(ConnectNotification { connection_id: wire_b }))
}

/// The clients after the new link of the client at `a` to `peer`, with the
/// wire id `wire_a`, was looked for on the other side: where `peer` is
/// connected and holds a link to `pk`, both are told; else nothing happens.
pub open spec fn completed(
    clients: Seq<ClientView>,
    a: int,
    wire_a: u8,
    pk: PublicKey,
    peer: PublicKey,
) -> Seq<ClientView> {
    match position(clients, peer) {
        None => clients,
        Some(b) => match wire_of(clients[b].links, pk) {
            None => clients,
            Some(wire_b) => connected(clients, a, wire_a, b, wire_b),
        },
    }
}

/// A `RouteRequest` for `peer` from `pk`.
///
/// A sender that is not connected is an error. The sender gets a
/// `RouteResponse` for `peer`: with 0 where `peer` is `pk` itself; with the
/// wire id of its link to `peer`, which is made in the lowest empty slot if
/// there was none; with 0 where there is neither the link nor an empty slot.
/// The loss of the response is an error. Behind the response for a link that
/// was made now, the other side is looked at, see [`completed`].
pub open spec fn route_request(
    clients: Seq<ClientView>,
    pk: PublicKey,
    peer: PublicKey,
    delivered: bool,
) -> (Seq<ClientView>, Result<(), Error>) {
    match position(clients, pk) {
        None => (clients, Err(Error::UnknownSender)),
        Some(a) => if pk == peer {
            (offer_at(clients, a, route_response(peer, 0)), strict(delivered))
        } else {
            let (links, slot) = spec_insert(clients[a].links, peer);
            let linked = relink_at(clients, a, links);
            match slot {
                None => (offer_at(linked, a, route_response(peer, 0)), strict(delivered)),
                Some(s) => {
                    let wire_a = spec_wire_id(s);
                    let replied = offer_at(linked, a, route_response(peer, wire_a));
                    if !delivered {
                        (replied, Err(Error::SinkClosed))
                    } else if index_of(clients[a].links, peer) is Some {
                        (replied, Ok(()))
                    } else {
                        (completed(replied, a, wire_a, pk, peer), Ok(()))
                    }
                },
            }
        },
    }
}

/// The clients after the client `to`, where it is connected and holds a link
/// to `gone`, was handed a `DisconnectNotification` with the wire id of that
/// link.
pub open spec fn told_gone(clients: Seq<ClientView>, to: PublicKey, gone: PublicKey) -> Seq<
    ClientView,
> {
    match position(clients, to) {
        None => clients,
        Some(b) => match wire_of(clients[b].links, gone) {
            None => clients,
            Some(wire_b) => offer_at(
                clients,
                b,
                Packet::DisconnectNotification(DisconnectNotification { connection_id: wire_b }),
            ),
        },
    }
}

/// A `DisconnectNotification` for the wire id `id` from `pk`.
///
/// A sender that is not connected is an error. Where the sender holds no
/// link with that id, nothing happens. Else the sender gives the link up and
/// its peer is told, see [`told_gone`]; the link of the peer stays.
pub open spec fn disconnect_notification(clients: Seq<ClientView>, pk: PublicKey, id: u8) -> (
    Seq<ClientView>,
    Result<(), Error>,
) {
    match position(clients, pk) {
        None => (clients, Err(Error::UnknownSender)),
        Some(a) => match peer_of_wire(clients[a].links, id) {
            None => (clients, Ok(())),
            Some(peer) => {
                let unlinked = relink_at(clients, a, without_wire(clients[a].links, id));
                (told_gone(unlinked, peer, pk), Ok(()))
            },
        },
    }
}

/// A `PingRequest` with the id `ping_id` from `pk`.
///
/// The id 0 is an error, and so is a sender that is not connected. The
/// sender gets a `PongResponse` with the id; its loss is an error.
pub open spec fn ping_request(
    clients: Seq<ClientView>,
    pk: PublicKey,
    ping_id: u64,
    delivered: bool,
) -> (Seq<ClientView>, Result<(), Error>) {
    if ping_id == 0 {
        (clients, Err(Error::ProtocolViolation))
    } else {
        match position(clients, pk) {
            None => (clients, Err(Error::UnknownSender)),
            Some(a) => (
                offer_at(clients, a, Packet::PongResponse(PongResponse { ping_id })),
                strict(delivered),
            ),
        }
    }
}

/// A `PongResponse` with the id `ping_id` from `pk` at `now`.
///
/// The id 0 is an error, and so is a sender that is not connected. Where
/// the id is that of the last ping sent to the sender, the pong is noted as
/// come at `now`; any other id is an error.
pub open spec fn pong_response(
    clients: Seq<ClientView>,
    pk: PublicKey,
    ping_id: u64,
    now: Instant,
) -> (Seq<ClientView>, Result<(), Error>) {
    if ping_id == 0 {
        (clients, Err(Error::ProtocolViolation))
    } else {
        match position(clients, pk) {
            None => (clients, Err(Error::UnknownSender)),
            Some(a) => if ping_id == clients[a].ping_id {
                (clients.update(a, ClientView { last_pong_resp: now, ..clients[a] }), Ok(()))
            } else {
                (clients, Err(Error::ProtocolViolation))
            },
        }
    }
}

/// An `OobSend` of `data` for `destination` from `pk`.
///
/// Data of no byte or of more than 1024 bytes is an error. Where
/// `destination` is connected it gets an `OobReceive` with the data and the
/// key of the sender; else nothing happens.
pub open spec fn oob_send(
    clients: Seq<ClientView>,
    pk: PublicKey,
    destination: PublicKey,
    data: Vec<u8>,
) -> (Seq<ClientView>, Result<(), Error>) {
    if data@.len() == 0 || data@.len() > 1024 {
        (clients, Err(Error::ProtocolViolation))
    } else {
        match position(clients, destination) {
            None => (clients, Ok(())),
            Some(b) => (
                offer_at(clients, b, Packet::OobReceive(OobReceive { sender_pk: pk, data })),
                Ok(()),
            ),
        }
    }
}

/// A `Data` packet for the wire id `id` from `pk`.
///
/// A sender that is not connected is an error. Where the sender holds the
/// link, its peer is connected and holds a link to the sender, the peer gets
/// the data under the wire id of its own link, and the loss of the packet is
/// an error; else nothing happens.
pub open spec fn data(
    clients: Seq<ClientView>,
    pk: PublicKey,
    id: u8,
    data: Vec<u8>,
    delivered: bool,
) -> (Seq<ClientView>, Result<(), Error>) {
    match position(clients, pk) {
        None => (clients, Err(Error::UnknownSender)),
        Some(a) => match peer_of_wire(clients[a].links, id) {
            None => (clients, Ok(())),
            Some(peer) => match position(clients, peer) {
                None => (clients, Ok(())),
                Some(b) => match wire_of(clients[b].links, pk) {
                    None => (clients, Ok(())),
                    Some(wire_b) => (
                        offer_at(
                            clients,
                            b,
                            Packet::Data(Data { connection_id: wire_b, data }),
                        ),
                        strict(delivered),
                    ),
                },
            },
        },
    }
}

/// An `OnionRequest` from `pk`.
///
/// A relay without a queue to the onion drops the request. Else a sender
/// that is not connected is an error; the request is handed to the queue
/// with the address and the port of the sender, and its loss is an error.
pub open spec fn onion_request(s: ServerView, pk: PublicKey, request: OnionRequest, delivered: bool) -> (
    ServerView,
    Result<(), Error>,
) {
    match s.onion_sink {
        None => (s, Ok(())),
        Some(_) => match position(s.clients, pk) {
            None => (s, Err(Error::UnknownSender)),
            Some(a) => (
                ServerView {
                    onion_sent: s.onion_sent.push(
                        (request, SocketAddr { ip: s.clients[a].ip_addr, port: s.clients[a].port }),
                    ),
                    ..s
                },
                strict(delivered),
            ),
        },
    }
}

/// The relay with the clients of `step`, and the result of `step`.
pub open spec fn on_clients(s: ServerView, step: (Seq<ClientView>, Result<(), Error>)) -> (
    ServerView,
    Result<(), Error>,
) {
    (ServerView { clients: step.0, ..s }, step.1)
}

/// The packet `packet` from `pk` at `now`.
///
/// `RouteResponse`, `OobReceive` and `OnionResponse` are packets that a
/// client must not send: they are an error. A `ConnectNotification` from a
/// client is passed over.
pub open spec fn handle_packet(
    s: ServerView,
    pk: PublicKey,
    packet: Packet,
    now: Instant,
    delivered: bool,
) -> (ServerView, Result<(), Error>) {
    match packet {
        Packet::RouteRequest(p) => on_clients(s, route_request(s.clients, pk, p.pk, delivered)),
        Packet::RouteResponse(_) => (s, Err(Error::ProtocolViolation)),
        Packet::ConnectNotification(_) => (s, Ok(())),
        Packet::DisconnectNotification(p) => on_clients(
            s,
            disconnect_notification(s.clients, pk, p.connection_id),
        ),
        Packet::PingRequest(p) => on_clients(
            s,
            ping_request(s.clients, pk, p.ping_id, delivered),
        ),
        Packet::PongResponse(p) => on_clients(s, pong_response(s.clients, pk, p.ping_id, now)),
        Packet::OobSend(p) => on_clients(s, oob_send(s.clients, pk, p.destination_pk, p.data)),
        Packet::OobReceive(_) => (s, Err(Error::ProtocolViolation)),
        Packet::OnionRequest(p) => onion_request(s, pk, p, delivered),
        Packet::OnionResponse(_) => (s, Err(Error::ProtocolViolation)),
        Packet::Data(p) => on_clients(s, data(s.clients, pk, p.connection_id, p.data, delivered)),
    }
}

/// The clients without the client of another key than `pk` that the index
/// holds at `addr`, if it holds one.
pub open spec fn without_owner(
    clients: Seq<ClientView>,
    by_addr: Map<(IpAddr, u16), PublicKey>,
    addr: (IpAddr, u16),
    pk: PublicKey,
) -> Seq<ClientView> {
    if by_addr.contains_key(addr) && by_addr[addr] != pk {
        match position(clients, by_addr[addr]) {
            Some(j) => clients.remove(j),
            None => clients,
        }
    } else {
        clients
    }
}

/// The relay after the client `client` connected.
///
/// Its address and port are held for its key from now on. A client of
/// another key that was connected at that address is connected no more; it
/// leaves without a word to anyone. The client stands in place of the client
/// with the same key, whose address is held no more, or behind the others
/// where there was none. Nothing is handed to any queue.
pub open spec fn insert(s: ServerView, client: ClientView) -> ServerView {
    let addr = addr_of(client);
    let rest = without_owner(s.clients, s.by_addr, addr, client.pk);
    match position(rest, client.pk) {
        Some(i) => ServerView {
            clients: rest.update(i, client),
            by_addr: s.by_addr.remove(addr_of(rest[i])).insert(addr, client.pk),
            ..s
        },
        None => ServerView {
            clients: rest.push(client),
            by_addr: s.by_addr.insert(addr, client.pk),
            ..s
        },
    }
}

/// The client `peer` after the client with the key `gone` and the links
/// `gone_links` left: where `gone` held a link to `peer` and `peer` holds one
/// to `gone`, `peer` is handed a `DisconnectNotification` with the wire id of
/// its link. Its link stays.
pub open spec fn told_left(peer: ClientView, gone: PublicKey, gone_links: Seq<Option<Link>>) -> ClientView {
    if index_of(gone_links, peer.pk) is Some {
        match wire_of(peer.links, gone) {
            Some(wire) => offered(
                peer,
                Packet::DisconnectNotification(DisconnectNotification { connection_id: wire }),
            ),
            None => peer,
        }
    } else {
        peer
    }
}

/// The shutdown of the client `pk`.
///
/// A key that is not connected is an error. The client leaves the relay and
/// the index of addresses loses its address and port; the others are told,
/// see [`told_left`].
pub open spec fn shutdown_client(s: ServerView, pk: PublicKey) -> (ServerView, Result<(), Error>) {
    match position(s.clients, pk) {
        None => (s, Err(Error::UnknownTarget)),
        Some(a) => {
            let gone = s.clients[a];
            (
                ServerView {
                    clients: s.clients.remove(a).map_values(
                        |peer: ClientView| told_left(peer, pk, gone.links),
                    ),
                    by_addr: s.by_addr.remove((gone.ip_addr, gone.port)),
                    ..s
                },
                Ok(()),
            )
        },
    }
}

/// What came back from the onion for the client at an address and a port.
///
/// An address that the index does not hold, or holds for a key that is not
/// connected, is an error. The client gets an `OnionResponse` with the
/// payload; its loss is an error.
pub open spec fn udp_onion_response(
    s: ServerView,
    ip_addr: IpAddr,
    port: u16,
    response: Packet,
    delivered: bool,
) -> (ServerView, Result<(), Error>) {
    if !s.by_addr.contains_key((ip_addr, port)) {
        (s, Err(Error::UnknownTarget))
    } else {
        match position(s.clients, s.by_addr[(ip_addr, port)]) {
            None => (s, Err(Error::UnknownTarget)),
            Some(a) => (
                ServerView { clients: offer_at(s.clients, a, response), ..s },
                strict(delivered),
            ),
        }
    }
}

/// The keys of the clients whose last pong is overdue at `now`, in the order
/// of the clients.
pub open spec fn timedout_keys(clients: Seq<ClientView>, now: Instant) -> Seq<PublicKey>
    decreases clients.len(),
{
    if clients.len() == 0 {
        Seq::empty()
    } else {
        let before = timedout_keys(clients.drop_last(), now);
        if pong_timedout(clients.last(), now) {
            before.push(clients.last().pk)
        } else {
            before
        }
    }
}

/// The relay after the clients `keys` were shut down one after another.
pub open spec fn shutdown_all(s: ServerView, keys: Seq<PublicKey>) -> ServerView
    decreases keys.len(),
{
    if keys.len() == 0 {
        s
    } else {
        shutdown_all(shutdown_client(s, keys[0]).0, keys.skip(1))
    }
}

/// The relay after every client whose last pong is overdue at `now` was shut
/// down.
pub open spec fn evicted(s: ServerView, now: Instant) -> ServerView {
    shutdown_all(s, timedout_keys(s.clients, now))
}

} // verus!
