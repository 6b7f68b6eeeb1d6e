//! The implementation of relay server

use vstd::prelude::*;
use futures::sync::mpsc::UnboundedSender;
use crate::toxcore::addr::{IpAddr, SocketAddr};
use crate::toxcore::crypto_core::PublicKey;
use crate::toxcore::io_channel::send_to;
use crate::toxcore::onion::InnerOnionResponse;
use crate::toxcore::tcp::packet::{
    ConnectNotification, Data, DisconnectNotification, OnionRequest, OnionResponse, OobReceive,
    OobSend, Packet, PingRequest, PongResponse, RouteRequest, RouteResponse,
};
use crate::toxcore::tcp::server::client::{
    offered, ping_due, pinged, pong_timedout, upgraded_wire, wire_of, without_wire, Client,
    ClientView,
};
use crate::toxcore::tcp::server::errors::{delivery, Error};
use crate::toxcore::tcp::server::keys_by_addr::KeysByAddr;
use crate::toxcore::tcp::server::laws::{lemma_eviction, lemma_insert};
use crate::toxcore::tcp::server::links::{
    holds, index_of, lemma_changes_keep_wf, lemma_index_is_slot, lemma_insert_keeps_wf,
    spec_insert, Link, LinkStatus,
};
use crate::toxcore::tcp::server::model::{
    clients_wf, evicted, is_client, lemma_position, lemma_position_kept, lemma_remove_addr,
    lemma_remove_client, lemma_update_client, offer_at, on_clients, position, relink_at,
    route_response, server_wf, shutdown_all, timedout_keys, told_left, ServerView,
};
use crate::toxcore::tcp::server::model;
use crate::toxcore::time::Instant;

verus! {

/// The views of clients, in order.
pub open spec fn client_views(clients: Seq<Client>) -> Seq<ClientView> {
    clients.map_values(|c: Client| c@)
}

/// Whether one of the first `k` slots of `links` holds a link to `pk`.
pub open spec fn linked_before(links: Seq<Option<Link>>, k: int, pk: PublicKey) -> bool {
    exists|i: int| 0 <= i < k && holds(links, i, pk)
}

/// The client `peer` after the client with the key `gone` left and the peers
/// of its first `k` links were told, see [`told_left`].
pub open spec fn told_left_upto(
    peer: ClientView,
    gone: PublicKey,
    gone_links: Seq<Option<Link>>,
    k: int,
) -> ClientView {
    if linked_before(gone_links, k, peer.pk) {
        match wire_of(peer.links, gone) {
            Some(wire) => offered(
                peer,
                Packet::DisconnectNotification(DisconnectNotification { connection_id: wire }),
            ),
            None => peer,
        }
    } else {
        peer
    }
}

/// A `Server` is a structure that holds connected clients, manages their
/// links and handles their responses. There is no network code here: the
/// server takes packets by value from `Server::handle_packet`, puts the
/// packets for a client into the queue of the client, takes what came back
/// from the onion from `Server::handle_udp_onion_response` and puts onion
/// requests into the queue to the onion. Whoever owns the server does the
/// handshakes, reads the sockets, and empties the queues into them.
pub struct Server {
    connected_clients: Vec<Client>,
    keys_by_addr: KeysByAddr,
    /// None if the server is not responsible to handle OnionRequests
    onion_sink: Option<UnboundedSender<(OnionRequest, SocketAddr)>>,
    /// What was handed to `onion_sink`.
    onion_sent: Ghost<Seq<(OnionRequest, SocketAddr)>>,
}

impl View for Server {
    type V = ServerView;

    closed spec fn view(&self) -> ServerView {
        ServerView {
            clients: client_views(self.connected_clients@),
            by_addr: self.keys_by_addr@,
            onion_sink: self.onion_sink,
            onion_sent: self.onion_sent@,
        }
    }
}

impl Default for Server {
    /// A server without clients and without onion.
    fn default() -> (server: Server)
        ensures
            server.wf(),
            server@.clients == Seq::<ClientView>::empty(),
            server@.by_addr == Map::<(IpAddr, u16), PublicKey>::empty(),
            server@.onion_sink is None,
            server@.onion_sent == Seq::<(OnionRequest, SocketAddr)>::empty(),
    {
        Server::new()
    }
}

impl Server {
    /// Whether the index of addresses is in order. It is in every server
    /// that this module makes, and stays so.
    pub closed spec fn index_wf(&self) -> bool {
        self.keys_by_addr.wf()
    }

    /// Whether the server is in order: no key is connected twice, the links
    /// of every client are a table of links, the address of every client is
    /// held for its key and no other address is held, see [`server_wf`], and
    /// the index of addresses is in order. Every server that this module
    /// makes is in order, and stays so.
    pub open spec fn wf(&self) -> bool {
        server_wf(self@) && self.index_wf()
    }

    /// Create a new `Server` without onion
    pub fn new() -> (server: Server)
        ensures
            server.wf(),
            server@.clients == Seq::<ClientView>::empty(),
            server@.by_addr == Map::<(IpAddr, u16), PublicKey>::empty(),
            server@.onion_sink is None,
            server@.onion_sent == Seq::<(OnionRequest, SocketAddr)>::empty(),
    {
        let server = Server {
            connected_clients: Vec::new(),
            keys_by_addr: KeysByAddr::new(),
            onion_sink: None,
            onion_sent: Ghost(Seq::empty()),
        };
        assert(server@.clients =~= Seq::<ClientView>::empty());
        server
    }

    /// Gives the server its queue to the onion.
    pub fn set_udp_onion_sink(&mut self, onion_sink: UnboundedSender<(OnionRequest, SocketAddr)>)
        requires
            old(self).wf(),
        ensures
            final(self).wf(),
            final(self)@ == (ServerView { onion_sink: Some(onion_sink), ..old(self)@ }),
    {
        self.onion_sink = Some(onion_sink)
    }

    /// Where the client with the key `pk` is, if it is connected.
    fn position(&self, pk: &PublicKey) -> (at: Option<usize>)
        requires
            clients_wf(self@.clients),
        ensures
            match at {
                Some(i) => position(self@.clients, *pk) == Some(i as int) && i
                    < self.connected_clients@.len(),
                None => position(self@.clients, *pk) is None,
            },
    {
        let mut i: usize = 0;
        while i < self.connected_clients.len()
            invariant
                i <= self.connected_clients@.len(),
                clients_wf(self@.clients),
                forall|j: int| 0 <= j < i ==> !is_client(self@.clients, j, *pk),
            decreases self.connected_clients@.len() - i,
        {
            if self.connected_clients[i].pk() == *pk {
                proof {
                    assert(is_client(self@.clients, i as int, *pk));
                    lemma_position(self@.clients, *pk, i as int);
                }
                return Some(i);
            }
            i += 1;
        }
        None
    }

    /// The client with the key `pk`, if it is connected.
    pub fn client(&self, pk: &PublicKey) -> (client: Option<&Client>)
        requires
            self.wf(),
        ensures
            match client {
                Some(c) => position(self@.clients, *pk) is Some && self@.clients[position(
                    self@.clients,
                    *pk,
                )->0] == c@ && c.wf(),
                None => position(self@.clients, *pk) is None,
            },
    {
        match self.position(pk) {
            Some(i) => Some(&self.connected_clients[i]),
            None => None,
        }
    }

    /// Insert the client into connected_clients, in place of the client with
    /// its key and of the client at its address, if there are such.
    ///
    /// The server is what [`model::insert`] says.
    pub fn insert(&mut self, client: Client)
        requires
            old(self).wf(),
            client.wf(),
        ensures
            final(self).wf(),
            final(self)@ == model::insert(old(self)@, client@),
    {
        let pk = client.pk();
        let ip_addr = client.ip_addr();
        let port = client.port();
        proof {
            lemma_insert(old(self)@, client@);
        }
        if let Some(owner) = self.keys_by_addr.get(&ip_addr, port) {
            if owner != pk {
                if let Some(j) = self.position(&owner) {
                    proof {
                        lemma_remove_client(self@.clients, j as int);
                    }
                    let gone = self.connected_clients.remove(j);
                    assert(self@.clients =~= old(self)@.clients.remove(j as int));
                }
            }
        }
        let ghost rest = self@.clients;
        match self.position(&pk) {
            Some(i) => {
                self.keys_by_addr.remove(
                    &self.connected_clients[i].ip_addr(),
                    self.connected_clients[i].port(),
                );
                self.connected_clients[i] = client;
                assert(self@.clients =~= rest.update(i as int, client@));
            },
            None => {
                self.connected_clients.push(client);
                assert(self@.clients =~= rest.push(client@));
            },
        }
        self.keys_by_addr.insert(ip_addr, port, pk);
    }

    /// The main processing function. Call in on each incoming packet from
    /// connected and handshaked client.
    ///
    /// The server and the result are what [`model::handle_packet`] says, with
    /// `delivered` where the result is no error.
    pub fn handle_packet(&mut self, pk: &PublicKey, packet: Packet, now: Instant) -> (r: Result<
        (),
        Error,
    >)
        requires
            old(self).wf(),
        ensures
            final(self).wf(),
            (final(self)@, r) == model::handle_packet(old(self)@, *pk, packet, now, r is Ok),
    {
        match packet {
            Packet::RouteRequest(packet) => self.handle_route_request(pk, &packet),
            Packet::RouteResponse(packet) => self.handle_route_response(pk, &packet),
            Packet::ConnectNotification(packet) => self.handle_connect_notification(pk, &packet),
            Packet::DisconnectNotification(packet) => self.handle_disconnect_notification(
                pk,
                &packet,
            ),
            Packet::PingRequest(packet) => self.handle_ping_request(pk, &packet),
            Packet::PongResponse(packet) => self.handle_pong_response(pk, &packet, now),
            Packet::OobSend(packet) => self.handle_oob_send(pk, packet),
            Packet::OobReceive(packet) => self.handle_oob_receive(pk, &packet),
            Packet::OnionRequest(packet) => self.handle_onion_request(pk, packet),
            Packet::OnionResponse(packet) => self.handle_onion_response(pk, &packet),
            Packet::Data(packet) => self.handle_data(pk, packet),
        }
    }

    /// Send `OnionResponse` packet to the client by its address and port.
    ///
    /// The server and the result are what [`model::udp_onion_response`]
    /// says, with `delivered` where the result is no error.
    pub fn handle_udp_onion_response(
        &mut self,
        ip_addr: IpAddr,
        port: u16,
        payload: InnerOnionResponse,
    ) -> (r: Result<(), Error>)
        requires
            old(self).wf(),
        ensures
            final(self).wf(),
            (final(self)@, r) == model::udp_onion_response(
                old(self)@,
                ip_addr,
                port,
                Packet::OnionResponse(OnionResponse { payload }),
                r is Ok,
            ),
    {
        let pk = match self.keys_by_addr.get(&ip_addr, port) {
            Some(pk) => pk,
            None => {
                return Err(Error::UnknownTarget);
            },
        };
        let a = match self.position(&pk) {
            Some(a) => a,
            None => {
                return Err(Error::UnknownTarget);
            },
        };
        let ghost before = self@.clients;
        let r = self.connected_clients[a].send_onion_response(payload);
        proof {
            let p = Packet::OnionResponse(OnionResponse { payload });
            lemma_update_client(before, a as int, offered(before[a as int], p));
            assert(self@.clients =~= offer_at(before, a as int, p));
        }
        r
    }

    fn handle_route_request(&mut self, pk: &PublicKey, packet: &RouteRequest) -> (r: Result<
        (),
        Error,
    >)
        requires
            old(self).wf(),
        ensures
            final(self).wf(),
            (final(self)@, r) == on_clients(
                old(self)@,
                model::route_request(old(self)@.clients, *pk, packet.pk, r is Ok),
            ),
    {
        let a = match self.position(pk) {
            Some(a) => a,
            None => {
                return Err(Error::UnknownSender);
            },
        };
        let ghost before = self@.clients;
        let ghost peer = packet.pk;
        if *pk == packet.pk {
            let r = self.connected_clients[a].send_route_response(pk, 0);
            proof {
                let p = route_response(peer, 0);
                lemma_update_client(before, a as int, offered(before[a as int], p));
                assert(self@.clients =~= offer_at(before, a as int, p));
            }
            return r;
        }
        let ghost inserted = spec_insert(before[a as int].links, peer);
        if let Some(wire_a) = self.connected_clients[a].get_connection_id(&packet.pk) {
            let r = self.connected_clients[a].send_route_response(&packet.pk, wire_a);
            proof {
                let p = route_response(peer, wire_a);
                lemma_update_client(before, a as int, offered(before[a as int], p));
                assert(relink_at(before, a as int, inserted.0) =~= before);
                assert(self@.clients =~= offer_at(before, a as int, p));
            }
            return r;
        }
        proof {
            lemma_insert_keeps_wf(before[a as int].links, peer);
        }
        let ghost linked = relink_at(before, a as int, inserted.0);
        let wire_a = match self.connected_clients[a].insert_connection_id(&packet.pk) {
            Some(wire_a) => wire_a,
            None => {
                assert(self@.clients =~= linked);
                let r = self.connected_clients[a].send_route_response(&packet.pk, 0);
                proof {
                    let p = route_response(peer, 0);
                    lemma_update_client(before, a as int, offered(linked[a as int], p));
                    assert(offer_at(linked, a as int, p) =~= before.update(
                        a as int,
                        offered(linked[a as int], p),
                    ));
                    assert(self@.clients =~= offer_at(linked, a as int, p));
                }
                return r;
            },
        };
        assert(self@.clients =~= linked);
        let r = self.connected_clients[a].send_route_response(&packet.pk, wire_a);
        let ghost replied = offer_at(linked, a as int, route_response(peer, wire_a));
        proof {
            lemma_update_client(before, a as int, replied[a as int]);
            assert(replied =~= before.update(a as int, replied[a as int]));
            assert(self@.clients =~= replied);
        }
        if r.is_err() {
            return r;
        }
        if let Some(b) = self.position(&packet.pk) {
            assert(b != a);
            if let Some(wire_b) = self.connected_clients[b].get_connection_id(pk) {
                let ghost c1 = relink_at(
                    replied,
                    a as int,
                    upgraded_wire(replied[a as int].links, wire_a, wire_b),
                );
                proof {
                    lemma_changes_keep_wf(
                        replied[a as int].links,
                        wire_a - 16,
                        LinkStatus::Online((wire_b - 16) as u8),
                    );
                    lemma_update_client(replied, a as int, c1[a as int]);
                }
                self.connected_clients[a].upgrade_link(wire_a, wire_b);
                assert(self@.clients =~= c1);
                let ghost c2 = relink_at(
                    c1,
                    b as int,
                    upgraded_wire(c1[b as int].links, wire_b, wire_a),
                );
                proof {
                    lemma_changes_keep_wf(
                        c1[b as int].links,
                        wire_b - 16,
                        LinkStatus::Online((wire_a - 16) as u8),
                    );
                    lemma_update_client(c1, b as int, c2[b as int]);
                }
                self.connected_clients[b].upgrade_link(wire_b, wire_a);
                assert(self@.clients =~= c2);
                let ghost c3 = offer_at(
                    c2,
                    a as int,
                    Packet::ConnectNotification(ConnectNotification { connection_id: wire_a }),
                );
                proof {
                    lemma_update_client(c2, a as int, c3[a as int]);
                }
                self.connected_clients[a].send_connect_notification(wire_a);
                assert(self@.clients =~= c3);
                let ghost c4 = offer_at(
                    c3,
                    b as int,
                    Packet::ConnectNotification(ConnectNotification { connection_id: wire_b }),
                );
                proof {
                    lemma_update_client(c3, b as int, c4[b as int]);
                }
                self.connected_clients[b].send_connect_notification(wire_b);
                assert(self@.clients =~= c4);
            }
        }
        Ok(())
    }

    fn handle_route_response(&mut self, _pk: &PublicKey, _packet: &RouteResponse) -> (r: Result<
        (),
        Error,
    >)
        ensures
            *final(self) == *old(self),
            r == Err::<(), Error>(Error::ProtocolViolation),
    {
        Err(Error::ProtocolViolation)
    }

    fn handle_connect_notification(
        &mut self,
        _pk: &PublicKey,
        _packet: &ConnectNotification,
    ) -> (r: Result<(), Error>)
        ensures
            *final(self) == *old(self),
            r == Ok::<(), Error>(()),
    {
        // Although normally a client should not send ConnectNotification to
        // server we ignore it for backward compatibility
        Ok(())
    }

    fn handle_disconnect_notification(
        &mut self,
        pk: &PublicKey,
        packet: &DisconnectNotification,
    ) -> (r: Result<(), Error>)
        requires
            old(self).wf(),
        ensures
            final(self).wf(),
            (final(self)@, r) == on_clients(
                old(self)@,
                model::disconnect_notification(old(self)@.clients, *pk, packet.connection_id),
            ),
    {
        let a = match self.position(pk) {
            Some(a) => a,
            None => {
                return Err(Error::UnknownSender);
            },
        };
        let ghost before = self@.clients;
        let ghost unlinked = relink_at(
            before,
            a as int,
            without_wire(before[a as int].links, packet.connection_id),
        );
        proof {
            lemma_changes_keep_wf(
                before[a as int].links,
                packet.connection_id - 16,
                LinkStatus::Registered,
            );
            lemma_update_client(before, a as int, unlinked[a as int]);
        }
        // There is possibility that the first client disconnected but the
        // second client haven't received DisconnectNotification yet and have
        // sent yet another packet. In this case we don't want to throw an
        // error and force disconnect the second client.
        let client_b_pk = match self.connected_clients[a].take_link(packet.connection_id) {
            Some(client_b_pk) => client_b_pk,
            None => {
                assert(without_wire(before[a as int].links, packet.connection_id)
                    =~= before[a as int].links);
                assert(unlinked =~= before);
                assert(self@.clients =~= before);
                return Ok(());
            },
        };
        assert(self@.clients =~= unlinked);
        if let Some(b) = self.position(&client_b_pk) {
            if let Some(a_id_in_client_b) = self.connected_clients[b].get_connection_id(pk) {
                // it is linked, we should notify client_b
                // link from client_b.links should not be removed
                let ghost p = Packet::DisconnectNotification(
                    DisconnectNotification { connection_id: a_id_in_client_b },
                );
                proof {
                    lemma_update_client(unlinked, b as int, offered(unlinked[b as int], p));
                }
                self.connected_clients[b].send_disconnect_notification(a_id_in_client_b);
                assert(self@.clients =~= offer_at(unlinked, b as int, p));
            }
        }
        Ok(())
    }

    fn handle_ping_request(&mut self, pk: &PublicKey, packet: &PingRequest) -> (r: Result<
        (),
        Error,
    >)
        requires
            old(self).wf(),
        ensures
            final(self).wf(),
            (final(self)@, r) == on_clients(
                old(self)@,
                model::ping_request(old(self)@.clients, *pk, packet.ping_id, r is Ok),
            ),
    {
        if packet.ping_id == 0 {
            return Err(Error::ProtocolViolation);
        }
        let a = match self.position(pk) {
            Some(a) => a,
            None => {
                return Err(Error::UnknownSender);
            },
        };
        let ghost before = self@.clients;
        let r = self.connected_clients[a].send_pong_response(packet.ping_id);
        proof {
            let p = Packet::PongResponse(PongResponse { ping_id: packet.ping_id });
            lemma_update_client(before, a as int, offered(before[a as int], p));
            assert(self@.clients =~= offer_at(before, a as int, p));
        }
        r
    }

    fn handle_pong_response(&mut self, pk: &PublicKey, packet: &PongResponse, now: Instant) -> (r:
        Result<(), Error>)
        requires
            old(self).wf(),
        ensures
            final(self).wf(),
            (final(self)@, r) == on_clients(
                old(self)@,
                model::pong_response(old(self)@.clients, *pk, packet.ping_id, now),
            ),
    {
        if packet.ping_id == 0 {
            return Err(Error::ProtocolViolation);
        }
        let a = match self.position(pk) {
            Some(a) => a,
            None => {
                return Err(Error::UnknownSender);
            },
        };
        let ghost before = self@.clients;
        if packet.ping_id == self.connected_clients[a].ping_id() {
            self.connected_clients[a].set_last_pong_resp(now);
            proof {
                let c = ClientView { last_pong_resp: now, ..before[a as int] };
                lemma_update_client(before, a as int, c);
                assert(self@.clients =~= before.update(a as int, c));
            }
            Ok(())
        } else {
            Err(Error::ProtocolViolation)
        }
    }

    fn handle_oob_send(&mut self, pk: &PublicKey, packet: OobSend) -> (r: Result<(), Error>)
        requires
            old(self).wf(),
        ensures
            final(self).wf(),
            (final(self)@, r) == on_clients(
                old(self)@,
                model::oob_send(old(self)@.clients, *pk, packet.destination_pk, packet.data),
            ),
    {
        if packet.data.is_empty() || packet.data.len() > 1024 {
            return Err(Error::ProtocolViolation);
        }
        let ghost before = self@.clients;
        if let Some(b) = self.position(&packet.destination_pk) {
            let ghost p = Packet::OobReceive(OobReceive { sender_pk: *pk, data: packet.data });
            proof {
                lemma_update_client(before, b as int, offered(before[b as int], p));
            }
            self.connected_clients[b].send_oob(pk, packet.data);
            assert(self@.clients =~= offer_at(before, b as int, p));
        }
        // Else do nothing because client_b is not connected to server
        Ok(())
    }

    fn handle_oob_receive(&mut self, _pk: &PublicKey, _packet: &OobReceive) -> (r: Result<
        (),
        Error,
    >)
        ensures
            *final(self) == *old(self),
            r == Err::<(), Error>(Error::ProtocolViolation),
    {
        Err(Error::ProtocolViolation)
    }

    fn handle_onion_request(&mut self, pk: &PublicKey, packet: OnionRequest) -> (r: Result<
        (),
        Error,
    >)
        requires
            old(self).wf(),
        ensures
            final(self).wf(),
            (final(self)@, r) == model::onion_request(old(self)@, *pk, packet, r is Ok),
    {
        if self.onion_sink.is_none() {
            // Ignore OnionRequest as the server is not connected to onion
            // subsystem
            return Ok(());
        }
        let a = match self.position(pk) {
            Some(a) => a,
            None => {
                return Err(Error::UnknownSender);
            },
        };
        let saddr = SocketAddr::new(
            self.connected_clients[a].ip_addr(),
            self.connected_clients[a].port(),
        );
        proof {
            self.onion_sent@ = self.onion_sent@.push((packet, saddr));
        }
        match &self.onion_sink {
            Some(onion_sink) => delivery(send_to(onion_sink, (packet, saddr))),
            None => Ok(()),
        }
    }

    fn handle_onion_response(&mut self, _pk: &PublicKey, _packet: &OnionResponse) -> (r: Result<
        (),
        Error,
    >)
        ensures
            *final(self) == *old(self),
            r == Err::<(), Error>(Error::ProtocolViolation),
    {
        Err(Error::ProtocolViolation)
    }

    fn handle_data(&mut self, pk: &PublicKey, packet: Data) -> (r: Result<(), Error>)
        requires
            old(self).wf(),
        ensures
            final(self).wf(),
            (final(self)@, r) == on_clients(
                old(self)@,
                model::data(old(self)@.clients, *pk, packet.connection_id, packet.data, r is Ok),
            ),
    {
        let a = match self.position(pk) {
            Some(a) => a,
            None => {
                return Err(Error::UnknownSender);
            },
        };
        // There is possibility that the first client disconnected but the
        // second client haven't received DisconnectNotification yet and have
        // sent yet another packet. In this case we don't want to throw an
        // error and force disconnect the second client.
        let client_b_pk = match self.connected_clients[a].get_link(packet.connection_id) {
            Some(client_b_pk) => client_b_pk,
            None => {
                return Ok(());
            },
        };
        let ghost before = self@.clients;
        if let Some(b) = self.position(&client_b_pk) {
            if let Some(a_id_in_client_b) = self.connected_clients[b].get_connection_id(pk) {
                let ghost p = Packet::Data(
                    Data { connection_id: a_id_in_client_b, data: packet.data },
                );
                proof {
                    lemma_update_client(before, b as int, offered(before[b as int], p));
                }
                let r = self.connected_clients[b].send_data(a_id_in_client_b, packet.data);
                assert(self@.clients =~= offer_at(before, b as int, p));
                return r;
            }
        }
        // Else do nothing because client_b is not connected to server or has
        // not sent RouteRequest yet to connect to client_a
        Ok(())
    }

    /// Gracefully shutdown client by pk. Remove it from the list of
    /// connected clients. If there are any clients mutually linked to current
    /// client, we send them corresponding DisconnectNotification.
    ///
    /// The server and the result are what [`model::shutdown_client`] says.
    pub fn shutdown_client(&mut self, pk: &PublicKey) -> (r: Result<(), Error>)
        requires
            old(self).wf(),
        ensures
            final(self).wf(),
            (final(self)@, r) == model::shutdown_client(old(self)@, *pk),
    {
        let a = match self.position(pk) {
            Some(a) => a,
            None => {
                return Err(Error::UnknownTarget);
            },
        };
        let ghost before = self@.clients;
        proof {
            lemma_remove_client(before, a as int);
            lemma_remove_addr(before, self@.by_addr, a as int);
        }
        let client_a = self.connected_clients.remove(a);
        let ghost rest = before.remove(a as int);
        assert(self@.clients =~= rest);
        self.keys_by_addr.remove(&client_a.ip_addr(), client_a.port());
        let ghost gone_links = client_a@.links;
        let mut i: usize = 0;
        assert(self@.clients =~= rest.map_values(
            |peer: ClientView| told_left_upto(peer, *pk, gone_links, 0),
        ));
        while i < 240
            invariant
                i <= 240,
                self.wf(),
                client_a.wf(),
                client_a@.links == gone_links,
                clients_wf(rest),
                self@.clients == rest.map_values(
                    |peer: ClientView| told_left_upto(peer, *pk, gone_links, i as int),
                ),
                self@.by_addr == old(self)@.by_addr.remove((client_a@.ip_addr, client_a@.port)),
                self@.onion_sink == old(self)@.onion_sink,
                self@.onion_sent == old(self)@.onion_sent,
            decreases 240 - i,
        {
            let ghost now_clients = self@.clients;
            let ghost next = rest.map_values(
                |peer: ClientView| told_left_upto(peer, *pk, gone_links, i + 1),
            );
            if let Some(link) = client_a.links().by_id(i as u8) {
                let client_b_pk = link.pk;
                assert(holds(gone_links, i as int, client_b_pk));
                if let Some(b) = self.position(&client_b_pk) {
                    // check if client_a is linked in client_b
                    if let Some(a_id_in_client_b) = self.connected_clients[b].get_connection_id(
                        pk,
                    ) {
                        // it is linked, we should notify client_b
                        // link from client_b.links should not be removed
                        let ghost p = Packet::DisconnectNotification(
                            DisconnectNotification { connection_id: a_id_in_client_b },
                        );
                        proof {
                            lemma_update_client(
                                now_clients,
                                b as int,
                                offered(now_clients[b as int], p),
                            );
                            assert(rest[b as int].pk == client_b_pk);
                            assert(!linked_before(gone_links, i as int, client_b_pk)) by {
                                if linked_before(gone_links, i as int, client_b_pk) {
                                    let j = choose|j: int|
                                        0 <= j < i && holds(gone_links, j, client_b_pk);
                                    lemma_index_is_slot(gone_links, client_b_pk, j);
                                    lemma_index_is_slot(gone_links, client_b_pk, i as int);
                                }
                            }
                            assert(now_clients[b as int] == rest[b as int]);
                        }
                        self.connected_clients[b].send_disconnect_notification(a_id_in_client_b);
                        proof {
                            assert(self@.clients =~= offer_at(now_clients, b as int, p));
                        }
                    }
                }
            }
            proof {
                assert forall|k: int| 0 <= k < rest.len() implies self@.clients[k] == next[k] by {
                    let peer = rest[k];
                    let here = linked_before(gone_links, i as int, peer.pk);
                    let there = linked_before(gone_links, i + 1, peer.pk);
                    if here {
                        let j = choose|j: int| 0 <= j < i && holds(gone_links, j, peer.pk);
                        assert(0 <= j < i + 1 && holds(gone_links, j, peer.pk));
                    }
                    if there && !here {
                        let j = choose|j: int| 0 <= j < i + 1 && holds(gone_links, j, peer.pk);
                        assert(j == i);
                        assert(is_client(rest, k, peer.pk));
                        lemma_position(rest, peer.pk, k);
                    }
                    if holds(gone_links, i as int, peer.pk) {
                        assert(0 <= i < i + 1 && holds(gone_links, i as int, peer.pk));
                        assert(is_client(rest, k, peer.pk));
                        lemma_position(rest, peer.pk, k);
                        assert(is_client(now_clients, k, peer.pk));
                        lemma_position(now_clients, peer.pk, k);
                    }
                }
                assert(self@.clients =~= next);
            }
            i += 1;
        }
        proof {
            assert forall|k: int| 0 <= k < rest.len() implies told_left_upto(
                rest[k],
                *pk,
                gone_links,
                240,
            ) == told_left(rest[k], *pk, gone_links) by {
                let peer = rest[k];
                if linked_before(gone_links, 240, peer.pk) {
                    let j = choose|j: int| 0 <= j < 240 && holds(gone_links, j, peer.pk);
                    lemma_index_is_slot(gone_links, peer.pk, j);
                }
                if index_of(gone_links, peer.pk) is Some {
                    let j = index_of(gone_links, peer.pk)->0;
                    lemma_index_is_slot(gone_links, peer.pk, j);
                    assert(0 <= j < 240 && holds(gone_links, j, peer.pk));
                }
            }
            assert(self@.clients =~= rest.map_values(
                |peer: ClientView| told_left(peer, *pk, gone_links),
            ));
        }
        Ok(())
    }

    /// Remove timedout connected clients
    fn remove_timedout_clients(&mut self, now: Instant)
        requires
            old(self).wf(),
        ensures
            final(self).wf(),
            final(self)@ == evicted(old(self)@, now),
    {
        let mut keys: Vec<PublicKey> = Vec::new();
        let mut i: usize = 0;
        assert(self@.clients.take(0) =~= Seq::<ClientView>::empty());
        while i < self.connected_clients.len()
            invariant
                i <= self.connected_clients@.len(),
                *self == *old(self),
                keys@ == timedout_keys(self@.clients.take(i as int), now),
            decreases self.connected_clients@.len() - i,
        {
            proof {
                let upto = self@.clients.take(i + 1);
                assert(upto.drop_last() =~= self@.clients.take(i as int));
                assert(upto.last() == self@.clients[i as int]);
            }
            if self.connected_clients[i].is_pong_timedout(now) {
                keys.push(self.connected_clients[i].pk());
            }
            i += 1;
        }
        assert(self@.clients.take(i as int) =~= self@.clients);
        let mut k: usize = 0;
        assert(keys@.skip(0) =~= keys@);
        while k < keys.len()
            invariant
                k <= keys@.len(),
                self.wf(),
                evicted(old(self)@, now) == shutdown_all(self@, keys@.skip(k as int)),
            decreases keys@.len() - k,
        {
            proof {
                assert(keys@.skip(k as int).skip(1) =~= keys@.skip(k + 1));
                assert(keys@.skip(k as int)[0] == keys@[k as int]);
            }
            let ignored = self.shutdown_client(&keys[k]);
            k += 1;
        }
        assert(keys@.skip(k as int) =~= Seq::<PublicKey>::empty());
    }

    /// Send pings to all connected clients and terminate all timed out
    /// clients.
    ///
    /// First every client whose last pong is overdue at `now` is shut down,
    /// see [`evicted`]. Then every client that is left and whose next ping is
    /// due at `now` is sent a ping with a fresh id, which is never 0. No
    /// packet that a queue does not take stops the round: the result is
    /// always `Ok`. After the round a key is connected exactly if it was
    /// connected and the last pong of its client is not overdue at `now`.
    pub fn send_pings(&mut self, now: Instant) -> (r: Result<(), Error>)
        requires
            old(self).wf(),
        ensures
            final(self).wf(),
            r is Ok,
            final(self)@.by_addr == evicted(old(self)@, now).by_addr,
            final(self)@.onion_sink == evicted(old(self)@, now).onion_sink,
            final(self)@.onion_sent == evicted(old(self)@, now).onion_sent,
            final(self)@.clients.len() == evicted(old(self)@, now).clients.len(),
            forall|i: int|
                0 <= i < final(self)@.clients.len() ==> (#[trigger] final(self)@.clients[i]) == (
                if ping_due(evicted(old(self)@, now).clients[i], now) {
                    pinged(
                        evicted(old(self)@, now).clients[i],
                        now,
                        final(self)@.clients[i].ping_id,
                    )
                } else {
                    evicted(old(self)@, now).clients[i]
                }),
            forall|i: int|
                0 <= i < final(self)@.clients.len() && ping_due(
                    evicted(old(self)@, now).clients[i],
                    now,
                ) ==> (#[trigger] final(self)@.clients[i]).ping_id != 0,
            forall|pk: PublicKey|
                #[trigger] position(final(self)@.clients, pk) is Some <==> (position(
                    old(self)@.clients,
                    pk,
                ) matches Some(i) && !pong_timedout(old(self)@.clients[i], now)),
    {
        self.remove_timedout_clients(now);
        let ghost kept = self@.clients;
        let mut i: usize = 0;
        while i < self.connected_clients.len()
            invariant
                i <= self.connected_clients@.len(),
                self.wf(),
                clients_wf(kept),
                self@.by_addr == evicted(old(self)@, now).by_addr,
                self@.onion_sink == evicted(old(self)@, now).onion_sink,
                self@.onion_sent == evicted(old(self)@, now).onion_sent,
                kept == evicted(old(self)@, now).clients,
                self@.clients.len() == kept.len(),
                forall|j: int| i <= j < kept.len() ==> (#[trigger] self@.clients[j]) == kept[j],
                forall|j: int|
                    0 <= j < i ==> (#[trigger] self@.clients[j]) == (if ping_due(kept[j], now) {
                        pinged(kept[j], now, self@.clients[j].ping_id)
                    } else {
                        kept[j]
                    }),
                forall|j: int|
                    0 <= j < i && ping_due(kept[j], now) ==> (#[trigger] self@.clients[j]).ping_id
                        != 0,
            decreases self.connected_clients@.len() - i,
        {
            let ghost here = self@.clients;
            if self.connected_clients[i].is_ping_interval_passed(now) {
                let ignored = self.connected_clients[i].send_ping_request(now);
                proof {
                    let c = self@.clients[i as int];
                    assert(c == pinged(here[i as int], now, c.ping_id));
                    lemma_update_client(here, i as int, c);
                    assert(self@.clients =~= here.update(i as int, c));
                }
            }
            i += 1;
        }
        proof {
            assert forall|pk: PublicKey|
                #[trigger] position(self@.clients, pk) is Some <==> (position(
                    old(self)@.clients,
                    pk,
                ) matches Some(i) && !pong_timedout(old(self)@.clients[i], now)) by {
                lemma_eviction(old(self)@, now, pk);
                lemma_position_kept(kept, self@.clients, pk);
            }
        }
        Ok(())
    }
}

} // verus!
