//! What holds of the relay whatever packets come: laws of the link table,
//! of the pings and of the keepalive sweep.

use vstd::prelude::*;
use crate::toxcore::crypto_core::PublicKey;
use crate::toxcore::tcp::packet::{Packet, RouteResponse};
use crate::toxcore::tcp::server::client::{
    peer_of_wire, pinged, pong_timedout, wire_of, without_wire, ClientView, TCP_PING_FREQUENCY,
    TCP_PING_TIMEOUT,
};
use crate::toxcore::tcp::server::errors::Error;
use crate::toxcore::tcp::server::links::{
    first_free, holds, index_of, lemma_changes_keep_wf, lemma_first_free, lemma_index_is_slot,
    links_wf, spec_wire_id, LinkStatus,
};
use crate::toxcore::tcp::server::model::{
    addr_of, addr_wf, clients_wf, disconnect_notification, evicted, insert, is_client,
    lemma_addr_kept, lemma_owner, lemma_position, lemma_position_kept, lemma_push_addr,
    lemma_remove_addr, lemma_remove_client, lemma_replace_addr, lemma_update_client,
    pong_response, position, relink_at, route_request, server_wf, shutdown_all, shutdown_client,
    timedout_keys, told_gone, without_owner, ServerView,
};
use crate::toxcore::time::{Instant, NANOS_PER_SEC};

verus! {

/// Wire ids and slots stand for each other: the wire id of a slot is at
/// least 16, and 16 less than it is the slot, which is less than 240.
pub proof fn lemma_wire_id_of_slot(slot: int)
    requires
        0 <= slot < 240,
    ensures
        spec_wire_id(slot) >= 16,
        spec_wire_id(slot) - 16 < 240,
        spec_wire_id(slot) - 16 == slot,
{
}

/// The connection id that answers a route request is 0, which names no
/// link, or a wire id: at least 16, and 16 less than it less than 240. The
/// sender is handed the answer before anything else: what may follow it in
/// the same step is the one `ConnectNotification` for the link.
pub proof fn lemma_route_response_id(
    clients: Seq<ClientView>,
    pk: PublicKey,
    peer: PublicKey,
    delivered: bool,
)
    requires
        clients_wf(clients),
        position(clients, pk) is Some,
    ensures
        ({
            let a = position(clients, pk)->0;
            let after = route_request(clients, pk, peer, delivered).0;
            let at = clients[a].sent.len() as int;
            &&& after.len() == clients.len()
            &&& after[a].sent.len() > at
            &&& after[a].sent[at] matches Packet::RouteResponse(response)
            &&& response.pk == peer
            &&& (response.connection_id == 0 || (response.connection_id >= 16
                && response.connection_id - 16 < 240))
            &&& after[a].sent.take(at) == clients[a].sent
            &&& after[a].sent.len() <= at + 2
            &&& after[a].sent.len() == at + 2 ==> after[a].sent[at + 1] is ConnectNotification
        }),
{
    let a = position(clients, pk)->0;
    lemma_position(clients, pk, a);
    if pk != peer {
        let links = clients[a].links;
        match index_of(links, peer) {
            Some(s) => {
                lemma_index_is_slot(links, peer, s);
            },
            None => {
                match first_free(links) {
                    Some(s) => {
                        lemma_first_free(links, s);
                    },
                    None => {},
                }
            },
        }
    }
}

/// The index of addresses and the clients agree after every connection: a
/// relay that is a relay stays one when a client connects. The client is
/// connected then, as it came, and its address is held for its key; nothing
/// is handed to the queue to the onion.
pub proof fn lemma_insert(s: ServerView, client: ClientView)
    requires
        server_wf(s),
        links_wf(client.links),
    ensures
        server_wf(insert(s, client)),
        position(insert(s, client).clients, client.pk) matches Some(i) && insert(
            s,
            client,
        ).clients[i] == client,
        insert(s, client).by_addr.contains_key(addr_of(client)),
        insert(s, client).by_addr[addr_of(client)] == client.pk,
        insert(s, client).onion_sink == s.onion_sink,
        insert(s, client).onion_sent == s.onion_sent,
{
    let addr = addr_of(client);
    let rest = without_owner(s.clients, s.by_addr, addr, client.pk);
    let evicting = s.by_addr.contains_key(addr) && s.by_addr[addr] != client.pk;
    let index = if evicting {
        s.by_addr.remove(addr)
    } else {
        s.by_addr
    };
    if s.by_addr.contains_key(addr) {
        lemma_owner(s, addr);
        let j = position(s.clients, s.by_addr[addr])->0;
        lemma_position(s.clients, s.by_addr[addr], j);
        if evicting {
            lemma_remove_client(s.clients, j);
            lemma_remove_addr(s.clients, s.by_addr, j);
        }
    }
    assert(clients_wf(rest) && addr_wf(rest, index));
    match position(rest, client.pk) {
        Some(i) => {
            lemma_position(rest, client.pk, i);
            if index.contains_key(addr) {
                lemma_owner(ServerView { clients: rest, by_addr: index, ..s }, addr);
                lemma_position(rest, client.pk, position(rest, index[addr])->0);
            }
            lemma_replace_addr(rest, index, i, client);
            assert(index.remove(addr_of(rest[i])).insert(addr, client.pk) =~= s.by_addr.remove(
                addr_of(rest[i]),
            ).insert(addr, client.pk));
        },
        None => {
            if index.contains_key(addr) {
                lemma_owner(ServerView { clients: rest, by_addr: index, ..s }, addr);
            }
            lemma_push_addr(rest, index, client);
            assert(index.insert(addr, client.pk) =~= s.by_addr.insert(addr, client.pk));
        },
    }
}

/// A connection leaves the others alone: a client of another key than the
/// one that connects stays connected as it is, with its links, its times and
/// what was handed to its queue, unless it was connected at the very address
/// that the new client connects from; then it is connected no more.
pub proof fn lemma_insert_keeps_others(s: ServerView, client: ClientView, other: PublicKey)
    requires
        server_wf(s),
        links_wf(client.links),
        other != client.pk,
    ensures
        position(insert(s, client).clients, other) is Some <==> (position(s.clients, other)
            matches Some(i) && addr_of(s.clients[i]) != addr_of(client)),
        position(insert(s, client).clients, other) matches Some(j) ==> insert(
            s,
            client,
        ).clients[j] == s.clients[position(s.clients, other)->0],
{
    let addr = addr_of(client);
    let rest = without_owner(s.clients, s.by_addr, addr, client.pk);
    let evicting = s.by_addr.contains_key(addr) && s.by_addr[addr] != client.pk;
    if position(s.clients, other) is Some {
        let i = position(s.clients, other)->0;
        lemma_position(s.clients, other, i);
        assert(s.by_addr[addr_of(s.clients[i])] == other);
    }
    if s.by_addr.contains_key(addr) {
        lemma_owner(s, addr);
        let j = position(s.clients, s.by_addr[addr])->0;
        lemma_position(s.clients, s.by_addr[addr], j);
        if evicting {
            lemma_remove_client(s.clients, j);
            if position(rest, other) is Some {
                let k = position(rest, other)->0;
                lemma_position(rest, other, k);
                let k0 = if k < j {
                    k
                } else {
                    k + 1
                };
                assert(rest[k] == s.clients[k0]);
                lemma_position(s.clients, other, k0);
            }
        }
    }
    assert(clients_wf(rest));
    let after = insert(s, client).clients;
    match position(rest, client.pk) {
        Some(i) => {
            lemma_position(rest, client.pk, i);
            assert forall|k: int| 0 <= k < rest.len() implies (#[trigger] after[k]).pk
                == rest[k].pk && links_wf(after[k].links) by {
                if k != i {
                    assert(after[k] == rest[k]);
                }
            }
            lemma_position_kept(rest, after, other);
            if position(rest, other) is Some {
                lemma_position(rest, other, position(rest, other)->0);
            }
        },
        None => {
            if position(rest, other) is Some {
                let k = position(rest, other)->0;
                lemma_position(rest, other, k);
                assert(is_client(after, k, other));
            }
            assert forall|a: int, b: int|
                0 <= a < after.len() && 0 <= b < after.len() && (#[trigger] after[a]).pk == (
                #[trigger] after[b]).pk implies a == b by {
                if a < rest.len() && b < rest.len() {
                    assert(rest[a].pk == rest[b].pk);
                } else if a < rest.len() {
                    assert(is_client(rest, a, client.pk));
                } else if b < rest.len() {
                    assert(is_client(rest, b, client.pk));
                }
            }
            assert forall|k: int| 0 <= k < after.len() implies links_wf(
                (#[trigger] after[k]).links,
            ) by {
                if k < rest.len() {
                    assert(after[k] == rest[k]);
                }
            }
            if position(after, other) is Some {
                let k = position(after, other)->0;
                lemma_position(after, other, k);
                assert(is_client(rest, k, other));
                lemma_position(rest, other, k);
            }
            if position(rest, other) is Some {
                lemma_position(after, other, position(rest, other)->0);
            }
        },
    }
}

/// Giving up a link is the matter of one side: a `DisconnectNotification`
/// changes the links of its sender only. Every other client holds the links
/// it held, the one to the sender among them.
pub proof fn lemma_unlink_is_one_sided(
    clients: Seq<ClientView>,
    pk: PublicKey,
    id: u8,
    other: PublicKey,
)
    requires
        clients_wf(clients),
        other != pk,
    ensures
        position(disconnect_notification(clients, pk, id).0, other) == position(clients, other),
        position(clients, other) matches Some(j) ==> disconnect_notification(
            clients,
            pk,
            id,
        ).0[j].links == clients[j].links,
{
    if position(clients, pk) is Some {
        let a = position(clients, pk)->0;
        lemma_position(clients, pk, a);
        if let Some(peer) = peer_of_wire(clients[a].links, id) {
            let links = without_wire(clients[a].links, id);
            lemma_changes_keep_wf(clients[a].links, id - 16, LinkStatus::Registered);
            let unlinked = relink_at(clients, a, links);
            lemma_update_client(clients, a, unlinked[a]);
            let after = told_gone(unlinked, peer, pk);
            if position(unlinked, peer) is Some {
                let b = position(unlinked, peer)->0;
                lemma_position(unlinked, peer, b);
                if wire_of(unlinked[b].links, pk) is Some {
                    lemma_update_client(unlinked, b, after[b]);
                }
            }
            if position(clients, other) is Some {
                let j = position(clients, other)->0;
                lemma_position(clients, other, j);
            }
        }
    }
}

/// A pong with the id of the ping that was sent is taken as come, and a pong
/// with another id is an error: after a ping with the id `ping_id`, which is
/// never 0, was sent to the client at `a`, a `PongResponse` of that client
/// with `ping_id` sets the time of its last pong, and one with any other id
/// changes nothing and is refused.
pub proof fn lemma_ping_freshness(
    clients: Seq<ClientView>,
    a: int,
    sent_at: Instant,
    ping_id: u64,
    now: Instant,
    other_id: u64,
)
    requires
        clients_wf(clients),
        0 <= a < clients.len(),
        ping_id != 0,
        other_id != ping_id,
    ensures
        ({
            let waiting = clients.update(a, pinged(clients[a], sent_at, ping_id));
            &&& pong_response(waiting, clients[a].pk, ping_id, now) == (
                waiting.update(a, ClientView { last_pong_resp: now, ..waiting[a] }),
                Ok::<(), Error>(()),
            )
            &&& pong_response(waiting, clients[a].pk, other_id, now).0 == waiting
            &&& pong_response(waiting, clients[a].pk, other_id, now).1 is Err
        }),
{
    let waiting = clients.update(a, pinged(clients[a], sent_at, ping_id));
    lemma_position_kept(clients, waiting, clients[a].pk);
    lemma_position(clients, clients[a].pk, a);
}

/// A key is among the keys of the clients whose last pong is overdue exactly
/// if it is the key of such a client.
pub proof fn lemma_timedout_keys(clients: Seq<ClientView>, now: Instant, pk: PublicKey)
    ensures
        timedout_keys(clients, now).contains(pk) <==> exists|i: int|
            is_client(clients, i, pk) && pong_timedout(clients[i], now),
    decreases clients.len(),
{
    if clients.len() > 0 {
        let init = clients.drop_last();
        let last = clients.last();
        lemma_timedout_keys(init, now, pk);
        let before = timedout_keys(init, now);
        if timedout_keys(clients, now).contains(pk) {
            let keys = timedout_keys(clients, now);
            let k = choose|k: int| 0 <= k < keys.len() && keys[k] == pk;
            if pong_timedout(last, now) && k == before.len() {
                assert(is_client(clients, clients.len() - 1, pk));
            } else {
                assert(before[k] == pk);
                let i = choose|i: int| is_client(init, i, pk) && pong_timedout(init[i], now);
                assert(is_client(clients, i, pk) && pong_timedout(clients[i], now));
            }
        }
        if exists|i: int| is_client(clients, i, pk) && pong_timedout(clients[i], now) {
            let i = choose|i: int| is_client(clients, i, pk) && pong_timedout(clients[i], now);
            if i < init.len() {
                assert(is_client(init, i, pk) && pong_timedout(init[i], now));
                let k = choose|k: int| 0 <= k < before.len() && before[k] == pk;
                assert(timedout_keys(clients, now)[k] == pk);
            } else {
                assert(timedout_keys(clients, now)[before.len() as int] == pk);
            }
        }
    }
}

/// A shutdown takes the one client out and leaves the keys, the links and
/// the times of the others as they are.
pub proof fn lemma_shutdown_keeps_others(s: ServerView, gone: PublicKey, pk: PublicKey)
    requires
        clients_wf(s.clients),
    ensures
        clients_wf(shutdown_client(s, gone).0.clients),
        position(shutdown_client(s, gone).0.clients, pk) is Some <==> position(s.clients, pk)
            is Some && !(pk == gone),
        position(shutdown_client(s, gone).0.clients, pk) matches Some(j) ==> ({
            let i = position(s.clients, pk)->0;
            let after = shutdown_client(s, gone).0.clients[j];
            &&& after.last_pong_resp == s.clients[i].last_pong_resp
            &&& after.last_pinged == s.clients[i].last_pinged
            &&& after.ping_id == s.clients[i].ping_id
            &&& after.links == s.clients[i].links
        }),
{
    match position(s.clients, gone) {
        None => {},
        Some(a) => {
            lemma_position(s.clients, gone, a);
            let rest = s.clients.remove(a);
            let after = shutdown_client(s, gone).0.clients;
            assert forall|a0: int, b0: int|
                0 <= a0 < rest.len() && 0 <= b0 < rest.len() && (#[trigger] rest[a0]).pk == (
                #[trigger] rest[b0]).pk implies a0 == b0 by {
                let a1 = if a0 < a {
                    a0
                } else {
                    a0 + 1
                };
                let b1 = if b0 < a {
                    b0
                } else {
                    b0 + 1
                };
                assert(s.clients[a1].pk == s.clients[b1].pk);
            }
            assert forall|k: int| 0 <= k < rest.len() implies links_wf(
                (#[trigger] rest[k]).links,
            ) by {
                let k1 = if k < a {
                    k
                } else {
                    k + 1
                };
                assert(rest[k] == s.clients[k1]);
            }
            assert(clients_wf(rest));
            lemma_position_kept(rest, after, pk);
            if position(rest, pk) is Some {
                let j = position(rest, pk)->0;
                lemma_position(rest, pk, j);
                let j1 = if j < a {
                    j
                } else {
                    j + 1
                };
                assert(is_client(s.clients, j1, pk));
                lemma_position(s.clients, pk, j1);
            }
            if position(s.clients, pk) is Some && pk != gone {
                let i = position(s.clients, pk)->0;
                lemma_position(s.clients, pk, i);
                let i1 = if i < a {
                    i
                } else {
                    i - 1
                };
                assert(is_client(rest, i1, pk));
                lemma_position(rest, pk, i1);
            }
        },
    }
}

/// Shutdowns one after another take out the clients that are named and
/// leave the others with their times.
pub proof fn lemma_shutdown_all(s: ServerView, keys: Seq<PublicKey>, pk: PublicKey)
    requires
        clients_wf(s.clients),
    ensures
        clients_wf(shutdown_all(s, keys).clients),
        position(shutdown_all(s, keys).clients, pk) is Some <==> position(s.clients, pk) is Some
            && !keys.contains(pk),
        position(shutdown_all(s, keys).clients, pk) matches Some(j) ==> shutdown_all(
            s,
            keys,
        ).clients[j].last_pong_resp == s.clients[position(s.clients, pk)->0].last_pong_resp,
    decreases keys.len(),
{
    if keys.len() > 0 {
        let next = shutdown_client(s, keys[0]).0;
        lemma_shutdown_keeps_others(s, keys[0], pk);
        lemma_shutdown_all(next, keys.skip(1), pk);
        if keys.contains(pk) && pk != keys[0] {
            let k = choose|k: int| 0 <= k < keys.len() && keys[k] == pk;
            assert(keys.skip(1)[k - 1] == pk);
        }
        if keys.skip(1).contains(pk) {
            let k = choose|k: int| 0 <= k < keys.skip(1).len() && keys.skip(1)[k] == pk;
            assert(keys[k + 1] == pk);
        }
    }
}

/// A shutdown keeps the relay a relay: the clients that are left and the
/// index of addresses agree.
pub proof fn lemma_shutdown_keeps_wf(s: ServerView, gone: PublicKey)
    requires
        server_wf(s),
    ensures
        server_wf(shutdown_client(s, gone).0),
{
    if position(s.clients, gone) is Some {
        let a = position(s.clients, gone)->0;
        lemma_position(s.clients, gone, a);
        let rest = s.clients.remove(a);
        let after = shutdown_client(s, gone).0;
        lemma_remove_client(s.clients, a);
        lemma_remove_addr(s.clients, s.by_addr, a);
        lemma_position_kept(rest, after.clients, gone);
        lemma_addr_kept(rest, after.clients, after.by_addr);
    }
}

/// The keepalive sweep keeps the relay a relay.
pub proof fn lemma_shutdown_all_keeps_wf(s: ServerView, keys: Seq<PublicKey>)
    requires
        server_wf(s),
    ensures
        server_wf(shutdown_all(s, keys)),
    decreases keys.len(),
{
    if keys.len() > 0 {
        lemma_shutdown_keeps_wf(s, keys[0]);
        lemma_shutdown_all_keeps_wf(shutdown_client(s, keys[0]).0, keys.skip(1));
    }
}

/// The keepalive sweep evicts exactly the clients whose last pong is
/// overdue: after it a key is connected exactly if it was connected and the
/// last pong of its client is not more than `TCP_PING_FREQUENCY +
/// TCP_PING_TIMEOUT` seconds old. So once that time and a second more has
/// gone by since the last pong of a client, the sweep leaves the client out.
pub proof fn lemma_eviction(s: ServerView, now: Instant, pk: PublicKey)
    requires
        clients_wf(s.clients),
    ensures
        clients_wf(evicted(s, now).clients),
        position(evicted(s, now).clients, pk) is Some <==> (position(s.clients, pk) matches Some(
            i,
        ) && !pong_timedout(s.clients[i], now)),
        position(s.clients, pk) matches Some(i) && now.0 - s.clients[i].last_pong_resp.0 >= (
        TCP_PING_FREQUENCY + TCP_PING_TIMEOUT + 1) * NANOS_PER_SEC ==> position(
            evicted(s, now).clients,
            pk,
        ) is None,
{
    let keys = timedout_keys(s.clients, now);
    lemma_shutdown_all(s, keys, pk);
    lemma_timedout_keys(s.clients, now, pk);
    if position(s.clients, pk) is Some {
        let i = position(s.clients, pk)->0;
        lemma_position(s.clients, pk, i);
        if keys.contains(pk) {
            let k = choose|k: int| is_client(s.clients, k, pk) && pong_timedout(s.clients[k], now);
            lemma_position(s.clients, pk, k);
        }
    }
}

} // verus!
