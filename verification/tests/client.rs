use futures::sync::mpsc;
use futures::{Future, Stream};

use tox::toxcore::addr::IpAddr;
use tox::toxcore::crypto_core::PublicKey;
use tox::toxcore::tcp::packet::{
    ConnectNotification, Data, DisconnectNotification, OobReceive, Packet, PingRequest,
    PongResponse, RouteResponse,
};
use tox::toxcore::tcp::server::links::LinkStatus;
use tox::toxcore::tcp::server::errors::delivery;
use tox::toxcore::tcp::server::{Client, Error};
use tox::toxcore::time::{Instant, NANOS_PER_SEC};

fn pk(n: u8) -> PublicKey {
    PublicKey([n; 32])
}

fn client_at(now: Instant) -> (Client, mpsc::UnboundedReceiver<Packet>) {
    let (tx, rx) = mpsc::unbounded();
    (Client::new(tx, &pk(1), IpAddr::V4([1, 2, 3, 4]), 12345, now), rx)
}

#[test]
fn a_new_client_holds_what_it_was_made_of() {
    let (client, _rx) = client_at(Instant(5));
    assert_eq!(client.pk(), pk(1));
    assert_eq!(client.ip_addr(), IpAddr::V4([1, 2, 3, 4]));
    assert_eq!(client.port(), 12345);
    assert_eq!(client.ping_id(), 0);
    assert!(client.links().iter_links().iter().all(|slot| slot.is_none()));
}

#[test]
fn the_pong_is_overdue_after_forty_seconds() {
    let t = Instant::from_secs(100);
    let (mut client, _rx) = client_at(t);
    assert!(!client.is_pong_timedout(t));
    assert!(!client.is_pong_timedout(Instant(t.0 + 40 * NANOS_PER_SEC)));
    assert!(client.is_pong_timedout(Instant(t.0 + 40 * NANOS_PER_SEC + 1)));
    assert!(client.is_pong_timedout(t.plus_secs(41)));
    // a clock that went back shows no time gone by
    assert!(!client.is_pong_timedout(Instant(0)));
    client.set_last_pong_resp(t.plus_secs(41));
    assert!(!client.is_pong_timedout(t.plus_secs(41)));
}

#[test]
fn the_ping_is_due_at_thirty_seconds() {
    let t = Instant::from_secs(100);
    let (mut client, rx) = client_at(t);
    assert!(!client.is_ping_interval_passed(t));
    assert!(!client.is_ping_interval_passed(Instant(t.0 + 30 * NANOS_PER_SEC - 1)));
    assert!(client.is_ping_interval_passed(Instant(t.0 + 30 * NANOS_PER_SEC)));

    client.send_ping_request(t.plus_secs(30)).unwrap();
    assert_ne!(client.ping_id(), 0);
    assert!(!client.is_ping_interval_passed(t.plus_secs(59)));
    assert!(client.is_ping_interval_passed(t.plus_secs(60)));
    let ping_id = client.ping_id();
    drop(client);
    assert_eq!(
        rx.collect().wait().unwrap(),
        vec![Packet::PingRequest(PingRequest { ping_id })]
    );
}

#[test]
fn packets_go_into_the_queue_in_their_order() {
    let (mut client, rx) = client_at(Instant(0));
    client.send_route_response(&pk(2), 17).unwrap();
    client.send_connect_notification(18);
    client.send_disconnect_notification(19);
    client.send_pong_response(20).unwrap();
    client.send_oob(&pk(3), vec![1, 2]);
    client.send_data(21, vec![3, 4]).unwrap();
    drop(client);
    assert_eq!(
        rx.collect().wait().unwrap(),
        vec![
            Packet::RouteResponse(RouteResponse { connection_id: 17, pk: pk(2) }),
            Packet::ConnectNotification(ConnectNotification { connection_id: 18 }),
            Packet::DisconnectNotification(DisconnectNotification { connection_id: 19 }),
            Packet::PongResponse(PongResponse { ping_id: 20 }),
            Packet::OobReceive(OobReceive { sender_pk: pk(3), data: vec![1, 2] }),
            Packet::Data(Data { connection_id: 21, data: vec![3, 4] }),
        ]
    );
}

#[test]
fn a_closed_queue_is_an_error_only_where_the_packet_must_arrive() {
    let (mut client, rx) = client_at(Instant(0));
    drop(rx);
    assert_eq!(client.send_route_response(&pk(2), 17), Err(Error::SinkClosed));
    assert_eq!(client.send_pong_response(1), Err(Error::SinkClosed));
    assert_eq!(client.send_data(16, vec![]), Err(Error::SinkClosed));
    assert_eq!(client.send_ping_request(Instant(0)), Err(Error::SinkClosed));
    // these give no result to look at
    client.send_connect_notification(16);
    client.send_disconnect_notification(16);
    client.send_oob(&pk(2), vec![1]);
}

#[test]
fn links_are_named_by_wire_ids() {
    let (mut client, _rx) = client_at(Instant(0));
    assert_eq!(client.get_connection_id(&pk(2)), None);
    assert_eq!(client.insert_connection_id(&pk(2)), Some(16));
    assert_eq!(client.insert_connection_id(&pk(3)), Some(17));
    assert_eq!(client.insert_connection_id(&pk(2)), Some(16));
    assert_eq!(client.get_connection_id(&pk(3)), Some(17));
    assert_eq!(client.get_link(17), Some(pk(3)));
    assert_eq!(client.get_link(18), None);
    assert_eq!(client.get_link(15), None);
    assert_eq!(client.get_link(1), None);

    client.upgrade_link(17, 30);
    assert_eq!(client.links().by_id(1).unwrap().status, LinkStatus::Online(14));
    // what is no wire id changes nothing
    client.upgrade_link(16, 3);
    assert_eq!(client.links().by_id(0).unwrap().status, LinkStatus::Registered);

    assert_eq!(client.take_link(3), None);
    assert_eq!(client.take_link(16), Some(pk(2)));
    assert_eq!(client.take_link(16), None);
    assert_eq!(client.get_connection_id(&pk(2)), None);
    assert_eq!(client.get_connection_id(&pk(3)), Some(17));
}

#[test]
fn a_table_of_a_client_takes_240_links() {
    let (mut client, _rx) = client_at(Instant(0));
    for n in 0..240u16 {
        let mut key = [0xee; 32];
        key[0] = (n % 256) as u8;
        assert_eq!(client.insert_connection_id(&PublicKey(key)), Some(16 + n as u8));
    }
    assert_eq!(client.insert_connection_id(&pk(0xdd)), None);
}

#[test]
fn a_packet_that_was_not_taken_is_a_closed_sink() {
    assert_eq!(delivery(true), Ok(()));
    assert_eq!(delivery(false), Err(Error::SinkClosed));
}
