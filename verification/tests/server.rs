use futures::sync::mpsc;
use futures::{Future, Stream};

use tox::toxcore::addr::{IpAddr, SocketAddr};
use tox::toxcore::crypto_core::{Nonce, PublicKey};
use tox::toxcore::onion::{InnerOnionResponse, IpPort, OnionAnnounceResponse, ProtocolType};
use tox::toxcore::tcp::packet::{
    ConnectNotification, Data, DisconnectNotification, OnionRequest, OnionResponse, OobReceive,
    OobSend, Packet, PingRequest, PongResponse, RouteRequest, RouteResponse,
};
use tox::toxcore::tcp::server::client::{TCP_PING_FREQUENCY, TCP_PING_TIMEOUT};
use tox::toxcore::tcp::server::{Client, Error, Server};
use tox::toxcore::time::Instant;

fn gen_pk() -> PublicKey {
    PublicKey(rand::random::<[u8; 32]>())
}

fn gen_nonce() -> Nonce {
    Nonce(rand::random::<[u8; 24]>())
}

fn start() -> Instant {
    Instant::from_secs(1000)
}

/// A client with a random key at the given address, with the receiving end
/// of its queue.
fn create_random_client(ip: [u8; 4], port: u16) -> (Client, mpsc::UnboundedReceiver<Packet>) {
    let client_pk = gen_pk();
    let (tx, rx) = mpsc::unbounded();
    let client = Client::new(tx, &client_pk, IpAddr::V4(ip), port, start());
    (client, rx)
}

fn onion_request(payload_len: usize) -> OnionRequest {
    OnionRequest {
        nonce: gen_nonce(),
        ip_port: IpPort {
            protocol: ProtocolType::TCP,
            ip_addr: IpAddr::V4([127, 0, 0, 1]),
            port: 12345,
        },
        temporary_pk: gen_pk(),
        payload: vec![13; payload_len],
    }
}

fn onion_response() -> InnerOnionResponse {
    InnerOnionResponse::OnionAnnounceResponse(OnionAnnounceResponse {
        sendback_data: 12345,
        nonce: gen_nonce(),
        payload: vec![42; 123],
    })
}

#[test]
fn normal_communication_scenario() {
    let mut server = Server::new();

    let (client_1, rx_1) = create_random_client([1, 2, 3, 4], 12345);
    let client_pk_1 = client_1.pk();

    // client 1 connects to the server
    server.insert(client_1);

    let (client_2, rx_2) = create_random_client([1, 2, 3, 5], 12345);
    let client_pk_2 = client_2.pk();

    // emulate send RouteRequest from client_1
    server
        .handle_packet(
            &client_pk_1,
            Packet::RouteRequest(RouteRequest { pk: client_pk_2 }),
            start(),
        )
        .unwrap();

    // the server should put RouteResponse into rx_1
    let (packet, rx_1) = rx_1.into_future().wait().unwrap();
    assert_eq!(
        packet.unwrap(),
        Packet::RouteResponse(RouteResponse { pk: client_pk_2, connection_id: 16 })
    );

    // client 2 connects to the server
    server.insert(client_2);

    // emulate send RouteRequest from client_1 again
    server
        .handle_packet(
            &client_pk_1,
            Packet::RouteRequest(RouteRequest { pk: client_pk_2 }),
            start(),
        )
        .unwrap();

    // the server should put RouteResponse into rx_1
    let (packet, rx_1) = rx_1.into_future().wait().unwrap();
    assert_eq!(
        packet.unwrap(),
        Packet::RouteResponse(RouteResponse { pk: client_pk_2, connection_id: 16 })
    );

    // emulate send RouteRequest from client_2
    server
        .handle_packet(
            &client_pk_2,
            Packet::RouteRequest(RouteRequest { pk: client_pk_1 }),
            start(),
        )
        .unwrap();

    // the server should put RouteResponse into rx_2
    let (packet, rx_2) = rx_2.into_future().wait().unwrap();
    assert_eq!(
        packet.unwrap(),
        Packet::RouteResponse(RouteResponse { pk: client_pk_1, connection_id: 16 })
    );
    // AND
    // the server should put ConnectNotification into rx_1
    let (packet, _rx_1) = rx_1.into_future().wait().unwrap();
    assert_eq!(
        packet.unwrap(),
        Packet::ConnectNotification(ConnectNotification { connection_id: 16 })
    );
    // AND
    // the server should put ConnectNotification into rx_2
    let (packet, rx_2) = rx_2.into_future().wait().unwrap();
    assert_eq!(
        packet.unwrap(),
        Packet::ConnectNotification(ConnectNotification { connection_id: 16 })
    );

    // emulate send Data from client_1
    server
        .handle_packet(
            &client_pk_1,
            Packet::Data(Data { connection_id: 16, data: vec![13, 42] }),
            start(),
        )
        .unwrap();

    // the server should put Data into rx_2
    let (packet, rx_2) = rx_2.into_future().wait().unwrap();
    assert_eq!(packet.unwrap(), Packet::Data(Data { connection_id: 16, data: vec![13, 42] }));

    // emulate client_1 disconnected
    server.shutdown_client(&client_pk_1).unwrap();
    // the server should put DisconnectNotification into rx_2
    let (packet, _rx_2) = rx_2.into_future().wait().unwrap();
    assert_eq!(
        packet.unwrap(),
        Packet::DisconnectNotification(DisconnectNotification { connection_id: 16 })
    );

    // check we did not unlink client_1 from client_2
    let client_b = server.client(&client_pk_2).unwrap();
    assert!(client_b.get_connection_id(&client_pk_1).is_some());
}

#[test]
fn handle_route_request() {
    let mut server = Server::new();

    let (client_1, rx_1) = create_random_client([1, 2, 3, 4], 12345);
    let client_pk_1 = client_1.pk();
    server.insert(client_1);

    let (client_2, _rx_2) = create_random_client([1, 2, 3, 5], 12345);
    let client_pk_2 = client_2.pk();
    server.insert(client_2);

    // emulate send RouteRequest from client_1
    server
        .handle_packet(
            &client_pk_1,
            Packet::RouteRequest(RouteRequest { pk: client_pk_2 }),
            start(),
        )
        .unwrap();

    // the server should put RouteResponse into rx_1
    let (packet, _rx_1) = rx_1.into_future().wait().unwrap();
    assert_eq!(
        packet.unwrap(),
        Packet::RouteResponse(RouteResponse { pk: client_pk_2, connection_id: 16 })
    );

    // check we linked client_2 in client_1
    let client_a = server.client(&client_pk_1).unwrap();
    assert!(client_a.get_connection_id(&client_pk_2).is_some());

    // check we did not link client_1 in client_2
    let client_b = server.client(&client_pk_2).unwrap();
    assert!(client_b.get_connection_id(&client_pk_1).is_none());
}

#[test]
fn handle_route_request_to_itself() {
    let mut server = Server::new();

    let (client_1, rx_1) = create_random_client([1, 2, 3, 4], 12345);
    let client_pk_1 = client_1.pk();
    server.insert(client_1);

    // emulate send RouteRequest from client_1
    server
        .handle_packet(
            &client_pk_1,
            Packet::RouteRequest(RouteRequest { pk: client_pk_1 }),
            start(),
        )
        .unwrap();

    // the server should put RouteResponse into rx_1
    let (packet, _rx_1) = rx_1.into_future().wait().unwrap();
    assert_eq!(
        packet.unwrap(),
        Packet::RouteResponse(RouteResponse { pk: client_pk_1, connection_id: 0 })
    );
}

#[test]
fn handle_route_request_too_many_connections() {
    let mut server = Server::new();

    let (client_1, mut rx_1) = create_random_client([1, 2, 3, 4], 12345);
    let client_pk_1 = client_1.pk();
    server.insert(client_1);

    // send 240 RouteRequest
    for i in 0..240u8 {
        let (other_client, _other_rx) = create_random_client([1, 2, 3, 4], 12346 + u16::from(i));
        let other_client_pk = other_client.pk();
        server.insert(other_client);

        // emulate send RouteRequest from client_1
        server
            .handle_packet(
                &client_pk_1,
                Packet::RouteRequest(RouteRequest { pk: other_client_pk }),
                start(),
            )
            .unwrap();

        // the server should put RouteResponse into rx_1
        let (packet, rx_1_nested) = rx_1.into_future().wait().unwrap();
        assert_eq!(
            packet.unwrap(),
            Packet::RouteResponse(RouteResponse { pk: other_client_pk, connection_id: i + 16 })
        );
        rx_1 = rx_1_nested;
    }
    // and send one more again
    let (other_client, _other_rx) = create_random_client([1, 2, 3, 5], 12345);
    let other_client_pk = other_client.pk();
    server.insert(other_client);
    // emulate send RouteRequest from client_1
    server
        .handle_packet(
            &client_pk_1,
            Packet::RouteRequest(RouteRequest { pk: other_client_pk }),
            start(),
        )
        .unwrap();

    // the server should put RouteResponse into rx_1
    let (packet, _rx_1) = rx_1.into_future().wait().unwrap();
    assert_eq!(
        packet.unwrap(),
        Packet::RouteResponse(RouteResponse { pk: other_client_pk, connection_id: 0 })
    );
}

#[test]
fn handle_connect_notification() {
    let mut server = Server::new();

    let (client_1, _rx_1) = create_random_client([1, 2, 3, 4], 12345);
    let client_pk_1 = client_1.pk();
    server.insert(client_1);

    // emulate send ConnectNotification from client_1
    let handle_res = server.handle_packet(
        &client_pk_1,
        Packet::ConnectNotification(ConnectNotification { connection_id: 42 }),
        start(),
    );
    assert!(handle_res.is_ok());
}

#[test]
fn handle_disconnect_notification() {
    let mut server = Server::new();

    let (client_1, rx_1) = create_random_client([1, 2, 3, 4], 12345);
    let client_pk_1 = client_1.pk();
    server.insert(client_1);

    let (client_2, rx_2) = create_random_client([1, 2, 3, 5], 12345);
    let client_pk_2 = client_2.pk();
    server.insert(client_2);

    // emulate send RouteRequest from client_1
    server
        .handle_packet(
            &client_pk_1,
            Packet::RouteRequest(RouteRequest { pk: client_pk_2 }),
            start(),
        )
        .unwrap();

    // the server should put RouteResponse into rx_1
    let (packet, rx_1) = rx_1.into_future().wait().unwrap();
    assert_eq!(
        packet.unwrap(),
        Packet::RouteResponse(RouteResponse { pk: client_pk_2, connection_id: 16 })
    );

    // emulate send RouteRequest from client_2
    server
        .handle_packet(
            &client_pk_2,
            Packet::RouteRequest(RouteRequest { pk: client_pk_1 }),
            start(),
        )
        .unwrap();

    // the server should put RouteResponse into rx_2
    let (packet, rx_2) = rx_2.into_future().wait().unwrap();
    assert_eq!(
        packet.unwrap(),
        Packet::RouteResponse(RouteResponse { pk: client_pk_1, connection_id: 16 })
    );
    // AND
    // the server should put ConnectNotification into rx_1
    let (packet, rx_1) = rx_1.into_future().wait().unwrap();
    assert_eq!(
        packet.unwrap(),
        Packet::ConnectNotification(ConnectNotification { connection_id: 16 })
    );
    // AND
    // the server should put ConnectNotification into rx_2
    let (packet, rx_2) = rx_2.into_future().wait().unwrap();
    assert_eq!(
        packet.unwrap(),
        Packet::ConnectNotification(ConnectNotification { connection_id: 16 })
    );

    // emulate send DisconnectNotification from client_1
    server
        .handle_packet(
            &client_pk_1,
            Packet::DisconnectNotification(DisconnectNotification { connection_id: 16 }),
            start(),
        )
        .unwrap();

    // the server should put DisconnectNotification into rx_2
    let (packet, _rx_2) = rx_2.into_future().wait().unwrap();
    assert_eq!(
        packet.unwrap(),
        Packet::DisconnectNotification(DisconnectNotification { connection_id: 16 })
    );

    {
        // check we unlinked client_2 from client_1
        let client_a = server.client(&client_pk_1).unwrap();
        assert!(client_a.get_connection_id(&client_pk_2).is_none());

        // check we did not unlink client_1 from client_2
        let client_b = server.client(&client_pk_2).unwrap();
        assert!(client_b.get_connection_id(&client_pk_1).is_some());
    }

    // emulate send DisconnectNotification from client_2
    server
        .handle_packet(
            &client_pk_2,
            Packet::DisconnectNotification(DisconnectNotification { connection_id: 16 }),
            start(),
        )
        .unwrap();

    {
        // check we unlinked client_1 from client_2
        let client_b = server.client(&client_pk_2).unwrap();
        assert!(client_b.get_connection_id(&client_pk_1).is_none());

        // check we unlinked client_2 from client_1
        let client_a = server.client(&client_pk_1).unwrap();
        assert!(client_a.get_connection_id(&client_pk_2).is_none());
    }

    // check that DisconnectNotification from client_2 did not put anything in client1.rx
    // necessary to drop server so that rx.collect() can be finished
    drop(server);
    assert!(rx_1.collect().wait().unwrap().is_empty());
}

#[test]
fn handle_disconnect_notification_other_not_linked() {
    let mut server = Server::new();

    let (client_1, _rx_1) = create_random_client([1, 2, 3, 4], 12345);
    let client_pk_1 = client_1.pk();
    server.insert(client_1);

    let (client_2, rx_2) = create_random_client([1, 2, 3, 5], 12345);
    let client_pk_2 = client_2.pk();
    server.insert(client_2);

    // emulate send RouteRequest from client_1
    server
        .handle_packet(
            &client_pk_1,
            Packet::RouteRequest(RouteRequest { pk: client_pk_2 }),
            start(),
        )
        .unwrap();

    // emulate send DisconnectNotification from client_1
    let handle_res = server.handle_packet(
        &client_pk_1,
        Packet::DisconnectNotification(DisconnectNotification { connection_id: 16 }),
        start(),
    );
    assert!(handle_res.is_ok());

    // check that packets from client_1 did not put anything in client2.rx
    // necessary to drop server so that rx.collect() can be finished
    drop(server);
    assert!(rx_2.collect().wait().unwrap().is_empty());
}

#[test]
fn handle_ping_request() {
    let mut server = Server::new();

    let (client_1, rx_1) = create_random_client([1, 2, 3, 4], 12345);
    let client_pk_1 = client_1.pk();
    server.insert(client_1);

    // emulate send PingRequest from client_1
    server
        .handle_packet(&client_pk_1, Packet::PingRequest(PingRequest { ping_id: 42 }), start())
        .unwrap();

    // the server should put PongResponse into rx_1
    let (packet, _rx_1) = rx_1.into_future().wait().unwrap();
    assert_eq!(packet.unwrap(), Packet::PongResponse(PongResponse { ping_id: 42 }));
}

#[test]
fn handle_oob_send() {
    let mut server = Server::new();

    let (client_1, _rx_1) = create_random_client([1, 2, 3, 4], 12345);
    let client_pk_1 = client_1.pk();
    server.insert(client_1);

    let (client_2, rx_2) = create_random_client([1, 2, 3, 5], 12345);
    let client_pk_2 = client_2.pk();
    server.insert(client_2);

    // emulate send OobSend from client_1
    server
        .handle_packet(
            &client_pk_1,
            Packet::OobSend(OobSend { destination_pk: client_pk_2, data: vec![13; 1024] }),
            start(),
        )
        .unwrap();

    // the server should put OobReceive into rx_2
    let (packet, _rx_2) = rx_2.into_future().wait().unwrap();
    assert_eq!(
        packet.unwrap(),
        Packet::OobReceive(OobReceive { sender_pk: client_pk_1, data: vec![13; 1024] })
    );
}

#[test]
fn handle_onion_request() {
    let (udp_onion_sink, udp_onion_stream) = mpsc::unbounded();
    let mut server = Server::new();
    server.set_udp_onion_sink(udp_onion_sink);

    let (client_1, _rx_1) = create_random_client([1, 2, 3, 4], 12345);
    let client_pk_1 = client_1.pk();
    let client_addr_1 = client_1.ip_addr();
    let client_port_1 = client_1.port();
    server.insert(client_1);

    let request = onion_request(170);
    let handle_res =
        server.handle_packet(&client_pk_1, Packet::OnionRequest(request.clone()), start());
    assert!(handle_res.is_ok());

    let (packet, _) = udp_onion_stream.into_future().wait().unwrap();
    let (packet, saddr): (OnionRequest, SocketAddr) = packet.unwrap();

    assert_eq!(saddr.ip, client_addr_1);
    assert_eq!(saddr.port, client_port_1);
    assert_eq!(packet, request);
}

#[test]
fn handle_udp_onion_response() {
    let mut server = Server::new();

    let (client_1, rx_1) = create_random_client([1, 2, 3, 4], 12345);
    let client_addr_1 = client_1.ip_addr();
    let client_port_1 = client_1.port();
    server.insert(client_1);

    let payload = onion_response();
    let handle_res =
        server.handle_udp_onion_response(client_addr_1, client_port_1, payload.clone());
    assert!(handle_res.is_ok());

    let (packet, _) = rx_1.into_future().wait().unwrap();
    assert_eq!(packet.unwrap(), Packet::OnionResponse(OnionResponse { payload }));
}

#[test]
fn shutdown_other_not_linked() {
    let mut server = Server::new();

    let (client_1, rx_1) = create_random_client([1, 2, 3, 4], 12345);
    let client_pk_1 = client_1.pk();
    server.insert(client_1);

    let (client_2, _rx_2) = create_random_client([1, 2, 3, 5], 12345);
    let client_pk_2 = client_2.pk();
    server.insert(client_2);

    // emulate send RouteRequest from client_1
    server
        .handle_packet(
            &client_pk_1,
            Packet::RouteRequest(RouteRequest { pk: client_pk_2 }),
            start(),
        )
        .unwrap();

    // the server should put RouteResponse into rx_1
    let (packet, _rx_1) = rx_1.into_future().wait().unwrap();
    assert_eq!(
        packet.unwrap(),
        Packet::RouteResponse(RouteResponse { pk: client_pk_2, connection_id: 16 })
    );

    // emulate shutdown
    let handle_res = server.shutdown_client(&client_pk_1);
    assert!(handle_res.is_ok());
}

#[test]
fn handle_data_other_not_linked() {
    let mut server = Server::new();

    let (client_1, rx_1) = create_random_client([1, 2, 3, 4], 12345);
    let client_pk_1 = client_1.pk();
    server.insert(client_1);

    let (client_2, _rx_2) = create_random_client([1, 2, 3, 5], 12345);
    let client_pk_2 = client_2.pk();
    server.insert(client_2);

    // emulate send RouteRequest from client_1
    server
        .handle_packet(
            &client_pk_1,
            Packet::RouteRequest(RouteRequest { pk: client_pk_2 }),
            start(),
        )
        .unwrap();

    // the server should put RouteResponse into rx_1
    let (packet, _rx_1) = rx_1.into_future().wait().unwrap();
    assert_eq!(
        packet.unwrap(),
        Packet::RouteResponse(RouteResponse { pk: client_pk_2, connection_id: 16 })
    );

    // emulate send Data from client_1
    let handle_res = server.handle_packet(
        &client_pk_1,
        Packet::Data(Data { connection_id: 16, data: vec![13, 42] }),
        start(),
    );
    assert!(handle_res.is_ok());
}

////////////////////////////////////////////////////////////////////////////////////////
// Here be all handle_* tests with wrong args
#[test]
fn handle_route_response() {
    let mut server = Server::new();

    let (client_1, _rx_1) = create_random_client([1, 2, 3, 4], 12345);
    let client_pk_1 = client_1.pk();
    server.insert(client_1);

    // emulate send RouteResponse from client_1
    let handle_res = server.handle_packet(
        &client_pk_1,
        Packet::RouteResponse(RouteResponse { pk: client_pk_1, connection_id: 42 }),
        start(),
    );
    assert!(handle_res.is_err());
}

#[test]
fn handle_disconnect_notification_not_linked() {
    let mut server = Server::new();

    let (client_1, rx_1) = create_random_client([1, 2, 3, 4], 12345);
    let client_pk_1 = client_1.pk();
    server.insert(client_1);

    // emulate send DisconnectNotification from client_1
    let handle_res = server.handle_packet(
        &client_pk_1,
        Packet::DisconnectNotification(DisconnectNotification { connection_id: 16 }),
        start(),
    );
    assert!(handle_res.is_ok());

    // Necessary to drop tx so that rx.collect() can be finished
    drop(server);

    assert!(rx_1.collect().wait().unwrap().is_empty());
}

#[test]
fn handle_ping_request_0() {
    let mut server = Server::new();

    let (client_1, _rx_1) = create_random_client([1, 2, 3, 4], 12345);
    let client_pk_1 = client_1.pk();
    server.insert(client_1);

    // emulate send PingRequest from client_1
    let handle_res = server.handle_packet(
        &client_pk_1,
        Packet::PingRequest(PingRequest { ping_id: 0 }),
        start(),
    );
    assert!(handle_res.is_err());
}

#[test]
fn handle_pong_response_0() {
    let mut server = Server::new();

    let (client_1, _rx_1) = create_random_client([1, 2, 3, 4], 12345);
    let client_pk_1 = client_1.pk();
    server.insert(client_1);

    // emulate send PongResponse from client_1
    let handle_res = server.handle_packet(
        &client_pk_1,
        Packet::PongResponse(PongResponse { ping_id: 0 }),
        start(),
    );
    assert!(handle_res.is_err());
}

#[test]
fn handle_oob_send_empty_data() {
    let mut server = Server::new();

    let (client_1, _rx_1) = create_random_client([1, 2, 3, 4], 12345);
    let client_pk_1 = client_1.pk();
    server.insert(client_1);

    let (client_2, _rx_2) = create_random_client([1, 2, 3, 5], 12345);
    let client_pk_2 = client_2.pk();
    server.insert(client_2);

    // emulate send OobSend from client_1
    let handle_res = server.handle_packet(
        &client_pk_1,
        Packet::OobSend(OobSend { destination_pk: client_pk_2, data: vec![] }),
        start(),
    );
    assert!(handle_res.is_err());
}

#[test]
fn handle_data_self_not_linked() {
    let mut server = Server::new();

    let (client_1, rx_1) = create_random_client([1, 2, 3, 4], 12345);
    let client_pk_1 = client_1.pk();
    server.insert(client_1);

    // emulate send Data from client_1
    let handle_res = server.handle_packet(
        &client_pk_1,
        Packet::Data(Data { connection_id: 16, data: vec![13, 42] }),
        start(),
    );
    assert!(handle_res.is_ok());

    // Necessary to drop tx so that rx.collect() can be finished
    drop(server);

    assert!(rx_1.collect().wait().unwrap().is_empty());
}

#[test]
fn handle_oob_send_to_loooong_data() {
    let mut server = Server::new();

    let (client_1, _rx_1) = create_random_client([1, 2, 3, 4], 12345);
    let client_pk_1 = client_1.pk();
    server.insert(client_1);

    let (client_2, _rx_2) = create_random_client([1, 2, 3, 5], 12345);
    let client_pk_2 = client_2.pk();
    server.insert(client_2);

    // emulate send OobSend from client_1
    let handle_res = server.handle_packet(
        &client_pk_1,
        Packet::OobSend(OobSend { destination_pk: client_pk_2, data: vec![42; 1024 + 1] }),
        start(),
    );
    assert!(handle_res.is_err());
}

#[test]
fn handle_oob_recv() {
    let mut server = Server::new();

    let (client_1, _rx_1) = create_random_client([1, 2, 3, 4], 12345);
    let client_pk_1 = client_1.pk();
    server.insert(client_1);

    let (client_2, _rx_2) = create_random_client([1, 2, 3, 5], 12345);
    let client_pk_2 = client_2.pk();
    server.insert(client_2);

    // emulate send OobReceive from client_1
    let handle_res = server.handle_packet(
        &client_pk_1,
        Packet::OobReceive(OobReceive { sender_pk: client_pk_2, data: vec![42; 1024] }),
        start(),
    );
    assert!(handle_res.is_err());
}

#[test]
fn handle_onion_request_disabled_onion_loooong_data() {
    let mut server = Server::new();

    let (client_1, _rx_1) = create_random_client([1, 2, 3, 4], 12345);
    let client_pk_1 = client_1.pk();
    server.insert(client_1);

    let request = onion_request(1500);
    let handle_res = server.handle_packet(&client_pk_1, Packet::OnionRequest(request), start());
    assert!(handle_res.is_ok());
}

#[test]
fn handle_onion_response() {
    let mut server = Server::new();

    let (client_1, _rx_1) = create_random_client([1, 2, 3, 4], 12345);
    let client_pk_1 = client_1.pk();
    server.insert(client_1);

    let payload = onion_response();
    let handle_res = server.handle_packet(
        &client_pk_1,
        Packet::OnionResponse(OnionResponse { payload }),
        start(),
    );
    assert!(handle_res.is_err());
}

#[test]
fn handle_udp_onion_response_for_unknown_client() {
    let (udp_onion_sink, _) = mpsc::unbounded();
    let mut server = Server::new();
    server.set_udp_onion_sink(udp_onion_sink);

    let client_addr_1 = IpAddr::V4([1, 2, 3, 4]);
    let client_port_1 = 12345u16;
    let client_pk_1 = gen_pk();
    let (tx_1, _rx_1) = mpsc::unbounded();
    let client_1 = Client::new(tx_1, &client_pk_1, client_addr_1, client_port_1, start());
    server.insert(client_1);

    let client_addr_2 = IpAddr::V4([5, 6, 7, 8]);
    let client_port_2 = 54321u16;

    let payload = onion_response();
    let handle_res = server.handle_udp_onion_response(client_addr_2, client_port_2, payload);
    assert!(handle_res.is_err());
}

////////////////////////////////////////////////////////////////////////////////////////
// Here be all handle_* tests from PK or to PK not in connected clients list
#[test]
fn handle_route_request_not_connected() {
    let mut server = Server::new();
    let client_pk_1 = gen_pk();
    let client_pk_2 = gen_pk();

    // emulate send RouteRequest from client_pk_1
    let handle_res = server.handle_packet(
        &client_pk_1,
        Packet::RouteRequest(RouteRequest { pk: client_pk_2 }),
        start(),
    );
    assert!(handle_res.is_err());
}

#[test]
fn handle_disconnect_notification_not_connected() {
    let mut server = Server::new();
    let client_pk_1 = gen_pk();

    // emulate send DisconnectNotification from client_1
    let handle_res = server.handle_packet(
        &client_pk_1,
        Packet::DisconnectNotification(DisconnectNotification { connection_id: 42 }),
        start(),
    );
    assert!(handle_res.is_err());
}

#[test]
fn handle_disconnect_notification_other_not_connected() {
    let mut server = Server::new();

    let (client_1, _rx_1) = create_random_client([1, 2, 3, 4], 12345);
    let client_pk_1 = client_1.pk();
    server.insert(client_1);

    let client_pk_2 = gen_pk();

    // emulate send RouteRequest from client_1
    server
        .handle_packet(
            &client_pk_1,
            Packet::RouteRequest(RouteRequest { pk: client_pk_2 }),
            start(),
        )
        .unwrap();

    // emulate send DisconnectNotification from client_1
    let handle_res = server.handle_packet(
        &client_pk_1,
        Packet::DisconnectNotification(DisconnectNotification { connection_id: 16 }),
        start(),
    );
    assert!(handle_res.is_ok());
}

#[test]
fn handle_ping_request_not_connected() {
    let mut server = Server::new();
    let client_pk_1 = gen_pk();

    // emulate send PingRequest from client_1
    let handle_res = server.handle_packet(
        &client_pk_1,
        Packet::PingRequest(PingRequest { ping_id: 42 }),
        start(),
    );
    assert!(handle_res.is_err());
}

#[test]
fn handle_pong_response_not_connected() {
    let mut server = Server::new();
    let client_pk_1 = gen_pk();

    // emulate send PongResponse from client_1
    let handle_res = server.handle_packet(
        &client_pk_1,
        Packet::PongResponse(PongResponse { ping_id: 42 }),
        start(),
    );
    assert!(handle_res.is_err());
}

#[test]
fn handle_oob_send_not_connected() {
    let mut server = Server::new();
    let client_pk_1 = gen_pk();
    let client_pk_2 = gen_pk();

    // emulate send OobSend from client_1
    let handle_res = server.handle_packet(
        &client_pk_1,
        Packet::OobSend(OobSend { destination_pk: client_pk_2, data: vec![42; 1024] }),
        start(),
    );
    assert!(handle_res.is_ok());
}

#[test]
fn handle_data_not_connected() {
    let mut server = Server::new();
    let client_pk_1 = gen_pk();

    // emulate send Data from client_1
    let handle_res = server.handle_packet(
        &client_pk_1,
        Packet::Data(Data { connection_id: 16, data: vec![13, 42] }),
        start(),
    );
    assert!(handle_res.is_err());
}

#[test]
fn handle_data_other_not_connected() {
    let mut server = Server::new();

    let (client_1, rx_1) = create_random_client([1, 2, 3, 4], 12345);
    let client_pk_1 = client_1.pk();
    server.insert(client_1);

    let client_pk_2 = gen_pk();

    // emulate send RouteRequest from client_1
    server
        .handle_packet(
            &client_pk_1,
            Packet::RouteRequest(RouteRequest { pk: client_pk_2 }),
            start(),
        )
        .unwrap();

    // the server should put RouteResponse into rx_1
    let (packet, _rx_1) = rx_1.into_future().wait().unwrap();
    assert_eq!(
        packet.unwrap(),
        Packet::RouteResponse(RouteResponse { pk: client_pk_2, connection_id: 16 })
    );

    // emulate send Data from client_1
    let handle_res = server.handle_packet(
        &client_pk_1,
        Packet::Data(Data { connection_id: 16, data: vec![13, 42] }),
        start(),
    );
    assert!(handle_res.is_ok());
}

#[test]
fn shutdown_not_connected() {
    let mut server = Server::new();
    let client_pk = gen_pk();

    // emulate shutdown
    let handle_res = server.shutdown_client(&client_pk);
    assert!(handle_res.is_err());
}

#[test]
fn shutdown_other_not_connected() {
    let mut server = Server::new();

    let (client_1, rx_1) = create_random_client([1, 2, 3, 4], 12345);
    let client_pk_1 = client_1.pk();
    server.insert(client_1);

    let client_pk_2 = gen_pk();

    // emulate send RouteRequest from client_1
    server
        .handle_packet(
            &client_pk_1,
            Packet::RouteRequest(RouteRequest { pk: client_pk_2 }),
            start(),
        )
        .unwrap();

    // the server should put RouteResponse into rx_1
    let (packet, _rx_1) = rx_1.into_future().wait().unwrap();
    assert_eq!(
        packet.unwrap(),
        Packet::RouteResponse(RouteResponse { pk: client_pk_2, connection_id: 16 })
    );

    // emulate shutdown
    let handle_res = server.shutdown_client(&client_pk_1);
    assert!(handle_res.is_ok());
}

#[test]
fn send_anything_to_dropped_client() {
    let mut server = Server::new();

    let (client_1, rx_1) = create_random_client([1, 2, 3, 4], 12345);
    let client_pk_1 = client_1.pk();
    server.insert(client_1);

    let (client_2, _rx_2) = create_random_client([1, 2, 3, 5], 12345);
    let client_pk_2 = client_2.pk();
    server.insert(client_2);

    drop(rx_1);

    // emulate send RouteRequest from client_1
    let handle_res = server.handle_packet(
        &client_pk_1,
        Packet::RouteRequest(RouteRequest { pk: client_pk_2 }),
        start(),
    );
    assert!(handle_res.is_err())
}

#[test]
fn send_onion_request_to_dropped_stream() {
    let (udp_onion_sink, udp_onion_stream) = mpsc::unbounded();
    let mut server = Server::new();
    server.set_udp_onion_sink(udp_onion_sink);

    let (client_1, _rx_1) = create_random_client([1, 2, 3, 4], 12345);
    let client_pk_1 = client_1.pk();
    server.insert(client_1);

    drop(udp_onion_stream);

    // emulate send OnionRequest from client_1
    let request = onion_request(170);
    let handle_res = server.handle_packet(&client_pk_1, Packet::OnionRequest(request), start());
    assert!(handle_res.is_err());
}

#[test]
fn tcp_send_pings_test() {
    let mut server = Server::new();

    // client #1
    let (client_1, rx_1) = create_random_client([1, 2, 3, 4], 12345);
    let pk_1 = client_1.pk();
    server.insert(client_1);

    // client #2
    let (client_2, rx_2) = create_random_client([1, 2, 3, 5], 12345);
    let pk_2 = client_2.pk();
    server.insert(client_2);

    // client #3
    let (client_3, rx_3) = create_random_client([1, 2, 3, 6], 12345);
    let pk_3 = client_3.pk();
    server.insert(client_3);

    let now = start();

    // time when all entries is needed to send PingRequest
    let clock_1 = now.plus_secs(TCP_PING_FREQUENCY + 1);

    let sender_res = server.send_pings(clock_1);
    assert!(sender_res.is_ok());

    let (packet, _rx_1) = rx_1.into_future().wait().unwrap();
    assert_eq!(
        packet.unwrap(),
        Packet::PingRequest(PingRequest { ping_id: server.client(&pk_1).unwrap().ping_id() })
    );
    let (packet, _rx_2) = rx_2.into_future().wait().unwrap();
    assert_eq!(
        packet.unwrap(),
        Packet::PingRequest(PingRequest { ping_id: server.client(&pk_2).unwrap().ping_id() })
    );
    let (packet, _rx_3) = rx_3.into_future().wait().unwrap();
    assert_eq!(
        packet.unwrap(),
        Packet::PingRequest(PingRequest { ping_id: server.client(&pk_3).unwrap().ping_id() })
    );
}

#[test]
fn tcp_send_remove_timedouts() {
    let mut server = Server::new();

    // client #1
    let (client_1, _rx_1) = create_random_client([1, 2, 3, 4], 12345);
    let pk_1 = client_1.pk();
    server.insert(client_1);

    // client #2
    let (client_2, _rx_2) = create_random_client([1, 2, 3, 5], 12345);
    let pk_2 = client_2.pk();
    server.insert(client_2);

    // client #3
    let (mut client_3, _rx_3) = create_random_client([1, 2, 3, 6], 12345);
    let pk_3 = client_3.pk();

    let now = start();

    // time when all entries is timedout and should be removed
    let clock_1 = now.plus_secs(TCP_PING_FREQUENCY + TCP_PING_TIMEOUT + 1);

    client_3.set_last_pong_resp(clock_1);
    server.insert(client_3);
    let sender_res = server.send_pings(clock_1);
    assert!(sender_res.is_ok());

    assert!(server.client(&pk_1).is_none());
    assert!(server.client(&pk_2).is_none());
    assert!(server.client(&pk_3).is_some());
}

// ---------------------------------------------------------------------
// What is refused, and why

#[test]
fn errors_tell_why_a_packet_is_refused() {
    let mut server = Server::new();
    let (client_1, rx_1) = create_random_client([1, 2, 3, 4], 12345);
    let pk_1 = client_1.pk();
    server.insert(client_1);
    let stranger = gen_pk();

    assert_eq!(
        server.handle_packet(&pk_1, Packet::PingRequest(PingRequest { ping_id: 0 }), start()),
        Err(Error::ProtocolViolation)
    );
    assert_eq!(
        server.handle_packet(&stranger, Packet::PingRequest(PingRequest { ping_id: 7 }), start()),
        Err(Error::UnknownSender)
    );
    assert_eq!(server.shutdown_client(&stranger), Err(Error::UnknownTarget));
    assert_eq!(
        server.handle_udp_onion_response(IpAddr::V4([9, 9, 9, 9]), 1, onion_response()),
        Err(Error::UnknownTarget)
    );
    drop(rx_1);
    assert_eq!(
        server.handle_packet(&pk_1, Packet::PingRequest(PingRequest { ping_id: 7 }), start()),
        Err(Error::SinkClosed)
    );
}

#[test]
fn a_pong_with_the_id_of_the_ping_is_taken_and_another_is_refused() {
    let mut server = Server::new();
    let (client_1, _rx_1) = create_random_client([1, 2, 3, 4], 12345);
    let pk_1 = client_1.pk();
    server.insert(client_1);

    let pinged_at = start().plus_secs(TCP_PING_FREQUENCY);
    server.send_pings(pinged_at).unwrap();
    let ping_id = server.client(&pk_1).unwrap().ping_id();
    assert_ne!(ping_id, 0);

    // a pong with another id is stale or forged
    let wrong = server.handle_packet(
        &pk_1,
        Packet::PongResponse(PongResponse { ping_id: ping_id ^ 1 | 2 }),
        pinged_at,
    );
    assert_eq!(wrong, Err(Error::ProtocolViolation));

    // the refused pong did not count: the client is overdue 41 s after it connected
    let answered_at = start().plus_secs(TCP_PING_FREQUENCY + 5);
    let right = server.handle_packet(
        &pk_1,
        Packet::PongResponse(PongResponse { ping_id }),
        answered_at,
    );
    assert_eq!(right, Ok(()));

    // the pong that was taken keeps the client for 40 s more, and no longer
    server.send_pings(answered_at.plus_secs(TCP_PING_FREQUENCY + TCP_PING_TIMEOUT)).unwrap();
    assert!(server.client(&pk_1).is_some());
    let mut late = answered_at.plus_secs(TCP_PING_FREQUENCY + TCP_PING_TIMEOUT);
    late.0 += 1;
    server.send_pings(late).unwrap();
    assert!(server.client(&pk_1).is_none());
}

#[test]
fn a_ping_is_due_after_thirty_seconds_and_not_before() {
    let mut server = Server::new();
    let (client_1, rx_1) = create_random_client([1, 2, 3, 4], 12345);
    server.insert(client_1);

    let mut early = start().plus_secs(TCP_PING_FREQUENCY);
    early.0 -= 1;
    server.send_pings(early).unwrap();
    server.send_pings(start().plus_secs(TCP_PING_FREQUENCY)).unwrap();
    drop(server);
    let packets = rx_1.collect().wait().unwrap();
    assert_eq!(packets.len(), 1);
    assert!(matches!(packets[0], Packet::PingRequest(_)));
}

#[test]
fn reinserting_at_an_address_gives_the_address_to_the_new_client() {
    let mut server = Server::new();
    let (client_1, rx_1) = create_random_client([1, 2, 3, 4], 12345);
    let pk_1 = client_1.pk();
    server.insert(client_1);
    let (client_2, rx_2) = create_random_client([1, 2, 3, 4], 12345);
    let pk_2 = client_2.pk();
    server.insert(client_2);

    // the previous owner of the address is connected no more
    assert!(server.client(&pk_1).is_none());
    assert!(server.client(&pk_2).is_some());
    assert_eq!(
        server.handle_packet(&pk_1, Packet::PingRequest(PingRequest { ping_id: 1 }), start()),
        Err(Error::UnknownSender)
    );
    assert_eq!(server.shutdown_client(&pk_1), Err(Error::UnknownTarget));

    let payload = onion_response();
    server.handle_udp_onion_response(IpAddr::V4([1, 2, 3, 4]), 12345, payload.clone()).unwrap();
    drop(server);
    // it left without a word
    assert!(rx_1.collect().wait().unwrap().is_empty());
    assert_eq!(
        rx_2.collect().wait().unwrap(),
        vec![Packet::OnionResponse(OnionResponse { payload })]
    );
}

#[test]
fn a_key_that_connects_from_a_new_address_gives_up_the_old_one() {
    let mut server = Server::new();
    let pk = gen_pk();
    let (tx_old, rx_old) = mpsc::unbounded();
    server.insert(Client::new(tx_old, &pk, IpAddr::V4([1, 2, 3, 4]), 1, start()));
    let (other, _rx_other) = create_random_client([1, 2, 3, 4], 2);
    let other_pk = other.pk();
    server.insert(other);
    server
        .handle_packet(&pk, Packet::RouteRequest(RouteRequest { pk: other_pk }), start())
        .unwrap();

    let (tx_new, rx_new) = mpsc::unbounded();
    server.insert(Client::new(tx_new, &pk, IpAddr::V4([5, 6, 7, 8]), 9, start()));

    // the client stands in place of the one with its key, as it came
    assert_eq!(server.client(&pk).unwrap().port(), 9);
    assert!(server.client(&pk).unwrap().get_connection_id(&other_pk).is_none());
    // the other client is as it was
    assert_eq!(server.client(&other_pk).unwrap().port(), 2);

    // the old address is held no more, the new one is
    assert_eq!(
        server.handle_udp_onion_response(IpAddr::V4([1, 2, 3, 4]), 1, onion_response()),
        Err(Error::UnknownTarget)
    );
    let payload = onion_response();
    server.handle_udp_onion_response(IpAddr::V4([5, 6, 7, 8]), 9, payload.clone()).unwrap();
    // the old address is free for another key
    let (third, rx_third) = create_random_client([1, 2, 3, 4], 1);
    let third_pk = third.pk();
    server.insert(third);
    assert!(server.client(&pk).is_some());
    assert!(server.client(&third_pk).is_some());
    let second = onion_response();
    server.handle_udp_onion_response(IpAddr::V4([1, 2, 3, 4]), 1, second.clone()).unwrap();

    drop(server);
    assert_eq!(
        rx_old.collect().wait().unwrap(),
        vec![Packet::RouteResponse(RouteResponse { pk: other_pk, connection_id: 16 })]
    );
    assert_eq!(
        rx_new.collect().wait().unwrap(),
        vec![Packet::OnionResponse(OnionResponse { payload })]
    );
    assert_eq!(
        rx_third.collect().wait().unwrap(),
        vec![Packet::OnionResponse(OnionResponse { payload: second })]
    );
}

#[test]
fn the_address_of_a_client_stays_its_own_when_another_leaves() {
    let mut server = Server::new();
    let (client_1, _rx_1) = create_random_client([1, 2, 3, 4], 12345);
    let pk_1 = client_1.pk();
    server.insert(client_1);
    let (client_2, rx_2) = create_random_client([1, 2, 3, 4], 12345);
    let pk_2 = client_2.pk();
    server.insert(client_2);
    let (client_3, _rx_3) = create_random_client([1, 2, 3, 4], 12346);
    let pk_3 = client_3.pk();
    server.insert(client_3);

    // the first client left when the second came; there is nothing to shut down
    assert!(server.shutdown_client(&pk_1).is_err());
    server.shutdown_client(&pk_3).unwrap();
    assert!(server.client(&pk_2).is_some());

    let payload = onion_response();
    server.handle_udp_onion_response(IpAddr::V4([1, 2, 3, 4]), 12345, payload.clone()).unwrap();
    assert_eq!(
        server.handle_udp_onion_response(IpAddr::V4([1, 2, 3, 4]), 12346, onion_response()),
        Err(Error::UnknownTarget)
    );
    drop(server);
    assert_eq!(
        rx_2.collect().wait().unwrap(),
        vec![Packet::OnionResponse(OnionResponse { payload })]
    );
}

#[test]
fn data_goes_under_the_wire_id_of_the_receiver() {
    let mut server = Server::new();
    let (client_1, _rx_1) = create_random_client([1, 2, 3, 4], 1);
    let pk_1 = client_1.pk();
    server.insert(client_1);
    let (client_2, rx_2) = create_random_client([1, 2, 3, 4], 2);
    let pk_2 = client_2.pk();
    server.insert(client_2);
    let (client_3, _rx_3) = create_random_client([1, 2, 3, 4], 3);
    let pk_3 = client_3.pk();
    server.insert(client_3);

    // client_2 links client_3 first, so client_1 gets its second slot
    let route = |pk: PublicKey| Packet::RouteRequest(RouteRequest { pk });
    server.handle_packet(&pk_2, route(pk_3), start()).unwrap();
    server.handle_packet(&pk_2, route(pk_1), start()).unwrap();
    server.handle_packet(&pk_1, route(pk_2), start()).unwrap();

    server
        .handle_packet(&pk_1, Packet::Data(Data { connection_id: 16, data: vec![1] }), start())
        .unwrap();
    // a wire id under 16 names no link
    server
        .handle_packet(&pk_1, Packet::Data(Data { connection_id: 15, data: vec![2] }), start())
        .unwrap();
    drop(server);
    assert_eq!(
        rx_2.collect().wait().unwrap(),
        vec![
            Packet::RouteResponse(RouteResponse { pk: pk_3, connection_id: 16 }),
            Packet::RouteResponse(RouteResponse { pk: pk_1, connection_id: 17 }),
            Packet::ConnectNotification(ConnectNotification { connection_id: 17 }),
            Packet::Data(Data { connection_id: 17, data: vec![1] }),
        ]
    );
}
