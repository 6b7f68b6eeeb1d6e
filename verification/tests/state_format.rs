use tox::toxcore::addr::{IpAddr, SocketAddr};
use tox::toxcore::binary_io::{
    EncodeError, ErrorKind, FromBytes, Item, Needed, ParseError, ToBytes,
};
use tox::toxcore::crypto_core::{PublicKey, SecretKey};
use tox::toxcore::dht::packed_node::PackedNode;
use tox::toxcore::onion::ProtocolType;
use tox::toxcore::state_format::{
    DhtState, Eof, FriendState, FriendStatus, Friends, Name, NospamKeys, OldIpPort, PathNodes,
    Section, State, StatusMsg, TcpRelays, TcpUdpPackedNode, UserStatus, UserWorkingStatus,
    FRIENDSTATEBYTES, NOSPAMKEYSBYTES,
};
use tox::toxcore::toxid::NoSpam;

fn gen_pk() -> PublicKey {
    PublicKey(rand::random::<[u8; 32]>())
}

fn encoded<T: ToBytes>(value: &T) -> Vec<u8> {
    let mut buf = Vec::new();
    value.to_bytes(&mut buf).unwrap();
    buf
}

fn nospam_keys() -> NospamKeys {
    NospamKeys {
        nospam: NoSpam(rand::random::<[u8; 4]>()),
        pk: gen_pk(),
        sk: SecretKey(rand::random::<[u8; 32]>()),
    }
}

fn dht_state() -> DhtState {
    DhtState(vec![
        PackedNode { pk: gen_pk(), saddr: SocketAddr { ip: IpAddr::V4([1, 2, 3, 4]), port: 1234 } },
        PackedNode { pk: gen_pk(), saddr: SocketAddr { ip: IpAddr::V4([1, 2, 3, 5]), port: 1235 } },
    ])
}

fn friends() -> Friends {
    Friends(vec![
        FriendState {
            friend_status: FriendStatus::Added,
            pk: gen_pk(),
            fr_msg: b"test msg".to_vec(),
            name: Name(b"test name".to_vec()),
            status_msg: StatusMsg(b"test status msg".to_vec()),
            user_status: UserWorkingStatus::Online,
            nospam: NoSpam([7; 4]),
            last_seen: 1234,
        },
        FriendState {
            friend_status: FriendStatus::Added,
            pk: gen_pk(),
            fr_msg: b"test msg2".to_vec(),
            name: Name(b"test name2".to_vec()),
            status_msg: StatusMsg(b"test status msg2".to_vec()),
            user_status: UserWorkingStatus::Online,
            nospam: NoSpam([8; 4]),
            last_seen: 1235,
        },
    ])
}

fn nodes() -> Vec<TcpUdpPackedNode> {
    vec![
        TcpUdpPackedNode {
            pk: gen_pk(),
            ip_port: OldIpPort {
                protocol: ProtocolType::TCP,
                ip_addr: IpAddr::V4([1, 2, 3, 4]),
                port: 1234,
            },
        },
        TcpUdpPackedNode {
            pk: gen_pk(),
            ip_port: OldIpPort {
                protocol: ProtocolType::UDP,
                ip_addr: IpAddr::V4([1, 2, 3, 5]),
                port: 12345,
            },
        },
    ]
}

#[test]
fn no_spam_keys_encode_decode() {
    let value = nospam_keys();
    let buf = encoded(&value);
    let (decoded, used) = NospamKeys::from_bytes(&buf).unwrap();
    assert_eq!(used, buf.len());
    assert_eq!(decoded, value);
}

#[test]
fn dht_state_encode_decode() {
    let value = dht_state();
    let buf = encoded(&value);
    let (decoded, used) = DhtState::from_bytes(&buf).unwrap();
    assert_eq!(used, buf.len());
    assert_eq!(decoded, value);
}

#[test]
fn friends_encode_decode() {
    let value = friends();
    let buf = encoded(&value);
    let (decoded, used) = Friends::from_bytes(&buf).unwrap();
    assert_eq!(used, buf.len());
    assert_eq!(decoded, value);
}

#[test]
fn name_encode_decode() {
    let value = Name(vec![0, 1, 2, 3, 4]);
    let buf = encoded(&value);
    let (decoded, used) = Name::from_bytes(&buf).unwrap();
    assert_eq!(used, buf.len());
    assert_eq!(decoded, value);
}

#[test]
fn status_msg_encode_decode() {
    let value = StatusMsg(vec![0, 1, 2, 3, 4, 5]);
    let buf = encoded(&value);
    let (decoded, used) = StatusMsg::from_bytes(&buf).unwrap();
    assert_eq!(used, buf.len());
    assert_eq!(decoded, value);
}

#[test]
fn eof_encode_decode() {
    let value = Eof;
    let buf = encoded(&value);
    let (decoded, used) = Eof::from_bytes(&buf).unwrap();
    assert_eq!(used, buf.len());
    assert_eq!(decoded, value);
}

#[test]
fn user_status_encode_decode() {
    let value = UserStatus(UserWorkingStatus::Online);
    let buf = encoded(&value);
    let (decoded, used) = UserStatus::from_bytes(&buf).unwrap();
    assert_eq!(used, buf.len());
    assert_eq!(decoded, value);
}

#[test]
fn tcp_relays_encode_decode() {
    let value = TcpRelays(nodes());
    let buf = encoded(&value);
    let (decoded, used) = TcpRelays::from_bytes(&buf).unwrap();
    assert_eq!(used, buf.len());
    assert_eq!(decoded, value);
}

#[test]
fn path_nodes_encode_decode() {
    let value = PathNodes(nodes());
    let buf = encoded(&value);
    let (decoded, used) = PathNodes::from_bytes(&buf).unwrap();
    assert_eq!(used, buf.len());
    assert_eq!(decoded, value);
}

#[test]
fn state_encode_decode() {
    let value = State {
        sections: vec![
            Section::NospamKeys(nospam_keys()),
            Section::DhtState(dht_state()),
            Section::Friends(friends()),
            Section::Name(Name(vec![0, 1, 2, 3, 4])),
            Section::StatusMsg(StatusMsg(vec![0, 1, 2, 3, 4, 5])),
            Section::UserStatus(UserStatus(UserWorkingStatus::Online)),
            Section::TcpRelays(TcpRelays(nodes())),
            Section::PathNodes(PathNodes(nodes())),
            Section::Eof(Eof),
        ],
    };
    let buf = encoded(&value);
    let (decoded, used) = State::from_bytes(&buf).unwrap();
    assert_eq!(used, buf.len());
    assert_eq!(decoded, value);
}

#[test]
fn every_section_is_read_back_in_its_frame() {
    let sections = vec![
        Section::NospamKeys(nospam_keys()),
        Section::DhtState(dht_state()),
        Section::Friends(friends()),
        Section::Name(Name(vec![9; 300])),
        Section::StatusMsg(StatusMsg(vec![])),
        Section::UserStatus(UserStatus(UserWorkingStatus::Busy)),
        Section::TcpRelays(TcpRelays(vec![])),
        Section::PathNodes(PathNodes(nodes())),
        Section::Eof(Eof),
    ];
    for section in sections {
        let mut buf = encoded(&section);
        let len = buf.len();
        // what follows a section in its frame is left unread
        buf.extend_from_slice(&[1, 2, 3]);
        let (decoded, used) = Section::read_item(&buf).unwrap();
        assert_eq!(used, len);
        assert_eq!(decoded, section);
        // without the length the section is read from its type on
        let (decoded, used) = Section::from_bytes(&buf[4..len]).unwrap();
        assert_eq!(used, len - 4);
        assert_eq!(decoded, section);
    }
}

// ---------------------------------------------------------------------
// The layout, byte for byte

#[test]
fn a_state_file_starts_with_zeros_and_magic() {
    let state = State { sections: vec![Section::Eof(Eof)] };
    assert_eq!(
        encoded(&state),
        vec![0, 0, 0, 0, 0x1f, 0x1b, 0xed, 0x15, 0, 0, 0, 0, 0xff, 0x00, 0xce, 0x01]
    );
    let empty = State { sections: vec![] };
    assert_eq!(encoded(&empty), vec![0, 0, 0, 0, 0x1f, 0x1b, 0xed, 0x15]);
    // a plain end of input is accepted as well as an Eof section
    assert_eq!(State::from_bytes(&encoded(&empty)), Ok((empty, 8)));
}

#[test]
fn the_length_of_a_section_counts_the_payload_only() {
    let name = Section::Name(Name(vec![b'x'; 258]));
    let buf = encoded(&name);
    assert_eq!(&buf[..8], &[2, 1, 0, 0, 0x04, 0x00, 0xce, 0x01]);
    assert_eq!(buf.len(), 8 + 258);

    let keys = Section::NospamKeys(nospam_keys());
    let buf = encoded(&keys);
    assert_eq!(NOSPAMKEYSBYTES, 68);
    assert_eq!(&buf[..8], &[68, 0, 0, 0, 0x01, 0x00, 0xce, 0x01]);
    assert_eq!(buf.len(), 8 + 68);

    let status = Section::UserStatus(UserStatus(UserWorkingStatus::Away));
    assert_eq!(encoded(&status), vec![1, 0, 0, 0, 0x06, 0x00, 0xce, 0x01, 1]);

    let msg = Section::StatusMsg(StatusMsg(vec![7, 8]));
    assert_eq!(encoded(&msg), vec![2, 0, 0, 0, 0x05, 0x00, 0xce, 0x01, 7, 8]);
}

#[test]
fn the_dht_section_holds_its_magic_numbers_and_the_size_of_its_nodes() {
    let pk = PublicKey([0xab; 32]);
    let node =
        PackedNode { pk, saddr: SocketAddr { ip: IpAddr::V4([1, 2, 3, 4]), port: 0x1234 } };
    let buf = encoded(&Section::DhtState(DhtState(vec![node])));
    let mut expected = vec![
        12 + 39, 0, 0, 0, // length of the payload
        0x02, 0x00, 0xce, 0x01, // type and section magic
        0x0d, 0x00, 0x59, 0x01, // DHT magic
        39, 0, 0, 0, // bytes of the nodes
        0x04, 0x00, // DHT section type
        0xce, 0x11, // second DHT magic
        2, 1, 2, 3, 4, 0x12, 0x34, // UDP over IPv4, address, port
    ];
    expected.extend_from_slice(&[0xab; 32]);
    assert_eq!(buf, expected);
}

#[test]
fn an_ip_port_starts_with_its_selector_and_ends_with_its_port() {
    let v6 = [0x20, 0x01, 0x0d, 0xb8, 0, 0, 0, 0, 0, 0, 0, 0, 0, 0, 0, 1];
    let cases: Vec<(ProtocolType, IpAddr, u8)> = vec![
        (ProtocolType::UDP, IpAddr::V4([10, 0, 0, 1]), 2),
        (ProtocolType::UDP, IpAddr::V6(v6), 10),
        (ProtocolType::TCP, IpAddr::V4([10, 0, 0, 1]), 130),
        (ProtocolType::TCP, IpAddr::V6(v6), 138),
    ];
    for (protocol, ip_addr, selector) in cases {
        let ip_port = OldIpPort { protocol, ip_addr, port: 0xabcd };
        assert_eq!(ip_port.ip_type(), selector);
        let buf = encoded(&ip_port);
        assert_eq!(buf[0], selector);
        match ip_addr {
            IpAddr::V4(a) => assert_eq!(&buf[1..5], &a),
            IpAddr::V6(a) => assert_eq!(&buf[1..17], &a),
        }
        assert_eq!(&buf[buf.len() - 2..], &[0xab, 0xcd]);
        assert_eq!(OldIpPort::from_bytes(&buf), Ok((ip_port, buf.len())));
    }
}

#[test]
fn a_friend_record_has_its_fields_at_their_offsets() {
    let friend = FriendState {
        friend_status: FriendStatus::Confirmed,
        pk: PublicKey([0x11; 32]),
        fr_msg: vec![b'a'; 258],
        name: Name(vec![b'n'; 3]),
        status_msg: StatusMsg(vec![b's'; 1007]),
        user_status: UserWorkingStatus::Busy,
        nospam: NoSpam([1, 2, 3, 4]),
        last_seen: 0x0102_0304_0506_0708,
    };
    let buf = encoded(&friend);
    assert_eq!(FRIENDSTATEBYTES, 2216);
    assert_eq!(buf.len(), 2216);
    assert_eq!(buf[0], 3);
    assert_eq!(&buf[1..33], &[0x11; 32]);
    assert_eq!(&buf[33..33 + 258], &[b'a'; 258][..]);
    assert!(buf[33 + 258..1058].iter().all(|b| *b == 0));
    // lengths are written high byte first
    assert_eq!(&buf[1058..1060], &[1, 2]);
    assert_eq!(&buf[1060..1063], b"nnn");
    assert!(buf[1063..1188].iter().all(|b| *b == 0));
    assert_eq!(&buf[1188..1190], &[0, 3]);
    assert_eq!(&buf[1190..2197], &[b's'; 1007][..]);
    assert_eq!(buf[2197], 0);
    assert_eq!(&buf[2198..2200], &[0x03, 0xef]);
    assert_eq!(buf[2200], 2);
    assert_eq!(&buf[2201..2204], &[0, 0, 0]);
    assert_eq!(&buf[2204..2208], &[1, 2, 3, 4]);
    // the time is written low byte first
    assert_eq!(&buf[2208..2216], &[8, 7, 6, 5, 4, 3, 2, 1]);
    assert_eq!(FriendState::from_bytes(&buf), Ok((friend, 2216)));
}

// ---------------------------------------------------------------------
// What is refused, and why

#[test]
fn a_file_with_another_prefix_is_rejected() {
    let mut buf = encoded(&State { sections: vec![Section::Eof(Eof)] });
    buf[6] = 0xee;
    assert_eq!(State::from_bytes(&buf), Err(ParseError::Error(ErrorKind::Tag)));
    let mut buf = encoded(&State { sections: vec![Section::Eof(Eof)] });
    buf[0] = 1;
    assert_eq!(State::from_bytes(&buf), Err(ParseError::Error(ErrorKind::Tag)));
    assert_eq!(
        State::from_bytes(&[0, 0, 0]),
        Err(ParseError::Incomplete(Needed::Size(4)))
    );
    assert_eq!(
        State::from_bytes(&[0, 0, 0, 0, 0x1f]),
        Err(ParseError::Incomplete(Needed::Size(8)))
    );
}

#[test]
fn a_section_that_is_cut_short_fails_the_file() {
    let state = State {
        sections: vec![Section::Name(Name(vec![1, 2, 3])), Section::Eof(Eof)],
    };
    let buf = encoded(&state);
    // the Eof section starts at 8 + 11 and needs 8 bytes
    assert_eq!(buf.len(), 8 + 11 + 8);
    assert_eq!(
        State::from_bytes(&buf[..buf.len() - 1]),
        Err(ParseError::Incomplete(Needed::Size(27)))
    );
    assert_eq!(
        State::from_bytes(&buf[..8 + 11 + 2]),
        Err(ParseError::Incomplete(Needed::Size(8 + 11 + 4)))
    );
    // a length that says more than there is
    let mut long = buf.clone();
    long[8] = 200;
    assert_eq!(
        State::from_bytes(&long),
        Err(ParseError::Incomplete(Needed::Size(8 + 200 + 8)))
    );
}

#[test]
fn bytes_that_are_no_section_stay_unread() {
    let state = State { sections: vec![Section::Name(Name(vec![1, 2, 3]))] };
    let mut buf = encoded(&state);
    let len = buf.len();
    // a section of a type that there is not
    buf.extend_from_slice(&[0, 0, 0, 0, 0x77, 0x00, 0xce, 0x01]);
    assert_eq!(State::from_bytes(&buf), Ok((state, len)));
    assert_eq!(
        Section::from_bytes(&[0x77, 0x00, 0xce, 0x01]),
        Err(ParseError::Error(ErrorKind::Alt))
    );
}

#[test]
fn a_section_with_a_wrong_magic_or_value_is_rejected() {
    assert_eq!(Eof::from_bytes(&[0xff, 0x00, 0xce, 0x02]), Err(ParseError::Error(ErrorKind::Tag)));
    assert_eq!(Eof::from_bytes(&[0xfe, 0x00]), Err(ParseError::Error(ErrorKind::Tag)));
    assert_eq!(Eof::from_bytes(&[0xff]), Err(ParseError::Incomplete(Needed::Size(2))));
    assert_eq!(
        Eof::from_bytes(&[0xff, 0x00, 0xce]),
        Err(ParseError::Incomplete(Needed::Size(4)))
    );
    assert_eq!(
        UserStatus::from_bytes(&[0x06, 0x00, 0xce, 0x01, 3]),
        Err(ParseError::Error(ErrorKind::Switch))
    );
    assert_eq!(
        UserStatus::from_bytes(&[0x06, 0x00, 0xce, 0x01]),
        Err(ParseError::Incomplete(Needed::Size(5)))
    );
    let mut dht = encoded(&dht_state());
    dht[4] = 0x0e;
    assert_eq!(DhtState::from_bytes(&dht), Err(ParseError::Error(ErrorKind::Verify)));
    let mut dht = encoded(&dht_state());
    dht[12] = 5;
    assert_eq!(DhtState::from_bytes(&dht), Err(ParseError::Error(ErrorKind::Verify)));
    let dht = encoded(&dht_state());
    assert_eq!(
        DhtState::from_bytes(&dht[..dht.len() - 1]),
        Err(ParseError::Incomplete(Needed::Size(dht.len())))
    );
    assert_eq!(
        OldIpPort::from_bytes(&[3, 1, 2, 3, 4, 0, 1]),
        Err(ParseError::Error(ErrorKind::Alt))
    );
    assert_eq!(
        PackedNode::from_bytes(&[130, 1, 2, 3, 4, 0, 1]),
        Err(ParseError::Error(ErrorKind::Switch))
    );
}

#[test]
fn a_friend_record_with_a_length_over_its_field_is_rejected() {
    let friend = friends().0.remove(0);
    let good = encoded(&friend);

    let mut bad = good.clone();
    bad[1058] = 4;
    bad[1059] = 1;
    assert_eq!(FriendState::from_bytes(&bad), Err(ParseError::Error(ErrorKind::Verify)));
    let mut bad = good.clone();
    bad[1189] = 129;
    assert_eq!(FriendState::from_bytes(&bad), Err(ParseError::Error(ErrorKind::Verify)));
    let mut bad = good.clone();
    bad[2198] = 3;
    bad[2199] = 0xf0;
    assert_eq!(FriendState::from_bytes(&bad), Err(ParseError::Error(ErrorKind::Verify)));
    let mut bad = good.clone();
    bad[0] = 5;
    assert_eq!(FriendState::from_bytes(&bad), Err(ParseError::Error(ErrorKind::Switch)));
    let mut bad = good.clone();
    bad[2200] = 3;
    assert_eq!(FriendState::from_bytes(&bad), Err(ParseError::Error(ErrorKind::Switch)));
    assert_eq!(
        FriendState::from_bytes(&good[..2215]),
        Err(ParseError::Incomplete(Needed::Size(2216)))
    );
    // the friends are read record by record: a part of a record fails the section
    let mut section = encoded(&Friends(vec![friend.clone()]));
    section.extend_from_slice(&good[..100]);
    assert_eq!(
        Friends::from_bytes(&section),
        Err(ParseError::Incomplete(Needed::Size(4 + 2216 + 2216)))
    );
}

#[test]
fn a_friend_with_a_field_too_long_has_no_encoding() {
    let mut friend = friends().0.remove(0);
    friend.name = Name(vec![b'n'; 129]);
    let mut buf = vec![1, 2, 3];
    assert_eq!(friend.to_bytes(&mut buf), Err(EncodeError::TooLong));
    assert_eq!(buf, vec![1, 2, 3]);

    let section = Section::Friends(Friends(vec![friends().0.remove(0), friend.clone()]));
    assert_eq!(section.to_bytes(&mut buf), Err(EncodeError::TooLong));
    assert_eq!(buf, vec![1, 2, 3]);

    let state = State { sections: vec![Section::Eof(Eof), section] };
    assert_eq!(state.to_bytes(&mut buf), Err(EncodeError::TooLong));
    assert_eq!(buf, vec![1, 2, 3]);

    friend.name = Name(vec![b'n'; 128]);
    friend.fr_msg = vec![0; 1024];
    friend.status_msg = StatusMsg(vec![0; 1007]);
    assert_eq!(friend.to_bytes(&mut buf), Ok(()));
    assert_eq!(buf.len(), 3 + 2216);
}

#[test]
fn sections_keep_their_order_and_may_come_twice() {
    let first = nospam_keys();
    let second = nospam_keys();
    let state = State {
        sections: vec![
            Section::Eof(Eof),
            Section::NospamKeys(first.clone()),
            Section::Name(Name(vec![1])),
            Section::NospamKeys(second.clone()),
            Section::Name(Name(vec![2])),
        ],
    };
    let buf = encoded(&state);
    let (decoded, used) = State::from_bytes(&buf).unwrap();
    assert_eq!(used, buf.len());
    assert_eq!(decoded.sections.len(), 5);
    assert_eq!(decoded.sections[0], Section::Eof(Eof));
    assert_eq!(decoded.sections[1], Section::NospamKeys(first));
    assert_eq!(decoded.sections[3], Section::NospamKeys(second));
    assert_eq!(decoded, state);
}

#[test]
fn what_a_section_does_not_read_of_its_frame_is_passed_over() {
    // a user status with two bytes more than it reads, and an Eof behind it
    let buf = vec![
        0, 0, 0, 0, 0x1f, 0x1b, 0xed, 0x15, // head of the file
        3, 0, 0, 0, 0x06, 0x00, 0xce, 0x01, 2, 0xaa, 0xbb, // user status
        0, 0, 0, 0, 0xff, 0x00, 0xce, 0x01, // Eof
    ];
    let (decoded, used) = State::from_bytes(&buf).unwrap();
    assert_eq!(used, buf.len());
    assert_eq!(
        decoded.sections,
        vec![Section::UserStatus(UserStatus(UserWorkingStatus::Busy)), Section::Eof(Eof)]
    );
}
