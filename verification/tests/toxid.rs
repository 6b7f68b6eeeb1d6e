use tox::toxcore::crypto_core::{gen_ping_id, nonzero_ping_id, PublicKey, PUBLICKEYBYTES};
use tox::toxcore::toxid::{NoSpam, ToxId, NOSPAMBYTES, TOXIDBYTES};

fn gen_pk() -> PublicKey {
    PublicKey(rand::random::<[u8; 32]>())
}

#[test]
fn two_new_nospams_differ() {
    assert!(NoSpam::new() != NoSpam::new());
}

#[test]
fn a_nospam_is_the_low_bytes_of_its_draw() {
    assert_eq!(NoSpam::from_draw(0x1122_3344_5566_7788), NoSpam([0x88, 0x77, 0x66, 0x55]));
    assert_eq!(NoSpam::from_draw(1), NoSpam([1, 0, 0, 0]));
}

#[test]
fn a_nospam_is_written_in_upper_case_hex() {
    assert_eq!(NoSpam([0, 0, 0, 0]).to_hex(), "00000000");
    assert_eq!(NoSpam([255, 255, 255, 255]).to_hex(), "FFFFFFFF");
    assert_eq!(NoSpam([0x0a, 0xb1, 0x2c, 0x9f]).to_hex(), "0AB12C9F");
}

#[test]
fn a_nospam_is_read_from_four_bytes() {
    assert_eq!(NoSpam::from_bytes(&[1, 2, 3]), None);
    assert_eq!(NoSpam::from_bytes(&[1, 2, 3, 4]), Some(NoSpam([1, 2, 3, 4])));
    assert_eq!(NoSpam::from_bytes(&[1, 2, 3, 4, 5]), Some(NoSpam([1, 2, 3, 4])));
}

#[test]
fn the_checksum_is_the_xor_of_the_pairs() {
    assert_eq!(TOXIDBYTES, 38);
    assert_eq!(
        ToxId::checksum(&PublicKey([0; PUBLICKEYBYTES]), &NoSpam([0; NOSPAMBYTES])),
        [0; 2]
    );
    assert_eq!(
        ToxId::checksum(&PublicKey([0xff; PUBLICKEYBYTES]), &NoSpam([0xff; NOSPAMBYTES])),
        [0; 2]
    );
    let mut key = [0u8; 32];
    key[0] = 0x0f;
    key[1] = 0xf0;
    key[31] = 0x01;
    assert_eq!(ToxId::checksum(&PublicKey(key), &NoSpam([0x10, 0x02, 0x20, 0x04])), [0x3f, 0xf7]);
}

#[test]
fn a_new_nospam_keeps_the_key() {
    let pk = gen_pk();
    let toxid = ToxId::new(pk);
    let mut toxid2 = toxid;
    toxid2.new_nospam(None);

    assert!(toxid != toxid2);
    assert_eq!(toxid.pk, toxid2.pk);

    let mut toxid3 = toxid;

    // with same `NoSpam` IDs are identical
    let nospam = NoSpam::new();
    toxid2.new_nospam(Some(nospam));
    toxid3.new_nospam(Some(nospam));
    assert_eq!(toxid2, toxid3);
    assert_eq!(toxid2, ToxId::with_nospam(pk, nospam));
}

#[test]
fn the_id_of_a_ping_is_never_zero() {
    assert_eq!(nonzero_ping_id(0), 1);
    assert_eq!(nonzero_ping_id(1), 1);
    assert_eq!(nonzero_ping_id(u64::MAX), u64::MAX);
    for _ in 0..100 {
        assert_ne!(gen_ping_id(), 0);
    }
    // the draws are random: a hundred of them are not all the same
    let first = gen_ping_id();
    assert!((0..100).any(|_| gen_ping_id() != first));
}

#[test]
fn a_nospam_gives_its_bytes() {
    let nospam = NoSpam([1, 2, 3, 4]);
    assert_eq!(*nospam, [1, 2, 3, 4]);
    assert_eq!(nospam[3], 4);
}
