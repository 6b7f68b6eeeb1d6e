use tox::toxcore::crypto_core::PublicKey;
use tox::toxcore::tcp::server::links::{Link, LinkStatus, Links, MAX_LINKS_N};

fn pk(n: u16) -> PublicKey {
    let mut bytes = [0u8; 32];
    bytes[0] = (n % 256) as u8;
    bytes[1] = (n / 256) as u8;
    PublicKey(bytes)
}

#[test]
fn the_first_link_gets_the_slot_zero() {
    let mut links = Links::new();
    assert_eq!(links.insert(&pk(7)), Some(0));
    assert_eq!(links.id_by_pk(&pk(7)), Some(0));
    assert_eq!(
        links.by_id(0),
        Some(&Link { pk: pk(7), status: LinkStatus::Registered })
    );
}

#[test]
fn slots_are_given_out_in_order_until_the_table_is_full() {
    let mut links = Links::new();
    assert_eq!(MAX_LINKS_N, 240);
    for n in 0..240u16 {
        assert_eq!(links.insert(&pk(n)), Some(n as u8));
    }
    assert_eq!(links.insert(&pk(240)), None);
    assert_eq!(links.id_by_pk(&pk(240)), None);
    // a link that is there is found, full table or not
    assert_eq!(links.insert(&pk(100)), Some(100));
    for n in 0..240u16 {
        assert_eq!(links.id_by_pk(&pk(n)), Some(n as u8));
        assert_eq!(links.by_id(n as u8).unwrap().pk, pk(n));
    }
}

#[test]
fn insert_is_idempotent() {
    let mut links = Links::new();
    assert_eq!(links.insert(&pk(1)), Some(0));
    assert_eq!(links.insert(&pk(2)), Some(1));
    assert_eq!(links.insert(&pk(1)), Some(0));
    assert_eq!(links.insert(&pk(2)), Some(1));
    assert_eq!(links.iter_links().iter().filter(|slot| slot.is_some()).count(), 2);
}

#[test]
fn a_slot_is_used_again_only_after_take() {
    let mut links = Links::new();
    for n in 0..5u16 {
        links.insert(&pk(n));
    }
    assert_eq!(links.take(2), Some(Link { pk: pk(2), status: LinkStatus::Registered }));
    assert_eq!(links.take(2), None);
    assert_eq!(links.id_by_pk(&pk(2)), None);
    assert_eq!(links.by_id(2), None);
    // the others keep their slots
    assert_eq!(links.id_by_pk(&pk(3)), Some(3));
    assert_eq!(links.id_by_pk(&pk(4)), Some(4));
    // the lowest empty slot is the one that was freed
    assert_eq!(links.insert(&pk(9)), Some(2));
    assert_eq!(links.insert(&pk(10)), Some(5));
}

#[test]
fn slots_beyond_the_table_hold_nothing() {
    let mut links = Links::new();
    links.insert(&pk(1));
    assert_eq!(links.by_id(240), None);
    assert_eq!(links.by_id(255), None);
    assert_eq!(links.take(240), None);
    links.upgrade(240, 1);
    links.downgrade(255);
    assert_eq!(links.iter_links().len(), 240);
    assert_eq!(links.id_by_pk(&pk(1)), Some(0));
}

#[test]
fn upgrade_and_downgrade_set_the_status() {
    let mut links = Links::new();
    links.insert(&pk(1));
    links.upgrade(0, 42);
    assert_eq!(links.by_id(0), Some(&Link { pk: pk(1), status: LinkStatus::Online(42) }));
    links.downgrade(0);
    assert_eq!(links.by_id(0), Some(&Link { pk: pk(1), status: LinkStatus::Registered }));
    // an empty slot stays empty
    links.upgrade(1, 3);
    links.downgrade(1);
    assert_eq!(links.by_id(1), None);
}

#[test]
fn wire_ids_are_slots_plus_sixteen() {
    assert_eq!(Links::wire_id(0), 16);
    assert_eq!(Links::wire_id(239), 255);
    assert_eq!(Links::slot_of(16), Some(0));
    assert_eq!(Links::slot_of(255), Some(239));
    assert_eq!(Links::slot_of(15), None);
    assert_eq!(Links::slot_of(0), None);
    for slot in 0..240u16 {
        let wire = Links::wire_id(slot as u8);
        assert!(wire >= 16 && wire - 16 < 240);
        assert_eq!(Links::slot_of(wire), Some(slot as u8));
    }
}

#[test]
fn the_slots_are_listed_in_their_order() {
    let mut links = Links::new();
    links.insert(&pk(1));
    links.insert(&pk(2));
    links.take(0);
    let slots = links.iter_links();
    assert_eq!(slots.len(), 240);
    assert_eq!(slots[0], None);
    assert_eq!(slots[1], Some(Link { pk: pk(2), status: LinkStatus::Registered }));
    assert!(slots[2..].iter().all(|slot| slot.is_none()));
}
