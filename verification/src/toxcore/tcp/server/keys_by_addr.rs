//! The index of the relay from an address and a port to the key of the
//! client that was last seen there.

use vstd::prelude::*;
use crate::toxcore::addr::IpAddr;
use crate::toxcore::crypto_core::PublicKey;

verus! {

/// One entry of the index.
struct AddrEntry {
    ip_addr: IpAddr,
    port: u16,
    pk: PublicKey,
}

/// The map that a list of entries stands for: a later entry for an address
/// goes before an earlier one.
spec fn entries_map(entries: Seq<AddrEntry>) -> Map<(IpAddr, u16), PublicKey>
    decreases entries.len(),
{
    if entries.len() == 0 {
        Map::empty()
    } else {
        let last = entries.last();
        entries_map(entries.drop_last()).insert((last.ip_addr, last.port), last.pk)
    }
}

/// Whether no address has two entries.
spec fn entries_unique(entries: Seq<AddrEntry>) -> bool {
    forall|i: int, j: int|
        0 <= i < entries.len() && 0 <= j < entries.len() && (#[trigger] entries[i]).ip_addr == (
        #[trigger] entries[j]).ip_addr && entries[i].port == entries[j].port ==> i == j
}

/// The map holds the addresses of the entries, and nothing else.
proof fn lemma_map_domain(entries: Seq<AddrEntry>, key: (IpAddr, u16))
    ensures
        entries_map(entries).contains_key(key) <==> exists|i: int|
            0 <= i < entries.len() && (#[trigger] entries[i]).ip_addr == key.0 && entries[i].port
                == key.1,
    decreases entries.len(),
{
    if entries.len() > 0 {
        let init = entries.drop_last();
        lemma_map_domain(init, key);
        let last = entries.last();
        if entries_map(entries).contains_key(key) {
            if (last.ip_addr, last.port) == key {
                assert(entries[entries.len() - 1].ip_addr == key.0);
            } else {
                let i = choose|i: int|
                    0 <= i < init.len() && (#[trigger] init[i]).ip_addr == key.0 && init[i].port
                        == key.1;
                assert(entries[i].ip_addr == key.0);
            }
        }
        if exists|i: int|
            0 <= i < entries.len() && (#[trigger] entries[i]).ip_addr == key.0 && entries[i].port
                == key.1 {
            let i = choose|i: int|
                0 <= i < entries.len() && (#[trigger] entries[i]).ip_addr == key.0
                    && entries[i].port == key.1;
            if i < init.len() {
                assert(init[i].ip_addr == key.0);
            }
        }
    }
}

/// The map gives for the address of an entry the key of the entry.
proof fn lemma_map_value(entries: Seq<AddrEntry>, i: int)
    requires
        entries_unique(entries),
        0 <= i < entries.len(),
    ensures
        entries_map(entries).contains_key((entries[i].ip_addr, entries[i].port)),
        entries_map(entries)[(entries[i].ip_addr, entries[i].port)] == entries[i].pk,
    decreases entries.len(),
{
    let init = entries.drop_last();
    if i < init.len() {
        assert forall|a: int, b: int|
            0 <= a < init.len() && 0 <= b < init.len() && (#[trigger] init[a]).ip_addr == (
            #[trigger] init[b]).ip_addr && init[a].port == init[b].port implies a == b by {
            assert(entries[a].ip_addr == entries[b].ip_addr);
        }
        lemma_map_value(init, i);
        assert(init[i] == entries[i]);
        let last = entries[entries.len() - 1];
        assert(!(last.ip_addr == entries[i].ip_addr && last.port == entries[i].port));
    }
}

/// One entry replaced by another for the same address: the map with the new
/// key at that address.
proof fn lemma_map_update(entries: Seq<AddrEntry>, i: int, entry: AddrEntry)
    requires
        entries_unique(entries),
        0 <= i < entries.len(),
        entry.ip_addr == entries[i].ip_addr,
        entry.port == entries[i].port,
    ensures
        entries_unique(entries.update(i, entry)),
        entries_map(entries.update(i, entry)) == entries_map(entries).insert(
            (entry.ip_addr, entry.port),
            entry.pk,
        ),
{
    let after = entries.update(i, entry);
    assert forall|a: int, b: int|
        0 <= a < after.len() && 0 <= b < after.len() && (#[trigger] after[a]).ip_addr == (
        #[trigger] after[b]).ip_addr && after[a].port == after[b].port implies a == b by {
        assert(entries[a].ip_addr == entries[b].ip_addr);
    }
    let key = (entry.ip_addr, entry.port);
    assert forall|k: (IpAddr, u16)|
        entries_map(after).contains_key(k) <==> entries_map(entries).insert(
            key,
            entry.pk,
        ).contains_key(k) by {
        lemma_map_domain(after, k);
        lemma_map_domain(entries, k);
        if exists|j: int|
            0 <= j < after.len() && (#[trigger] after[j]).ip_addr == k.0 && after[j].port == k.1 {
            let j = choose|j: int|
                0 <= j < after.len() && (#[trigger] after[j]).ip_addr == k.0 && after[j].port
                    == k.1;
            assert(entries[j].ip_addr == k.0);
        }
        if exists|j: int|
            0 <= j < entries.len() && (#[trigger] entries[j]).ip_addr == k.0 && entries[j].port
                == k.1 {
            let j = choose|j: int|
                0 <= j < entries.len() && (#[trigger] entries[j]).ip_addr == k.0
                    && entries[j].port == k.1;
            assert(after[j].ip_addr == k.0);
        }
        if k == key {
            assert(after[i].ip_addr == k.0);
        }
    }
    assert forall|k: (IpAddr, u16)| entries_map(after).contains_key(k) implies entries_map(
        after,
    )[k] == entries_map(entries).insert(key, entry.pk)[k] by {
        lemma_map_domain(after, k);
        let j = choose|j: int|
            0 <= j < after.len() && (#[trigger] after[j]).ip_addr == k.0 && after[j].port == k.1;
        lemma_map_value(after, j);
        if j != i {
            lemma_map_value(entries, j);
            assert(after[j] == entries[j]);
        }
    }
    assert(entries_map(after) =~= entries_map(entries).insert(key, entry.pk));
}

/// One entry taken out: the map without its address.
proof fn lemma_map_remove(entries: Seq<AddrEntry>, i: int)
    requires
        entries_unique(entries),
        0 <= i < entries.len(),
    ensures
        entries_unique(entries.remove(i)),
        entries_map(entries.remove(i)) == entries_map(entries).remove(
            (entries[i].ip_addr, entries[i].port),
        ),
{
    let after = entries.remove(i);
    let key = (entries[i].ip_addr, entries[i].port);
    assert forall|a: int, b: int|
        0 <= a < after.len() && 0 <= b < after.len() && (#[trigger] after[a]).ip_addr == (
        #[trigger] after[b]).ip_addr && after[a].port == after[b].port implies a == b by {
        let a0 = if a < i {
            a
        } else {
            a + 1
        };
        let b0 = if b < i {
            b
        } else {
            b + 1
        };
        assert(entries[a0].ip_addr == entries[b0].ip_addr);
    }
    assert forall|k: (IpAddr, u16)|
        entries_map(after).contains_key(k) <==> entries_map(entries).remove(key).contains_key(
            k,
        ) by {
        lemma_map_domain(after, k);
        lemma_map_domain(entries, k);
        if exists|j: int|
            0 <= j < after.len() && (#[trigger] after[j]).ip_addr == k.0 && after[j].port == k.1 {
            let j = choose|j: int|
                0 <= j < after.len() && (#[trigger] after[j]).ip_addr == k.0 && after[j].port
                    == k.1;
            let j0 = if j < i {
                j
            } else {
                j + 1
            };
            assert(entries[j0].ip_addr == k.0);
            assert(entries[j0].ip_addr == entries[i].ip_addr && entries[j0].port
                == entries[i].port ==> j0 == i);
        }
        if k != key && exists|j: int|
            0 <= j < entries.len() && (#[trigger] entries[j]).ip_addr == k.0 && entries[j].port
                == k.1 {
            let j = choose|j: int|
                0 <= j < entries.len() && (#[trigger] entries[j]).ip_addr == k.0
                    && entries[j].port == k.1;
            let j1 = if j < i {
                j
            } else {
                j - 1
            };
            assert(after[j1].ip_addr == k.0);
        }
    }
    assert forall|k: (IpAddr, u16)| entries_map(after).contains_key(k) implies entries_map(
        after,
    )[k] == entries_map(entries).remove(key)[k] by {
        lemma_map_domain(after, k);
        let j = choose|j: int|
            0 <= j < after.len() && (#[trigger] after[j]).ip_addr == k.0 && after[j].port == k.1;
        let j0 = if j < i {
            j
        } else {
            j + 1
        };
        lemma_map_value(after, j);
        lemma_map_value(entries, j0);
    }
    assert(entries_map(after) =~= entries_map(entries).remove(key));
}

/// The index from an address and a port to the key of a client.
pub struct KeysByAddr {
    entries: Vec<AddrEntry>,
}

impl View for KeysByAddr {
    type V = Map<(IpAddr, u16), PublicKey>;

    closed spec fn view(&self) -> Map<(IpAddr, u16), PublicKey> {
        entries_map(self.entries@)
    }
}

impl KeysByAddr {
    /// Whether the index is in order. Every index that this module makes is,
    /// and stays so.
    pub closed spec fn wf(&self) -> bool {
        entries_unique(self.entries@)
    }

    /// An index without entries.
    pub fn new() -> (index: KeysByAddr)
        ensures
            index.wf(),
            index@ == Map::<(IpAddr, u16), PublicKey>::empty(),
    {
        KeysByAddr { entries: Vec::new() }
    }

    /// Where the entry of the address is, if there is one.
    fn find(&self, ip_addr: &IpAddr, port: u16) -> (at: Option<usize>)
        requires
            self.wf(),
        ensures
            match at {
                Some(i) => i < self.entries@.len() && self.entries@[i as int].ip_addr == *ip_addr
                    && self.entries@[i as int].port == port && self@.contains_key(
                    (*ip_addr, port),
                ) && self@[(*ip_addr, port)] == self.entries@[i as int].pk,
                None => !self@.contains_key((*ip_addr, port)),
            },
    {
        let mut i: usize = 0;
        while i < self.entries.len()
            invariant
                i <= self.entries@.len(),
                self.wf(),
                forall|j: int|
                    0 <= j < i ==> !((#[trigger] self.entries@[j]).ip_addr == *ip_addr
                        && self.entries@[j].port == port),
            decreases self.entries@.len() - i,
        {
            if self.entries[i].ip_addr == *ip_addr && self.entries[i].port == port {
                proof {
                    lemma_map_value(self.entries@, i as int);
                }
                return Some(i);
            }
            i += 1;
        }
        proof {
            lemma_map_domain(self.entries@, (*ip_addr, port));
        }
        None
    }

    /// The key that the index holds for the address, if it holds one.
    pub fn get(&self, ip_addr: &IpAddr, port: u16) -> (pk: Option<PublicKey>)
        requires
            self.wf(),
        ensures
            pk == if self@.contains_key((*ip_addr, port)) {
                Some(self@[(*ip_addr, port)])
            } else {
                None
            },
    {
        match self.find(ip_addr, port) {
            Some(i) => Some(self.entries[i].pk),
            None => None,
        }
    }

    /// Puts `pk` at the address, in place of the key that was there.
    pub fn insert(&mut self, ip_addr: IpAddr, port: u16, pk: PublicKey)
        requires
            old(self).wf(),
        ensures
            final(self).wf(),
            final(self)@ == old(self)@.insert((ip_addr, port), pk),
    {
        let entry = AddrEntry { ip_addr, port, pk };
        match self.find(&ip_addr, port) {
            Some(i) => {
                proof {
                    lemma_map_update(self.entries@, i as int, entry);
                }
                self.entries[i] = entry;
            },
            None => {
                proof {
                    lemma_map_domain(self.entries@, (ip_addr, port));
                    assert(self.entries@.push(entry).drop_last() =~= self.entries@);
                }
                self.entries.push(entry);
            },
        }
    }

    /// Takes the address out of the index.
    pub fn remove(&mut self, ip_addr: &IpAddr, port: u16)
        requires
            old(self).wf(),
        ensures
            final(self).wf(),
            final(self)@ == old(self)@.remove((*ip_addr, port)),
    {
        match self.find(ip_addr, port) {
            Some(i) => {
                proof {
                    lemma_map_remove(self.entries@, i as int);
                }
                let gone = self.entries.remove(i);
            },
            None => {
                assert(self@.remove((*ip_addr, port)) =~= self@);
            },
        }
    }
}

} // verus!
