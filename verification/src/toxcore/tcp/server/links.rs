//! The table of links that a client holds to other clients.
//!
//! A link sits in one of 240 slots. Inside the relay a link is known by the
//! number of its slot, from 0; on the wire it is known by that number plus
//! 16. The table is the one place that goes from one to the other.

use vstd::prelude::*;
use crate::toxcore::crypto_core::PublicKey;

verus! {

/// The number of slots of a table of links.
pub const MAX_LINKS_N: usize = 240;

/// The wire id of the slot 0.
pub const WIRE_ID_BASE: u8 = 16;

/// Link status.
#[derive(Debug, PartialEq, Eq, Clone, Copy, Structural)]
pub enum LinkStatus {
    /// The link is registered on one side only: this side has a slot for the
    /// peer and has not been told yet that the peer has one for it.
    Registered,
    /// The link is registered on both sides: both clients are linked. The
    /// number is the slot that the peer holds for this side.
    Online(u8),
}

/// A link: the key of the peer, and how far the handshake got.
#[derive(Debug, PartialEq, Eq, Clone, Copy)]
pub struct Link {
    /// The key of the peer.
    pub pk: PublicKey,
    /// How far the handshake got.
    pub status: LinkStatus,
}

impl Link {
    fn new(pk: PublicKey) -> (link: Link)
        ensures
            link == (Link { pk, status: LinkStatus::Registered }),
    {
        Link { pk, status: LinkStatus::Registered }
    }

    fn downgrade(&mut self)
        ensures
            *final(self) == (Link { pk: old(self).pk, status: LinkStatus::Registered }),
    {
        self.status = LinkStatus::Registered;
    }

    fn upgrade(&mut self, to: u8)
        ensures
            *final(self) == (Link { pk: old(self).pk, status: LinkStatus::Online(to) }),
    {
        self.status = LinkStatus::Online(to);
    }
}

/// The key of the peer in the slot `i`, if the slot holds a link.
pub open spec fn key_at(slots: Seq<Option<Link>>, i: int) -> Option<PublicKey> {
    match slots[i] {
        Some(link) => Some(link.pk),
        None => None,
    }
}

/// Whether the slot `i` holds the link to `pk`.
pub open spec fn holds(slots: Seq<Option<Link>>, i: int, pk: PublicKey) -> bool {
    0 <= i < slots.len() && key_at(slots, i) == Some(pk)
}

/// Whether the slot `i` is the lowest empty slot.
pub open spec fn lowest_free(slots: Seq<Option<Link>>, i: int) -> bool {
    &&& 0 <= i < slots.len()
    &&& slots[i] is None
    &&& forall|j: int| 0 <= j < i ==> (#[trigger] slots[j]) is Some
}

/// What a table of links is: 240 slots in which no peer has two links.
pub open spec fn links_wf(slots: Seq<Option<Link>>) -> bool {
    &&& slots.len() == 240
    &&& forall|i: int, j: int|
        0 <= i < slots.len() && 0 <= j < slots.len() && #[trigger] key_at(slots, i) is Some
            && key_at(slots, i) == #[trigger] key_at(slots, j) ==> i == j
}

/// The index of the table: the slot that holds the link to `pk`, if one does.
pub open spec fn index_of(slots: Seq<Option<Link>>, pk: PublicKey) -> Option<int> {
    if exists|i: int| holds(slots, i, pk) {
        Some(choose|i: int| holds(slots, i, pk))
    } else {
        None
    }
}

/// The lowest empty slot, if there is an empty slot.
pub open spec fn first_free(slots: Seq<Option<Link>>) -> Option<int> {
    if exists|i: int| lowest_free(slots, i) {
        Some(choose|i: int| lowest_free(slots, i))
    } else {
        None
    }
}

/// The wire id of the slot `slot`.
pub open spec fn spec_wire_id(slot: int) -> u8 {
    (slot + 16) as u8
}

/// The table and the slot that an insertion of `pk` gives: the slot that
/// holds `pk` already and the table as it is; else the lowest empty slot and
/// the table with a registered link to `pk` in it; else no slot and the table
/// as it is.
pub open spec fn spec_insert(slots: Seq<Option<Link>>, pk: PublicKey) -> (
    Seq<Option<Link>>,
    Option<int>,
) {
    match index_of(slots, pk) {
        Some(i) => (slots, Some(i)),
        None => match first_free(slots) {
            Some(i) => (
                slots.update(i, Some(Link { pk, status: LinkStatus::Registered })),
                Some(i),
            ),
            None => (slots, None),
        },
    }
}

/// The table with the slot `slot` emptied, where there is such a slot.
pub open spec fn spec_take(slots: Seq<Option<Link>>, slot: int) -> Seq<Option<Link>> {
    if 0 <= slot < slots.len() {
        slots.update(slot, None)
    } else {
        slots
    }
}

/// The table with the status `status` on the link of the slot `slot`, where
/// the slot holds a link.
pub open spec fn spec_set_status(slots: Seq<Option<Link>>, slot: int, status: LinkStatus) -> Seq<
    Option<Link>,
> {
    if 0 <= slot < slots.len() {
        match slots[slot] {
            Some(link) => slots.update(slot, Some(Link { pk: link.pk, status })),
            None => slots,
        }
    } else {
        slots
    }
}

/// The link to a peer sits where the index says, and nowhere else: the
/// index gives the slot `i` for `pk` exactly if the slot `i` holds the link
/// to `pk`.
pub proof fn lemma_index_is_slot(slots: Seq<Option<Link>>, pk: PublicKey, i: int)
    requires
        links_wf(slots),
    ensures
        index_of(slots, pk) == Some(i) <==> holds(slots, i, pk),
{
    if holds(slots, i, pk) {
        let found = choose|k: int| holds(slots, k, pk);
        assert(key_at(slots, found) == key_at(slots, i));
    }
}

/// The lowest empty slot is the only lowest empty slot.
pub proof fn lemma_first_free(slots: Seq<Option<Link>>, i: int)
    ensures
        first_free(slots) == Some(i) <==> lowest_free(slots, i),
        first_free(slots) is None <==> forall|j: int|
            0 <= j < slots.len() ==> (#[trigger] slots[j]) is Some,
{
    if lowest_free(slots, i) {
        let found = choose|k: int| lowest_free(slots, k);
        if found < i {
            assert(slots[found] is Some);
        }
        if i < found {
            assert(slots[i] is Some);
        }
    }
    if !(forall|j: int| 0 <= j < slots.len() ==> (#[trigger] slots[j]) is Some) {
        lemma_some_lowest_free(slots, slots.len() as int);
    }
    if first_free(slots) is Some {
        let found = choose|k: int| lowest_free(slots, k);
        assert(slots[found] is None);
    }
}

/// Where one of the first `n` slots is empty, one is the lowest empty slot.
proof fn lemma_some_lowest_free(slots: Seq<Option<Link>>, n: int)
    requires
        0 <= n <= slots.len(),
        exists|j: int| 0 <= j < n && (#[trigger] slots[j]) is None,
    ensures
        exists|i: int| lowest_free(slots, i),
    decreases n,
{
    let j = choose|j: int| 0 <= j < n && (#[trigger] slots[j]) is None;
    if exists|k: int| 0 <= k < j && (#[trigger] slots[k]) is None {
        lemma_some_lowest_free(slots, j);
    } else {
        assert(lowest_free(slots, j));
    }
}

/// An insertion keeps the table a table of links.
pub proof fn lemma_insert_keeps_wf(slots: Seq<Option<Link>>, pk: PublicKey)
    requires
        links_wf(slots),
    ensures
        links_wf(spec_insert(slots, pk).0),
{
    let inserted = spec_insert(slots, pk).0;
    if index_of(slots, pk) is None && first_free(slots) is Some {
        let at = first_free(slots)->0;
        lemma_first_free(slots, at);
        assert forall|i: int, j: int|
            0 <= i < inserted.len() && 0 <= j < inserted.len() && #[trigger] key_at(
                inserted,
                i,
            ) is Some && key_at(inserted, i) == #[trigger] key_at(inserted, j) implies i == j by {
            if i != j {
                if i == at {
                    assert(holds(slots, j, pk));
                } else if j == at {
                    assert(holds(slots, i, pk));
                } else {
                    assert(key_at(slots, i) == key_at(slots, j));
                }
            }
        }
    }
}

/// Emptying a slot and setting a status keep the table a table of links.
pub proof fn lemma_changes_keep_wf(slots: Seq<Option<Link>>, slot: int, status: LinkStatus)
    requires
        links_wf(slots),
    ensures
        links_wf(spec_take(slots, slot)),
        links_wf(spec_set_status(slots, slot, status)),
{
    let taken = spec_take(slots, slot);
    assert forall|i: int, j: int|
        0 <= i < taken.len() && 0 <= j < taken.len() && #[trigger] key_at(taken, i) is Some
            && key_at(taken, i) == #[trigger] key_at(taken, j) implies i == j by {
        assert(key_at(slots, i) == key_at(slots, j));
    }
    let set = spec_set_status(slots, slot, status);
    assert forall|i: int, j: int|
        0 <= i < set.len() && 0 <= j < set.len() && #[trigger] key_at(set, i) is Some && key_at(
            set,
            i,
        ) == #[trigger] key_at(set, j) implies i == j by {
        assert(key_at(set, i) == key_at(slots, i));
        assert(key_at(set, j) == key_at(slots, j));
    }
}

/// The table with no link in it.
pub open spec fn empty_table() -> Seq<Option<Link>> {
    Seq::new(240, |i: int| None::<Link>)
}

/// The table and the slots that the insertions of `pks`, one after another,
/// give.
pub open spec fn insert_all(slots: Seq<Option<Link>>, pks: Seq<PublicKey>) -> (
    Seq<Option<Link>>,
    Seq<Option<int>>,
)
    decreases pks.len(),
{
    if pks.len() == 0 {
        (slots, Seq::empty())
    } else {
        let (before, given) = insert_all(slots, pks.drop_last());
        let (then, slot) = spec_insert(before, pks.last());
        (then, given.push(slot))
    }
}

/// The table that holds registered links to `pks` in its first slots, in
/// their order, and nothing else.
pub open spec fn filled_table(pks: Seq<PublicKey>) -> Seq<Option<Link>> {
    Seq::new(
        240,
        |i: int|
            if i < pks.len() {
                Some(Link { pk: pks[i], status: LinkStatus::Registered })
            } else {
                None::<Link>
            },
    )
}

/// Slots are given out from the lowest on: the links to `n` different peers,
/// inserted into an empty table, get the slots 0 to `n - 1` in the order of
/// their insertion. The first insertion into an empty table gets the slot 0.
pub proof fn lemma_slots_in_order(pks: Seq<PublicKey>)
    requires
        pks.no_duplicates(),
        pks.len() <= 240,
    ensures
        insert_all(empty_table(), pks).0 == filled_table(pks),
        insert_all(empty_table(), pks).1 == Seq::new(pks.len(), |i: int| Some(i)),
        links_wf(filled_table(pks)),
    decreases pks.len(),
{
    let full = filled_table(pks);
    assert forall|i: int, j: int|
        0 <= i < full.len() && 0 <= j < full.len() && #[trigger] key_at(full, i) is Some && key_at(
            full,
            i,
        ) == #[trigger] key_at(full, j) implies i == j by {
        assert(pks[i] == pks[j]);
    }
    if pks.len() == 0 {
        assert(empty_table() =~= filled_table(pks));
        assert(insert_all(empty_table(), pks).1 =~= Seq::new(pks.len(), |i: int| Some(i)));
    } else {
        let init = pks.drop_last();
        let pk = pks.last();
        let at = init.len() as int;
        lemma_slots_in_order(init);
        let before = filled_table(init);
        assert forall|i: int| !holds(before, i, pk) by {
            if holds(before, i, pk) {
                assert(pks[i] == pks[at]);
            }
        }
        assert(lowest_free(before, at));
        lemma_first_free(before, at);
        assert(spec_insert(before, pk).0 =~= full);
        assert(insert_all(empty_table(), pks).1 =~= Seq::new(pks.len(), |i: int| Some(i)));
    }
}

/// The table of the links of one client.
pub struct Links {
    links: Vec<Option<Link>>,
}

impl View for Links {
    type V = Seq<Option<Link>>;

    closed spec fn view(&self) -> Seq<Option<Link>> {
        self.links@
    }
}

impl Links {
    /// Whether the table is a table of links. Every table that this module
    /// makes is one, and stays one.
    pub open spec fn wf(&self) -> bool {
        links_wf(self@)
    }

    /// An empty table.
    pub fn new() -> (links: Links)
        ensures
            links.wf(),
            forall|i: int| 0 <= i < 240 ==> (#[trigger] links@[i]) is None,
    {
        let mut links: Vec<Option<Link>> = Vec::with_capacity(MAX_LINKS_N);
        let mut i: usize = 0;
        while i < MAX_LINKS_N
            invariant
                i <= MAX_LINKS_N,
                links@.len() == i,
                forall|k: int| 0 <= k < i ==> (#[trigger] links@[k]) is None,
            decreases MAX_LINKS_N - i,
        {
            links.push(None);
            i += 1;
        }
        Links { links }
    }

    /// The wire id of the slot `slot`.
    pub fn wire_id(slot: u8) -> (id: u8)
        requires
            slot < 240,
        ensures
            id == spec_wire_id(slot as int),
            id == slot + 16,
            id >= 16,
            id - 16 < 240,
    {
        slot + WIRE_ID_BASE
    }

    /// The slot of the wire id `id`. Wire ids under 16 name no slot.
    pub fn slot_of(id: u8) -> (slot: Option<u8>)
        ensures
            id < 16 ==> slot is None,
            id >= 16 ==> slot == Some((id - 16) as u8),
            slot matches Some(s) ==> s < 240 && spec_wire_id(s as int) == id,
    {
        if id < WIRE_ID_BASE {
            None
        } else {
            Some(id - WIRE_ID_BASE)
        }
    }

    /// Gives the slot of the link to `pk`, which is made in the lowest empty
    /// slot if there is none yet. Gives nothing where there is neither the
    /// link nor an empty slot.
    pub fn insert(&mut self, pk: &PublicKey) -> (slot: Option<u8>)
        requires
            old(self).wf(),
        ensures
            final(self).wf(),
            final(self)@ == spec_insert(old(self)@, *pk).0,
            match slot {
                Some(s) => spec_insert(old(self)@, *pk).1 == Some(s as int) && s < 240,
                None => spec_insert(old(self)@, *pk).1 is None,
            },
    {
        proof {
            lemma_insert_keeps_wf(self@, *pk);
        }
        match self.id_by_pk(pk) {
            Some(index) => Some(index),
            None => {
                let mut i: usize = 0;
                while i < MAX_LINKS_N
                    invariant
                        i <= MAX_LINKS_N,
                        self@ == old(self)@,
                        links_wf(self@),
                        links_wf(spec_insert(self@, *pk).0),
                        index_of(self@, *pk) is None,
                        forall|j: int| 0 <= j < i ==> (#[trigger] self@[j]) is Some,
                    decreases MAX_LINKS_N - i,
                {
                    if self.links[i].is_none() {
                        proof {
                            assert(lowest_free(self@, i as int));
                            lemma_first_free(self@, i as int);
                        }
                        self.links[i] = Some(Link::new(*pk));
                        return Some(i as u8);
                    }
                    i += 1;
                }
                proof {
                    lemma_first_free(self@, 0);
                }
                None
            },
        }
    }

    /// The link in the slot `index`, if the slot is there and holds one.
    pub fn by_id(&self, index: u8) -> (link: Option<&Link>)
        requires
            self.wf(),
        ensures
            index < 240 ==> (match link {
                Some(l) => self@[index as int] == Some(*l),
                None => self@[index as int] is None,
            }),
            index >= 240 ==> link is None,
    {
        let index = index as usize;
        if index < MAX_LINKS_N {
            self.links[index].as_ref()
        } else {
            None
        }
    }

    /// The slot of the link to `pk`, if there is the link.
    pub fn id_by_pk(&self, pk: &PublicKey) -> (slot: Option<u8>)
        requires
            self.wf(),
        ensures
            match slot {
                Some(s) => index_of(self@, *pk) == Some(s as int) && s < 240,
                None => index_of(self@, *pk) is None,
            },
    {
        let mut i: usize = 0;
        while i < MAX_LINKS_N
            invariant
                i <= MAX_LINKS_N,
                self.links@.len() == 240,
                self.wf(),
                forall|j: int| 0 <= j < i ==> !holds(self@, j, *pk),
            decreases MAX_LINKS_N - i,
        {
            if let Some(link) = &self.links[i] {
                if link.pk == *pk {
                    proof {
                        assert(holds(self@, i as int, *pk));
                        lemma_index_is_slot(self@, *pk, i as int);
                    }
                    return Some(i as u8);
                }
            }
            i += 1;
        }
        None
    }

    /// Empties the slot `index` and gives the link that it held.
    pub fn take(&mut self, index: u8) -> (link: Option<Link>)
        requires
            old(self).wf(),
        ensures
            final(self).wf(),
            final(self)@ == spec_take(old(self)@, index as int),
            index < 240 ==> link == old(self)@[index as int],
            index >= 240 ==> link is None,
    {
        proof {
            lemma_changes_keep_wf(self@, index as int, LinkStatus::Registered);
        }
        let index = index as usize;
        if index < MAX_LINKS_N {
            let link = self.links[index];
            self.links[index] = None;
            link
        } else {
            None
        }
    }

    /// Marks the link in the slot `index` as registered on this side only.
    /// Nothing changes where the slot holds no link.
    pub fn downgrade(&mut self, index: u8)
        requires
            old(self).wf(),
        ensures
            final(self).wf(),
            final(self)@ == spec_set_status(old(self)@, index as int, LinkStatus::Registered),
    {
        proof {
            lemma_changes_keep_wf(self@, index as int, LinkStatus::Registered);
        }
        let index = index as usize;
        if index < MAX_LINKS_N {
            if let Some(mut link) = self.links[index] {
                link.downgrade();
                self.links[index] = Some(link);
            }
        }
    }

    /// Marks the link in the slot `index` as registered on both sides, with
    /// `to` the slot that the peer holds for this side. Nothing changes where
    /// the slot holds no link.
    pub fn upgrade(&mut self, index: u8, to: u8)
        requires
            old(self).wf(),
        ensures
            final(self).wf(),
            final(self)@ == spec_set_status(old(self)@, index as int, LinkStatus::Online(to)),
    {
        proof {
            lemma_changes_keep_wf(self@, index as int, LinkStatus::Online(to));
        }
        let index = index as usize;
        if index < MAX_LINKS_N {
            if let Some(mut link) = self.links[index] {
                link.upgrade(to);
                self.links[index] = Some(link);
            }
        }
    }

    /// The slots, in their order.
    pub fn iter_links(&self) -> (slots: &[Option<Link>])
        ensures
            slots@ == self@,
    {
        self.links.as_slice()
    }
}

} // verus!
