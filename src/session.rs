use vstd::prelude::*;
use crate::address::{Address, AddressModel};
use crate::command::{parse_udp_header, UdpHeader};
use crate::error::Error;
use vstd::slice::slice_subrange;

verus! {

/// A partial UDP message: the fragments received so far for one association
/// and one peer address.
pub struct Slot {
    pub assoc_id: u32,
    pub addr: Address,
    /// The length of the whole message, as each fragment's header declares it.
    pub len: u16,
    pub buf: Vec<u8>,
}

/// The key of a partial message: the association and the peer address.
pub type SlotKey = (u32, AddressModel);

/// The declared length of a partial message and the bytes received so far.
pub type SlotMap = Map<SlotKey, (u16, Seq<u8>)>;

pub open spec fn slot_key(s: Slot) -> SlotKey {
    (s.assoc_id, s.addr@)
}

pub open spec fn slot_val(s: Slot) -> (u16, Seq<u8>) {
    (s.len, s.buf@)
}

pub open spec fn keys_unique(s: Seq<Slot>) -> bool {
    forall|i: int, j: int|
        0 <= i < s.len() && 0 <= j < s.len() && i != j ==> slot_key(#[trigger] s[i]) != slot_key(
            #[trigger] s[j],
        )
}

/// The partial messages held in `s`, by key.
pub open spec fn slot_map(s: Seq<Slot>) -> SlotMap {
    Map::new(
        |k: SlotKey| exists|i: int| 0 <= i < s.len() && slot_key(#[trigger] s[i]) == k,
        |k: SlotKey| slot_val(s[choose|i: int| 0 <= i < s.len() && slot_key(#[trigger] s[i]) == k]),
    )
}

proof fn lemma_slot_at(s: Seq<Slot>, j: int)
    requires
        keys_unique(s),
        0 <= j < s.len(),
    ensures
        slot_map(s).contains_key(slot_key(s[j])),
        slot_map(s)[slot_key(s[j])] == slot_val(s[j]),
{
    let k = slot_key(s[j]);
    assert(exists|i: int| 0 <= i < s.len() && slot_key(#[trigger] s[i]) == k);
    let c = choose|i: int| 0 <= i < s.len() && slot_key(#[trigger] s[i]) == k;
    assert(c == j);
}

proof fn lemma_slot_push(s: Seq<Slot>, x: Slot)
    requires
        keys_unique(s),
        !slot_map(s).contains_key(slot_key(x)),
    ensures
        keys_unique(s.push(x)),
        slot_map(s.push(x)) == slot_map(s).insert(slot_key(x), slot_val(x)),
{
    let t = s.push(x);
    let kx = slot_key(x);
    assert forall|i: int| 0 <= i < s.len() implies slot_key(#[trigger] s[i]) != kx by {
        if slot_key(s[i]) == kx {
            assert(slot_map(s).contains_key(kx));
        }
    }
    assert(t[s.len() as int] == x);
    assert forall|i: int, j: int|
        0 <= i < t.len() && 0 <= j < t.len() && i != j implies slot_key(#[trigger] t[i]) != slot_key(
        #[trigger] t[j],
    ) by {
        if i < s.len() && j < s.len() {
            assert(t[i] == s[i] && t[j] == s[j]);
        } else if i < s.len() {
            assert(t[i] == s[i]);
        } else if j < s.len() {
            assert(t[j] == s[j]);
        }
    }
    lemma_slot_at(t, s.len() as int);
    assert forall|k: SlotKey| #[trigger]
        slot_map(t).contains_key(k) == slot_map(s).insert(kx, slot_val(x)).contains_key(k) by {
        if slot_map(s).contains_key(k) {
            let i = choose|i: int| 0 <= i < s.len() && slot_key(#[trigger] s[i]) == k;
            assert(t[i] == s[i]);
        }
        if slot_map(t).contains_key(k) && k != kx {
            let i = choose|i: int| 0 <= i < t.len() && slot_key(#[trigger] t[i]) == k;
            assert(i < s.len());
            assert(s[i] == t[i]);
        }
    }
    assert forall|k: SlotKey| #[trigger] slot_map(t).contains_key(k) implies slot_map(t)[k]
        == slot_map(s).insert(kx, slot_val(x))[k] by {
        if k != kx {
            let i = choose|i: int| 0 <= i < t.len() && slot_key(#[trigger] t[i]) == k;
            assert(i < s.len());
            assert(s[i] == t[i]);
            lemma_slot_at(t, i);
            lemma_slot_at(s, i);
        }
    }
    assert(slot_map(t) =~= slot_map(s).insert(kx, slot_val(x)));
}

proof fn lemma_slot_remove(s: Seq<Slot>, j: int)
    requires
        keys_unique(s),
        0 <= j < s.len(),
    ensures
        keys_unique(s.remove(j)),
        slot_map(s.remove(j)) == slot_map(s).remove(slot_key(s[j])),
{
    let t = s.remove(j);
    let kj = slot_key(s[j]);
    s.remove_ensures(j);
    assert forall|i: int, l: int|
        0 <= i < t.len() && 0 <= l < t.len() && i != l implies slot_key(#[trigger] t[i]) != slot_key(
        #[trigger] t[l],
    ) by {
        let si = if i < j {
            i
        } else {
            i + 1
        };
        let sl = if l < j {
            l
        } else {
            l + 1
        };
        assert(t[i] == s[si] && t[l] == s[sl]);
    }
    assert forall|k: SlotKey| #[trigger]
        slot_map(t).contains_key(k) == slot_map(s).remove(kj).contains_key(k) by {
        if slot_map(s).contains_key(k) && k != kj {
            let i = choose|i: int| 0 <= i < s.len() && slot_key(#[trigger] s[i]) == k;
            assert(i != j);
            if i < j {
                assert(t[i] == s[i]);
            } else {
                assert(t[i - 1] == s[i]);
            }
        }
        if slot_map(t).contains_key(k) {
            let i = choose|i: int| 0 <= i < t.len() && slot_key(#[trigger] t[i]) == k;
            let si = if i < j {
                i
            } else {
                i + 1
            };
            assert(t[i] == s[si]);
            assert(si != j);
        }
    }
    assert forall|k: SlotKey| #[trigger] slot_map(t).contains_key(k) implies slot_map(t)[k]
        == slot_map(s).remove(kj)[k] by {
        let i = choose|i: int| 0 <= i < t.len() && slot_key(#[trigger] t[i]) == k;
        let si = if i < j {
            i
        } else {
            i + 1
        };
        assert(t[i] == s[si]);
        lemma_slot_at(t, i);
        lemma_slot_at(s, si);
    }
    assert(slot_map(t) =~= slot_map(s).remove(kj));
}


/// The bytes of a partial message that a fragment with declared length `len`
/// continues: none where no slot is held, or where the slot was opened under
/// another length.
pub open spec fn pending_for(m: SlotMap, k: SlotKey, len: u16) -> Seq<u8> {
    if m.contains_key(k) && m[k].0 == len {
        m[k].1
    } else {
        Seq::empty()
    }
}

/// The partial messages after a fragment of the message keyed `k`, and what
/// comes out: the whole message once its declared length is reached, nothing
/// while bytes are missing, an error where the bytes exceed it.
pub open spec fn reassemble(m: SlotMap, k: SlotKey, len: u16, fragment: Seq<u8>) -> (
    SlotMap,
    Result<Option<Seq<u8>>, Error>,
) {
    let acc = pending_for(m, k, len) + fragment;
    if acc.len() > len {
        (m.remove(k), Err(Error::ProtocolError))
    } else if acc.len() == len {
        (m.remove(k), Ok(Some(acc)))
    } else {
        (m.insert(k, (len, acc)), Ok(None))
    }
}

/// Fragments of messages of different associations can arrive in any
/// interleaving: each step on one leaves the other's outcome and partial
/// bytes as they would be alone, and the two steps commute.
pub proof fn lemma_interleaving_independent(
    m: SlotMap,
    k1: SlotKey,
    len1: u16,
    f1: Seq<u8>,
    k2: SlotKey,
    len2: u16,
    f2: Seq<u8>,
)
    requires
        k1.0 != k2.0,
    ensures
        reassemble(reassemble(m, k1, len1, f1).0, k2, len2, f2).1 == reassemble(m, k2, len2, f2).1,
        reassemble(reassemble(m, k2, len2, f2).0, k1, len1, f1).1 == reassemble(m, k1, len1, f1).1,
        reassemble(reassemble(m, k1, len1, f1).0, k2, len2, f2).0 == reassemble(
            reassemble(m, k2, len2, f2).0,
            k1,
            len1,
            f1,
        ).0,
{
    let a = reassemble(m, k1, len1, f1).0;
    let b = reassemble(m, k2, len2, f2).0;
    assert(pending_for(a, k2, len2) == pending_for(m, k2, len2));
    assert(pending_for(b, k1, len1) == pending_for(m, k1, len1));
    assert(reassemble(a, k2, len2, f2).0 =~= reassemble(b, k1, len1, f1).0);
}

/// What a fragment gave: whether its association was new, and the whole
/// message where this fragment completed one.
#[derive(Debug, PartialEq, Eq)]
pub struct Received {
    pub opened: bool,
    pub message: Option<Vec<u8>>,
}

/// The UDP sessions of one connection and their partial messages.
pub struct SessionTable {
    pub sessions: Vec<u32>,
    pub slots: Vec<Slot>,
}

impl SessionTable {
    pub open spec fn wf(&self) -> bool {
        &&& self.sessions@.no_duplicates()
        &&& keys_unique(self.slots@)
        &&& forall|i: int|
            0 <= i < self.slots@.len() ==> (#[trigger] self.slots@[i]).buf@.len() < self.slots@[i].len
    }

    /// The partial messages, by association and peer address.
    pub open spec fn partial(&self) -> SlotMap {
        slot_map(self.slots@)
    }

    /// The associations with an open session.
    pub open spec fn open_sessions(&self) -> Set<u32> {
        self.sessions@.to_set()
    }

    pub fn new() -> (r: Self)
        ensures
            r.wf(),
            r.partial() == SlotMap::empty(),
            r.open_sessions() == Set::<u32>::empty(),
    {
        let r = SessionTable { sessions: Vec::new(), slots: Vec::new() };
        assert(r.partial() =~= SlotMap::empty());
        assert(r.open_sessions() =~= Set::<u32>::empty());
        r
    }

    /// Whether `assoc_id` has an open session.
    pub fn contains(&self, assoc_id: u32) -> (r: bool)
        ensures
            r == self.open_sessions().contains(assoc_id),
    {
        let mut i: usize = 0;
        while i < self.sessions.len()
            invariant
                i <= self.sessions@.len(),
                forall|j: int| 0 <= j < i ==> self.sessions@[j] != assoc_id,
            decreases self.sessions@.len() - i,
        {
            if self.sessions[i] == assoc_id {
                assert(self.sessions@.contains(assoc_id));
                return true;
            }
            i = i + 1;
        }
        false
    }

    fn find_slot(&self, assoc_id: u32, addr: &Address) -> (r: Option<usize>)
        ensures
            match r {
                Some(i) => i < self.slots@.len() && slot_key(self.slots@[i as int]) == (assoc_id, addr@),
                None => forall|i: int|
                    0 <= i < self.slots@.len() ==> slot_key(#[trigger] self.slots@[i]) != (
                        assoc_id,
                        addr@,
                    ),
            },
    {
        let mut i: usize = 0;
        while i < self.slots.len()
            invariant
                i <= self.slots@.len(),
                forall|j: int|
                    0 <= j < i ==> slot_key(#[trigger] self.slots@[j]) != (assoc_id, addr@),
            decreases self.slots@.len() - i,
        {
            if self.slots[i].assoc_id == assoc_id && self.slots[i].addr.same_as(addr) {
                return Some(i);
            }
            i = i + 1;
        }
        None
    }

    /// Takes in one fragment of the message from or to `addr` in association
    /// `assoc_id`, whose whole length is `len`; opens the session where it is
    /// new.
    pub fn receive(&mut self, assoc_id: u32, len: u16, addr: Address, fragment: &[u8]) -> (r: Result<
        Received,
        Error,
    >)
        requires
            old(self).wf(),
        ensures
            final(self).wf(),
            final(self).open_sessions() == old(self).open_sessions().insert(assoc_id),
            final(self).partial() == reassemble(old(self).partial(), (assoc_id, addr@), len, fragment@).0,
            match r {
                Ok(out) => {
                    &&& out.opened == !old(self).open_sessions().contains(assoc_id)
                    &&& match out.message {
                        Some(m) => reassemble(old(self).partial(), (assoc_id, addr@), len, fragment@).1
                            == Ok::<Option<Seq<u8>>, Error>(Some(m@)),
                        None => reassemble(old(self).partial(), (assoc_id, addr@), len, fragment@).1
                            == Ok::<Option<Seq<u8>>, Error>(None),
                    }
                },
                Err(e) => reassemble(old(self).partial(), (assoc_id, addr@), len, fragment@).1 == Err::<
                    Option<Seq<u8>>,
                    Error,
                >(e),
            },
    {
        let ghost m = self.partial();
        let ghost k = (assoc_id, addr@);
        let opened = self.open_session(assoc_id);
        let mut buf: Vec<u8> = match self.find_slot(assoc_id, &addr) {
            Some(i) => {
                proof {
                    lemma_slot_at(self.slots@, i as int);
                    lemma_slot_remove(self.slots@, i as int);
                    self.slots@.remove_ensures(i as int);
                }
                let slot = self.slots.remove(i);
                if slot.len == len {
                    slot.buf
                } else {
                    Vec::new()
                }
            },
            None => {
                assert(self.partial() =~= m.remove(k));
                Vec::new()
            },
        };
        assert(buf@ == pending_for(m, k, len));
        assert(buf@.len() <= len);
        if fragment.len() > len as usize - buf.len() {
            return Err(Error::ProtocolError);
        }
        let mut i: usize = 0;
        while i < fragment.len()
            invariant
                i <= fragment@.len(),
                buf@ == pending_for(m, k, len) + fragment@.subrange(0, i as int),
            decreases fragment@.len() - i,
        {
            buf.push(fragment[i]);
            i = i + 1;
            assert(buf@ =~= pending_for(m, k, len) + fragment@.subrange(0, i as int));
        }
        assert(fragment@.subrange(0, i as int) =~= fragment@);
        if buf.len() == len as usize {
            Ok(Received { opened, message: Some(buf) })
        } else {
            let ghost before = self.slots@;
            let slot = Slot { assoc_id, addr, len, buf };
            proof {
                lemma_slot_push(before, slot);
            }
            self.slots.push(slot);
            assert(forall|j: int| 0 <= j < before.len() ==> self.slots@[j] == before[j]);
            Ok(Received { opened, message: None })
        }
    }

    fn open_session(&mut self, assoc_id: u32) -> (opened: bool)
        requires
            old(self).wf(),
        ensures
            final(self).wf(),
            final(self).slots == old(self).slots,
            final(self).open_sessions() == old(self).open_sessions().insert(assoc_id),
            opened == !old(self).open_sessions().contains(assoc_id),
    {
        if self.contains(assoc_id) {
            assert(self.open_sessions() =~= self.open_sessions().insert(assoc_id));
            false
        } else {
            let ghost before = self.sessions@;
            self.sessions.push(assoc_id);
            assert(self.sessions@ == before.push(assoc_id));
            assert(self.sessions@.no_duplicates()) by {
                assert forall|i: int, j: int|
                    0 <= i < self.sessions@.len() && 0 <= j < self.sessions@.len() && i != j
                    implies self.sessions@[i] != self.sessions@[j] by {
                    if i < before.len() && j < before.len() {
                    } else if i < before.len() {
                        assert(before.contains(before[i]));
                    } else {
                        assert(before.contains(before[j]));
                    }
                }
            }
            assert forall|x: u32| #[trigger] self.open_sessions().contains(x) == before.to_set().insert(
                assoc_id,
            ).contains(x) by {
                assert(self.sessions@[before.len() as int] == assoc_id);
                if before.contains(x) {
                    let j = choose|j: int| 0 <= j < before.len() && before[j] == x;
                    assert(self.sessions@[j] == x);
                }
                if self.sessions@.contains(x) && x != assoc_id {
                    let j = choose|j: int| 0 <= j < self.sessions@.len() && self.sessions@[j] == x;
                    assert(before[j] == x);
                }
            }
            assert(self.open_sessions() =~= before.to_set().insert(assoc_id));
            true
        }
    }
}


/// The partial messages of `m` that belong to associations other than `id`.
pub open spec fn without_assoc(m: SlotMap, id: u32) -> SlotMap {
    Map::new(|k: SlotKey| m.contains_key(k) && k.0 != id, |k: SlotKey| m[k])
}

impl SessionTable {
    /// Ends the session of `assoc_id`: it is no longer open, and its partial
    /// messages are dropped. Other sessions are left as they were.
    pub fn dissociate(&mut self, assoc_id: u32)
        requires
            old(self).wf(),
        ensures
            final(self).wf(),
            final(self).open_sessions() == old(self).open_sessions().remove(assoc_id),
            final(self).partial() == without_assoc(old(self).partial(), assoc_id),
    {
        let ghost m0 = self.partial();
        self.close_session(assoc_id);
        let ghost s1 = self.open_sessions();
        let mut j: usize = 0;
        while j < self.slots.len()
            invariant
                self.wf(),
                self.open_sessions() == s1,
                j <= self.slots@.len(),
                forall|l: int| 0 <= l < j ==> (#[trigger] self.slots@[l]).assoc_id != assoc_id,
                forall|k: SlotKey| #[trigger]
                    self.partial().contains_key(k) ==> m0.contains_key(k) && self.partial()[k] == m0[k],
                forall|k: SlotKey| #[trigger]
                    m0.contains_key(k) && k.0 != assoc_id ==> self.partial().contains_key(k),
            decreases self.slots@.len() - j,
        {
            if self.slots[j].assoc_id == assoc_id {
                let ghost before = self.slots@;
                let ghost pm = self.partial();
                proof {
                    lemma_slot_remove(before, j as int);
                    before.remove_ensures(j as int);
                }
                self.slots.remove(j);
                assert forall|k: SlotKey| #[trigger] self.partial().contains_key(k) implies m0.contains_key(k)
                    && self.partial()[k] == m0[k] by {
                    assert(pm.contains_key(k));
                }
                assert forall|k: SlotKey| #[trigger] m0.contains_key(k) && k.0 != assoc_id implies self.partial().contains_key(k) by {
                    assert(pm.contains_key(k));
                }
            } else {
                j = j + 1;
            }
        }
        assert forall|k: SlotKey| #[trigger] self.partial().contains_key(k) implies k.0 != assoc_id by {
            let l = choose|l: int| 0 <= l < self.slots@.len() && slot_key(#[trigger] self.slots@[l]) == k;
            assert(self.slots@[l].assoc_id != assoc_id);
        }
        assert(self.partial() =~= without_assoc(m0, assoc_id));
    }

    fn close_session(&mut self, assoc_id: u32)
        requires
            old(self).wf(),
        ensures
            final(self).wf(),
            final(self).slots == old(self).slots,
            final(self).open_sessions() == old(self).open_sessions().remove(assoc_id),
    {
        let ghost s0 = self.open_sessions();
        let mut i: usize = 0;
        while i < self.sessions.len()
            invariant
                self.wf(),
                self.slots == old(self).slots,
                i <= self.sessions@.len(),
                self.open_sessions() == s0,
                s0 == old(self).open_sessions(),
                forall|j: int| 0 <= j < i ==> self.sessions@[j] != assoc_id,
            decreases self.sessions@.len() - i,
        {
            if self.sessions[i] == assoc_id {
                let ghost before = self.sessions@;
                self.sessions.remove(i);
                proof {
                    before.remove_ensures(i as int);
                    assert forall|x: u32| #[trigger] self.open_sessions().contains(x) == s0.remove(
                        assoc_id,
                    ).contains(x) by {
                        if before.contains(x) && x != assoc_id {
                            let j = choose|j: int| 0 <= j < before.len() && before[j] == x;
                            if j < i {
                                assert(self.sessions@[j] == x);
                            } else {
                                assert(self.sessions@[j - 1] == x);
                            }
                        }
                        if self.sessions@.contains(x) {
                            let j = choose|j: int| 0 <= j < self.sessions@.len() && self.sessions@[j] == x;
                            if j < i {
                                assert(before[j] == x);
                            } else {
                                assert(before[j + 1] == x);
                                assert(before[i as int] == assoc_id);
                            }
                        }
                    }
                    assert(self.sessions@.no_duplicates()) by {
                        assert forall|a: int, b: int|
                            0 <= a < self.sessions@.len() && 0 <= b < self.sessions@.len() && a != b
                            implies self.sessions@[a] != self.sessions@[b] by {
                            let sa = if a < i { a } else { a + 1 };
                            let sb = if b < i { b } else { b + 1 };
                            assert(self.sessions@[a] == before[sa]);
                            assert(self.sessions@[b] == before[sb]);
                        }
                    }
                }
                assert(self.open_sessions() =~= s0.remove(assoc_id));
                return;
            }
            i = i + 1;
        }
        assert(!s0.contains(assoc_id));
        assert(s0 =~= s0.remove(assoc_id));
    }
}


impl SessionTable {
    /// Takes in one datagram: a UDP header, then a fragment of the message it
    /// declares. Returns the header's association and address with what the
    /// fragment gave. A header that cannot be read leaves the table as it was.
    pub fn receive_datagram(&mut self, datagram: &[u8]) -> (r: Result<(u32, Address, Received), Error>)
        requires
            old(self).wf(),
        ensures
            final(self).wf(),
            match parse_udp_header(datagram@) {
                Err(e) => r == Err::<(u32, Address, Received), Error>(e) && final(self).partial() == old(
                    self,
                ).partial() && final(self).open_sessions() == old(self).open_sessions(),
                Ok((h, n)) => {
                    let k = (h.assoc_id, h.addr);
                    let step = reassemble(old(self).partial(), k, h.len, datagram@.subrange(n, datagram@.len() as int));
                    &&& final(self).open_sessions() == old(self).open_sessions().insert(h.assoc_id)
                    &&& final(self).partial() == step.0
                    &&& match r {
                        Ok((id, addr, out)) => {
                            &&& id == h.assoc_id
                            &&& addr@ == h.addr
                            &&& out.opened == !old(self).open_sessions().contains(h.assoc_id)
                            &&& match out.message {
                                Some(m) => step.1 == Ok::<Option<Seq<u8>>, Error>(Some(m@)),
                                None => step.1 == Ok::<Option<Seq<u8>>, Error>(None),
                            }
                        },
                        Err(e) => step.1 == Err::<Option<Seq<u8>>, Error>(e),
                    }
                },
            },
    {
        match UdpHeader::read_from(datagram) {
            Err(e) => Err(e),
            Ok((h, n)) => {
                let payload = slice_subrange(datagram, n, datagram.len());
                let addr = h.addr.clone_address();
                match self.receive(h.assoc_id, h.len, h.addr, payload) {
                    Ok(out) => Ok((h.assoc_id, addr, out)),
                    Err(e) => Err(e),
                }
            },
        }
    }
}

} // verus!
