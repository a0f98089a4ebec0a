//! Peer identity for the multiplexed mode: the listener's registry maps
//! session ids to peer addresses and back, and the sender's client table
//! keeps one outbound slot per session id.
use vstd::prelude::*;

verus! {

/// A transport address: host (as an integer, IPv4 mapped into it) and port.
/// Two peer addresses are equal exactly when host and port match.
#[derive(Clone, Copy, Debug, PartialEq, Eq, Hash, Structural)]
pub struct PeerAddr {
    pub ip: u128,
    pub port: u16,
}

/// The listener's registry. A peer's session id is its index: ids are
/// assigned in arrival order of distinct addresses, never reused, and the
/// registry only grows.
pub struct PeerRegistry {
    addrs: Vec<PeerAddr>,
}

impl View for PeerRegistry {
    type V = Seq<PeerAddr>;

    closed spec fn view(&self) -> Seq<PeerAddr> {
        self.addrs@
    }
}

impl PeerRegistry {
    /// The id-to-address and address-to-id mappings stay consistent: no
    /// address stands under two ids.
    pub open spec fn wf(&self) -> bool {
        forall|i: int, j: int| 0 <= i < j < self@.len() ==> self@[i] != self@[j]
    }

    pub fn new() -> (r: PeerRegistry)
        ensures
            r.wf(),
            r@ == Seq::<PeerAddr>::empty(),
    {
        let r = PeerRegistry { addrs: Vec::new() };
        proof {
            assert(r@ =~= Seq::<PeerAddr>::empty());
        }
        r
    }

    /// How many peers have been learned.
    pub fn len(&self) -> (n: usize)
        ensures
            n == self@.len(),
    {
        self.addrs.len()
    }

    /// The id under which `addr` is registered: the first (and under `wf`
    /// only) index holding it.
    pub fn id_of(&self, addr: PeerAddr) -> (r: Option<usize>)
        ensures
            (r matches Some(k) ==> k < self@.len() && self@[k as int] == addr && (forall|j: int|
                0 <= j < k ==> self@[j] != addr)),
            r is None ==> forall|j: int| 0 <= j < self@.len() ==> self@[j] != addr,
    {
        let mut k: usize = 0;
        while k < self.addrs.len()
            invariant
                k <= self@.len(),
                self@.len() == self.addrs@.len(),
                self@ == self.addrs@,
                forall|j: int| 0 <= j < k ==> self@[j] != addr,
            decreases self@.len() - k,
        {
            if self.addrs[k] == addr {
                return Some(k);
            }
            k = k + 1;
        }
        None
    }

    /// Resolve an inbound datagram's source to its session id, assigning the
    /// next id (the registry's size) to a peer seen for the first time.
    pub fn lookup_or_insert(&mut self, addr: PeerAddr) -> (id: usize)
        requires
            old(self).wf(),
            old(self)@.len() < usize::MAX,
        ensures
            final(self).wf(),
            id < final(self)@.len(),
            final(self)@[id as int] == addr,
            old(self)@.contains(addr) ==> final(self)@ == old(self)@ && (forall|j: int|
                0 <= j < id ==> final(self)@[j] != addr),
            !old(self)@.contains(addr) ==> id == old(self)@.len() && final(self)@ == old(
                self,
            )@.push(addr),
    {
        match self.id_of(addr) {
            Some(k) => {
                proof {
                    assert(old(self)@[k as int] == addr);
                }
                k
            },
            None => {
                let id = self.addrs.len();
                self.addrs.push(addr);
                proof {
                    assert(forall|j: int| 0 <= j < old(self)@.len() ==> old(self)@[j] != addr);
                    assert(self@ == old(self)@.push(addr));
                }
                id
            },
        }
    }

    /// The address registered under `id`, or nothing: an unknown id never
    /// yields an invented address.
    pub fn addr_of(&self, id: usize) -> (r: Option<PeerAddr>)
        ensures
            r == (if (id as int) < self@.len() {
                Some(self@[id as int])
            } else {
                None::<PeerAddr>
            }),
    {
        if id < self.addrs.len() {
            Some(self.addrs[id])
        } else {
            None
        }
    }
}

/// The registry's two directions stay consistent: under `wf` an address is
/// registered under exactly one id, so an entry `id -> addr` exists exactly
/// when the reverse lookup of `addr` gives back `id`.
pub proof fn lemma_mapping_consistent(reg: &PeerRegistry, i: int, j: int)
    requires
        reg.wf(),
        0 <= i < reg@.len(),
        0 <= j < reg@.len(),
        reg@[i] == reg@[j],
    ensures
        i == j,
{
}

/// The multiplexed sender's table of session ids, one outbound socket slot
/// per id. A slot, once created, stands for the same id for the process
/// lifetime; the caller keeps its sockets in a list parallel to the slots.
pub struct ClientTable {
    ids: Vec<u64>,
}

impl View for ClientTable {
    type V = Seq<u64>;

    closed spec fn view(&self) -> Seq<u64> {
        self.ids@
    }
}

impl ClientTable {
    /// Each id owns at most one slot.
    pub open spec fn wf(&self) -> bool {
        forall|i: int, j: int| 0 <= i < j < self@.len() ==> self@[i] != self@[j]
    }

    pub fn new() -> (r: ClientTable)
        ensures
            r.wf(),
            r@ == Seq::<u64>::empty(),
    {
        let r = ClientTable { ids: Vec::new() };
        proof {
            assert(r@ =~= Seq::<u64>::empty());
        }
        r
    }

    /// The slot that serves `id`, creating the next one on first use.
    /// Returns the slot index and whether it was just created.
    pub fn slot_for(&mut self, id: u64) -> (r: (usize, bool))
        requires
            old(self).wf(),
            old(self)@.len() < usize::MAX,
        ensures
            final(self).wf(),
            r.0 < final(self)@.len(),
            final(self)@[r.0 as int] == id,
            old(self)@.contains(id) ==> !r.1 && final(self)@ == old(self)@,
            !old(self)@.contains(id) ==> r.1 && r.0 == old(self)@.len() && final(self)@ == old(
                self,
            )@.push(id),
    {
        let mut k: usize = 0;
        while k < self.ids.len()
            invariant
                k <= self@.len(),
                *self == *old(self),
                self.wf(),
                forall|j: int| 0 <= j < k ==> self@[j] != id,
            decreases self@.len() - k,
        {
            if self.ids[k] == id {
                return (k, false);
            }
            k = k + 1;
        }
        let slot = self.ids.len();
        self.ids.push(id);
        proof {
            assert(self@ == old(self)@.push(id));
        }
        (slot, true)
    }
}

} // verus!
