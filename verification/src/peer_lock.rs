//! The single-target mode's peer state: at most one accepted peer per relay
//! instance, learned first-writer-wins, and a FIFO queue of payloads that
//! wait until a target is known.
use vstd::prelude::*;

use crate::registry::PeerAddr;

verus! {

/// Holds the one accepted peer, if known, and the payloads queued while no
/// target existed. Setting the target and draining the queue happen in one
/// step, so a queued payload is delivered exactly once, in submission order.
pub struct SingleTarget {
    target: Option<PeerAddr>,
    pending: Vec<Vec<u8>>,
}

impl SingleTarget {
    /// The locked peer address, if one is known.
    pub closed spec fn spec_target(&self) -> Option<PeerAddr> {
        self.target
    }

    /// The queued payloads, oldest first.
    pub closed spec fn spec_pending(&self) -> Seq<Seq<u8>> {
        self.pending.deep_view()
    }

    /// Once a target is locked, nothing stays queued.
    pub open spec fn wf(&self) -> bool {
        self.spec_target() is Some ==> self.spec_pending().len() == 0
    }

    pub fn new() -> (r: SingleTarget)
        ensures
            r.wf(),
            r.spec_target() is None,
            r.spec_pending() == Seq::<Seq<u8>>::empty(),
    {
        let r = SingleTarget { target: None, pending: Vec::new() };
        proof {
            assert(r.spec_pending() =~~= Seq::<Seq<u8>>::empty());
        }
        r
    }

    /// Submit one outbound payload. With no target known it is queued, in
    /// submission order, and nothing is sent; with a target locked the state
    /// is untouched and the payload is to be sent to that target at once.
    pub fn submit(&mut self, payload: Vec<u8>) -> (r: Option<PeerAddr>)
        requires
            old(self).wf(),
        ensures
            final(self).wf(),
            old(self).spec_target() is None ==> r is None && final(self).spec_target() is None
                && final(self).spec_pending() == old(self).spec_pending().push(payload@),
            old(self).spec_target() is Some ==> r == old(self).spec_target() && *final(self)
                == *old(self),
    {
        match self.target {
            Some(t) => Some(t),
            None => {
                let ghost before = self.pending.deep_view();
                self.pending.push(payload);
                proof {
                    assert(self.pending.deep_view() =~~= before.push(payload@));
                }
                None
            },
        }
    }

    /// Record an inbound datagram's source. The first source seen locks the
    /// target and releases every queued payload, oldest first; afterwards a
    /// datagram is accepted exactly when it comes from the locked peer, and
    /// one from anywhere else changes nothing. Returns whether to relay the
    /// datagram, and the payloads to send now to the locked target.
    pub fn on_inbound(&mut self, src: PeerAddr) -> (r: (bool, Vec<Vec<u8>>))
        requires
            old(self).wf(),
        ensures
            final(self).wf(),
            old(self).spec_target() is None ==> final(self).spec_target() == Some(src) && r.0
                && r.1.deep_view() == old(self).spec_pending() && final(self).spec_pending().len()
                == 0,
            old(self).spec_target() is Some ==> *final(self) == *old(self) && r.1@.len() == 0 && (
            r.0 <==> old(self).spec_target() == Some(src)),
    {
        match self.target {
            Some(t) => {
                let hit = t == src;
                (hit, Vec::new())
            },
            None => {
                self.target = Some(src);
                let mut flush: Vec<Vec<u8>> = Vec::new();
                core::mem::swap(&mut flush, &mut self.pending);
                proof {
                    assert(self.spec_pending() =~~= Seq::<Seq<u8>>::empty());
                }
                (true, flush)
            },
        }
    }

    /// Lock an explicitly resolved target (the sender role's startup
    /// argument). First writer wins, exactly as for a learned address, and
    /// the queued payloads are released to it in submission order.
    pub fn set_target(&mut self, t: PeerAddr) -> (flush: Vec<Vec<u8>>)
        requires
            old(self).wf(),
        ensures
            final(self).wf(),
            old(self).spec_target() is None ==> final(self).spec_target() == Some(t)
                && flush.deep_view() == old(self).spec_pending()
                && final(self).spec_pending().len() == 0,
            old(self).spec_target() is Some ==> *final(self) == *old(self) && flush@.len() == 0,
    {
        match self.target {
            Some(_) => Vec::new(),
            None => {
                self.target = Some(t);
                let mut flush: Vec<Vec<u8>> = Vec::new();
                core::mem::swap(&mut flush, &mut self.pending);
                proof {
                    assert(self.spec_pending() =~~= Seq::<Seq<u8>>::empty());
                }
                flush
            },
        }
    }
}

} // verus!
