//! The relay engine's per-event decisions: what one input line or one
//! inbound datagram means for the shared peer state, and which failures are
//! fatal. The runner performs the socket and stream operations and feeds
//! their outcomes back in.
use vstd::prelude::*;

use crate::frame::{
    encode_frame, encode_plain, parse_frame, spec_encode_frame, spec_encode_plain,
    spec_parse_frame, FrameError,
};
use crate::peer_lock::SingleTarget;
use crate::registry::{PeerAddr, PeerRegistry};

verus! {

/// Largest possible UDP payload. Receive buffers must hold this much, so a
/// datagram is never truncated.
pub const MAX_DATAGRAM: usize = 65535;

/// An unrecoverable relay failure; the process stops at the first one.
#[derive(Clone, Copy, Debug, PartialEq, Eq, Structural)]
pub enum RelayError {
    /// An input line could not be decoded.
    Frame(FrameError),
    /// The controlling process addressed a session id never learned.
    UnknownId,
    /// A datagram write wrote fewer bytes than the datagram holds.
    PacketBoundary,
}

impl RelayError {
    /// The description the runner prints on the error channel.
    pub fn message(&self) -> (r: &'static str)
        ensures
            *self is PacketBoundary ==> r@ == "packet boundary broken"@,
            *self is UnknownId ==> r@ == "unknown session id"@,
            *self == RelayError::Frame(FrameError::Format) ==> r@ == "invalid frame format"@,
            *self == RelayError::Frame(FrameError::BadId) ==> r@ == "invalid session id"@,
            *self == RelayError::Frame(FrameError::BadBase64) ==> r@ == "invalid base64 payload"@,
    {
        match self {
            RelayError::Frame(FrameError::Format) => "invalid frame format",
            RelayError::Frame(FrameError::BadId) => "invalid session id",
            RelayError::Frame(FrameError::BadBase64) => "invalid base64 payload",
            RelayError::UnknownId => "unknown session id",
            RelayError::PacketBoundary => "packet boundary broken",
        }
    }
}

/// UDP is datagram-atomic: a send that reports fewer bytes written than the
/// datagram holds broke a packet boundary, a fatal local fault.
pub fn check_send_complete(requested: usize, written: usize) -> (r: Result<(), RelayError>)
    ensures
        requested == written <==> r is Ok,
        requested != written ==> r == Err::<(), RelayError>(RelayError::PacketBoundary),
{
    if requested == written {
        Ok(())
    } else {
        Err(RelayError::PacketBoundary)
    }
}

/// One listener-mode input line: parse `<id>:<base64>` and resolve the id
/// against the learned peers. Yields the datagram to send and its
/// destination, or the fatal error — an unknown id never invents one.
pub fn listener_outbound(reg: &PeerRegistry, line: &[u8]) -> (r: Result<
    (PeerAddr, Vec<u8>),
    RelayError,
>)
    ensures
        (r matches Ok((a, p)) ==> (match spec_parse_frame(line@) {
            Ok((id, pl)) => p@ == pl && (id as int) < reg@.len() && a == reg@[id as int],
            Err(_) => false,
        })),
        (r matches Err(e) ==> (match spec_parse_frame(line@) {
            Ok((id, pl)) => e == RelayError::UnknownId && (id as int) >= reg@.len(),
            Err(fe) => e == RelayError::Frame(fe),
        })),
{
    match parse_frame(line) {
        Err(e) => Err(RelayError::Frame(e)),
        Ok((id, p)) => {
            if id < (reg.len() as u64) {
                match reg.addr_of(id as usize) {
                    Some(a) => Ok((a, p)),
                    None => {
                        // unreachable: the registry holds an address for
                        // every id below its length
                        proof {
                            assert(false);
                        }
                        Err(RelayError::UnknownId)
                    },
                }
            } else {
                Err(RelayError::UnknownId)
            }
        },
    }
}

/// One listener-mode inbound datagram: learn (or recall) the source's
/// session id — the id the listener itself assigned, whatever id the remote
/// sender used — and build the output line reporting the payload under it.
pub fn listener_inbound(reg: &mut PeerRegistry, src: PeerAddr, payload: &[u8]) -> (r: (
    usize,
    Vec<u8>,
))
    requires
        old(reg).wf(),
        old(reg)@.len() < usize::MAX,
    ensures
        final(reg).wf(),
        r.0 < final(reg)@.len() && final(reg)@[r.0 as int] == src,
        old(reg)@.contains(src) ==> final(reg)@ == old(reg)@ && (forall|j: int|
            0 <= j < r.0 ==> final(reg)@[j] != src),
        !old(reg)@.contains(src) ==> r.0 == old(reg)@.len() && final(reg)@ == old(reg)@.push(src),
        r.1@ == spec_encode_frame(r.0 as u64, payload@),
{
    let id = reg.lookup_or_insert(src);
    let line = encode_frame(id as u64, payload);
    (id, line)
}

/// One single-target-mode inbound datagram: the first source locks the
/// target, an accepted datagram becomes an output line, one from any other
/// peer is dropped silently, and payloads queued while no target existed
/// come back to be sent now to the locked peer, oldest first.
pub fn single_inbound(st: &mut SingleTarget, src: PeerAddr, payload: &[u8]) -> (r: (
    Option<Vec<u8>>,
    Vec<Vec<u8>>,
))
    requires
        old(st).wf(),
    ensures
        final(st).wf(),
        old(st).spec_target() is None ==> final(st).spec_target() == Some(src) && (
        r.0 matches Some(l) && l@ == spec_encode_plain(payload@)) && r.1.deep_view() == old(
            st,
        ).spec_pending() && final(st).spec_pending().len() == 0,
        old(st).spec_target() is Some ==> *final(st) == *old(st) && r.1@.len() == 0 && (if old(
            st,
        ).spec_target() == Some(src) {
            r.0 matches Some(l) && l@ == spec_encode_plain(payload@)
        } else {
            r.0 is None
        }),
{
    let (accept, flush) = st.on_inbound(src);
    let line = if accept {
        Some(encode_plain(payload))
    } else {
        None
    };
    (line, flush)
}

} // verus!

