//! Peer management: the listener's registry, the sender's client table,
//! the single-target lock with its pending queue, and the engine decisions.
use udp_relay::peer_lock::SingleTarget;
use udp_relay::registry::{ClientTable, PeerAddr, PeerRegistry};
use udp_relay::relay::{
    check_send_complete, listener_inbound, listener_outbound, single_inbound, RelayError,
    MAX_DATAGRAM,
};

fn addr(ip: u128, port: u16) -> PeerAddr {
    PeerAddr { ip, port }
}

#[test]
fn registry_arrival_order() {
    // inbound datagrams from A1, A2, A1, A3 get ids 0, 1, 0, 2
    let a1 = addr(1, 1000);
    let a2 = addr(2, 1000);
    let a3 = addr(1, 1001);
    let mut reg = PeerRegistry::new();
    assert_eq!(reg.lookup_or_insert(a1), 0);
    assert_eq!(reg.lookup_or_insert(a2), 1);
    assert_eq!(reg.lookup_or_insert(a1), 0);
    assert_eq!(reg.lookup_or_insert(a3), 2);
    // stable across repeats
    assert_eq!(reg.lookup_or_insert(a2), 1);
    assert_eq!(reg.len(), 3);
}

#[test]
fn registry_lookup() {
    let a = addr(10, 9);
    let mut reg = PeerRegistry::new();
    assert_eq!(reg.id_of(a), None);
    let id = reg.lookup_or_insert(a);
    assert_eq!(reg.id_of(a), Some(id));
    assert_eq!(reg.addr_of(id), Some(a));
    // an unknown id yields nothing, never an invented address
    assert_eq!(reg.addr_of(5), None);
}

#[test]
fn client_table_one_slot_per_id() {
    let mut t = ClientTable::new();
    assert_eq!(t.slot_for(5), (0, true));
    assert_eq!(t.slot_for(5), (0, false));
    assert_eq!(t.slot_for(9), (1, true));
    assert_eq!(t.slot_for(5), (0, false));
    assert_eq!(t.slot_for(9), (1, false));
}

#[test]
fn single_target_first_writer_wins() {
    let a = addr(1, 1);
    let b = addr(2, 2);
    let mut st = SingleTarget::new();
    let (accept, flush) = st.on_inbound(a);
    assert!(accept);
    assert!(flush.is_empty());
    // a second, different peer is dropped and does not take the target over
    let (accept, flush) = st.on_inbound(b);
    assert!(!accept);
    assert!(flush.is_empty());
    // the locked peer stays accepted
    let (accept, _) = st.on_inbound(a);
    assert!(accept);
    // outbound traffic still goes to the first peer
    assert_eq!(st.submit(b"x".to_vec()), Some(a));
}

#[test]
fn single_target_queue_drains_once_in_order() {
    let t = addr(0x0a000005, 4000);  // 10.0.0.5:4000
    let mut st = SingleTarget::new();
    // no target known: payloads queue and nothing is sent
    assert_eq!(st.submit(b"hi".to_vec()), None);
    assert_eq!(st.submit(b"there".to_vec()), None);
    // the first inbound datagram locks the target and releases the queue
    let (accept, flush) = st.on_inbound(t);
    assert!(accept);
    assert_eq!(flush, vec![b"hi".to_vec(), b"there".to_vec()]);
    // exactly once: nothing is released again
    let (_, flush) = st.on_inbound(t);
    assert!(flush.is_empty());
    // later payloads bypass the queue
    assert_eq!(st.submit(b"now".to_vec()), Some(t));
}

#[test]
fn single_target_explicit_target() {
    let t = addr(7, 70);
    let u = addr(8, 80);
    let mut st = SingleTarget::new();
    assert_eq!(st.submit(b"early".to_vec()), None);
    let flush = st.set_target(t);
    assert_eq!(flush, vec![b"early".to_vec()]);
    // the target is immutable once set
    let flush = st.set_target(u);
    assert!(flush.is_empty());
    assert_eq!(st.submit(b"later".to_vec()), Some(t));
}

#[test]
fn short_write_is_packet_boundary_broken() {
    assert!(check_send_complete(5, 5).is_ok());
    let e = check_send_complete(5, 4).unwrap_err();
    assert_eq!(e, RelayError::PacketBoundary);
    assert_eq!(e.message(), "packet boundary broken");
}

#[test]
fn listener_assigns_its_own_id() {
    // process B sends `0:aGVsbG8=`; listener A reports the payload under the
    // id A itself assigned (0 for A's first peer), whatever id B used
    let b_addr = addr(0x7f000001, 35000);
    let mut reg = PeerRegistry::new();
    let (id, line) = listener_inbound(&mut reg, b_addr, b"hello");
    assert_eq!(id, 0);
    assert_eq!(line, b"0:aGVsbG8=\n".to_vec());
    // the same peer keeps its id
    let (id, line) = listener_inbound(&mut reg, b_addr, b"again");
    assert_eq!(id, 0);
    assert_eq!(line, b"0:YWdhaW4=\n".to_vec());
}

#[test]
fn listener_outbound_resolves_ids() {
    let b_addr = addr(0x7f000001, 35000);
    let mut reg = PeerRegistry::new();
    let _ = listener_inbound(&mut reg, b_addr, b"hello");
    let (dest, payload) = listener_outbound(&reg, b"0:aGk=\n").unwrap();
    assert_eq!(dest, b_addr);
    assert_eq!(payload, b"hi".to_vec());
    // an id the listener never assigned is a failure, not an address
    assert_eq!(
        listener_outbound(&reg, b"7:aGk=\n"),
        Err(RelayError::UnknownId)
    );
    // a malformed line is a fatal frame error
    assert!(matches!(
        listener_outbound(&reg, b"zz\n"),
        Err(RelayError::Frame(_))
    ));
}

#[test]
fn single_target_sender_flow() {
    // sender towards 10.0.0.5:4000: input `aGk=` before any reply queues;
    // the first datagram from the target releases the queued `hi` exactly
    // once, and the reply itself is reported on output
    let t = addr(0x0a000005, 4000);
    let mut st = SingleTarget::new();
    assert_eq!(st.submit(b"hi".to_vec()), None);
    let (line, flush) = single_inbound(&mut st, t, b"pong");
    assert_eq!(line, Some(b"cG9uZw==\n".to_vec()));
    assert_eq!(flush, vec![b"hi".to_vec()]);
    // an intruder is dropped: no output line, no state change
    let intruder = addr(9, 9);
    let (line, flush) = single_inbound(&mut st, intruder, b"spoof");
    assert_eq!(line, None);
    assert!(flush.is_empty());
    // the locked peer is still served
    let (line, flush) = single_inbound(&mut st, t, b"pong");
    assert_eq!(line, Some(b"cG9uZw==\n".to_vec()));
    assert!(flush.is_empty());
}

#[test]
fn end_to_end_multiplexed() {
    // process A listens; process B sends. B is fed `0:aGVsbG8=`.
    let mut b_table = ClientTable::new();
    let (b_id, b_payload) = udp_relay::frame::parse_frame(b"0:aGVsbG8=\n").unwrap();
    let (slot, created) = b_table.slot_for(b_id);
    assert!(created);
    // B's datagram `hello` leaves the socket of slot 0 and reaches A, which
    // assigns its own id 0 to B's source address — A's printed id is A's,
    // independent of the id B used
    let b_src = addr(0x7f000001, 40123);
    let mut a_reg = PeerRegistry::new();
    let (a_id, a_line) = listener_inbound(&mut a_reg, b_src, &b_payload);
    assert_eq!(a_id, 0);
    assert_eq!(a_line, b"0:aGVsbG8=\n".to_vec());
    let _ = slot;
}

#[test]
fn max_datagram_covers_udp() {
    assert_eq!(MAX_DATAGRAM, 65535);
}
