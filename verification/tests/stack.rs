use swtcp6::addr::Ipv6Addr;
use swtcp6::device::{DeviceError, VirtualNIC};
use swtcp6::intf::{Interface, SocketHandle};
use swtcp6::packet::{emit, parse, checksum_valid, Segment, FLAG_ACK, FLAG_SYN};
use swtcp6::socket::TcpState;
use swtcp6::{AddressError, ConnectError, ListenError, RecvError, SendError};

fn addr(last: u8) -> Ipv6Addr {
    let mut b = [0u8; 16];
    b[0] = 0xfe;
    b[1] = 0x80;
    b[15] = last;
    Ipv6Addr::from_bytes(b)
}

fn mk_interface(last: u8) -> Interface {
    Interface::new(VirtualNIC::new(1500), addr(last), 64).unwrap()
}

/// Move every queued outbound packet of `from` into `to`.
fn transfer(from: &mut Interface, to: &mut Interface) {
    while let Some(p) = from.take_outbound() {
        to.inject(p).unwrap();
    }
}

/// Alternate polls and packet transfers until the medium quiesces.
fn pump(a: &mut Interface, b: &mut Interface, now: &mut u64) {
    for _ in 0..40 {
        a.poll(*now);
        b.poll(*now);
        transfer(a, b);
        transfer(b, a);
        *now += 1;
    }
}

/// A pair of interfaces with an established connection between them.
fn established() -> (Interface, Interface, SocketHandle, SocketHandle, u64) {
    let mut a = mk_interface(1);
    let mut b = mk_interface(2);
    let hb = b.listen(7777).unwrap();
    let ha = a.connect(addr(2), 7777).unwrap();
    let mut now: u64 = 1000;
    pump(&mut a, &mut b, &mut now);
    assert_eq!(a.state_of(ha), Some(TcpState::ESTABLISHED));
    assert_eq!(b.state_of(hb), Some(TcpState::ESTABLISHED));
    (a, b, ha, hb, now)
}

#[test]
fn construction_accepts_every_prefix_up_to_128() {
    for p in 0..=128u16 {
        let r = Interface::new(VirtualNIC::new(1500), addr(1), p as u8);
        assert!(r.is_ok());
    }
}

#[test]
fn construction_rejects_prefix_over_128() {
    for p in [129u8, 130, 200, 255] {
        let r = Interface::new(VirtualNIC::new(1500), addr(1), p);
        assert_eq!(r.err(), Some(AddressError::PrefixTooLong));
    }
}

#[test]
fn netmask_contiguous_masks_accepted() {
    let mut m = [0u8; 16];
    for i in 0..8 {
        m[i] = 0xFF;
    }
    let r = Interface::new_with_netmask(VirtualNIC::new(1500), addr(1), Ipv6Addr::from_bytes(m));
    assert_eq!(r.unwrap().prefix_len, 64);

    let mut m2 = [0u8; 16];
    m2[0] = 0xFF;
    m2[1] = 0xE0;
    let r2 = Interface::new_with_netmask(VirtualNIC::new(1500), addr(1), Ipv6Addr::from_bytes(m2));
    assert_eq!(r2.unwrap().prefix_len, 11);

    let all = Ipv6Addr::from_bytes([0xFF; 16]);
    let r3 = Interface::new_with_netmask(VirtualNIC::new(1500), addr(1), all);
    assert_eq!(r3.unwrap().prefix_len, 128);

    let none = Ipv6Addr::from_bytes([0u8; 16]);
    let r4 = Interface::new_with_netmask(VirtualNIC::new(1500), addr(1), none);
    assert_eq!(r4.unwrap().prefix_len, 0);
}

#[test]
fn netmask_broken_bit_patterns_rejected() {
    let mut m = [0u8; 16];
    m[0] = 0xFF;
    m[2] = 0xFF;
    let r = Interface::new_with_netmask(VirtualNIC::new(1500), addr(1), Ipv6Addr::from_bytes(m));
    assert_eq!(r.err(), Some(AddressError::NonContiguousMask));

    let mut m2 = [0u8; 16];
    m2[0] = 0x55;
    let r2 = Interface::new_with_netmask(VirtualNIC::new(1500), addr(1), Ipv6Addr::from_bytes(m2));
    assert_eq!(r2.err(), Some(AddressError::NonContiguousMask));
}

#[test]
fn device_rejects_oversize_packet_and_keeps_order() {
    let mut nic = VirtualNIC::new(100);
    assert_eq!(nic.extend_rx_buffer(vec![0u8; 101]), Err(DeviceError::Oversize));
    assert_eq!(nic.extend_rx_buffer(vec![1u8; 10]), Ok(()));
    assert_eq!(nic.extend_rx_buffer(vec![2u8; 10]), Ok(()));
    assert!(!nic.can_consume_tx_buffer());
    let first = nic.receive().unwrap().consume();
    assert_eq!(first, vec![1u8; 10]);
}

#[test]
fn emitted_packets_carry_a_balanced_checksum() {
    let seg = Segment {
        src_addr: addr(1),
        dst_addr: addr(2),
        src_port: 49200,
        dst_port: 8080,
        seq: 0x01020304,
        ack: 0,
        flags: FLAG_SYN,
        window: 4096,
        payload: vec![0xAA, 0xBB, 0xCC],
    };
    let bytes = emit(&seg);
    assert_eq!(bytes.len(), 63);
    assert!(checksum_valid(&bytes));
    let back = parse(&bytes).unwrap();
    assert_eq!(back.src_port, 49200);
    assert_eq!(back.dst_port, 8080);
    assert_eq!(back.seq, 0x01020304);
    assert_eq!(back.flags, FLAG_SYN);
    assert_eq!(back.window, 4096);
    assert_eq!(back.payload, vec![0xAA, 0xBB, 0xCC]);
    assert_eq!(back.src_addr.bytes(), addr(1).bytes());
    assert_eq!(back.dst_addr.bytes(), addr(2).bytes());

    let mut corrupted = bytes.clone();
    corrupted[62] ^= 0x01;
    assert!(!checksum_valid(&corrupted));
}

#[test]
fn checksum_matches_an_independent_computation() {
    let seg = Segment {
        src_addr: addr(1),
        dst_addr: addr(2),
        src_port: 1,
        dst_port: 2,
        seq: 3,
        ack: 4,
        flags: FLAG_ACK,
        window: 5,
        payload: vec![0x10, 0x20],
    };
    let bytes = emit(&seg);
    // Recompute the one's-complement checksum from scratch: pseudo-header
    // (addresses, TCP length, protocol 6) plus the TCP segment with a
    // zeroed checksum field.
    let mut sum: u64 = 6 + (bytes.len() as u64 - 40);
    let mut i = 8;
    while i < bytes.len() {
        if i == 56 {
            i += 2;
            continue;
        }
        let hi = bytes[i] as u64;
        let lo = if i + 1 < bytes.len() { bytes[i + 1] as u64 } else { 0 };
        sum += hi * 256 + lo;
        i += 2;
    }
    while sum > 0xFFFF {
        sum = (sum & 0xFFFF) + (sum >> 16);
    }
    let expected = 0xFFFFu64 - sum;
    let stored = (bytes[56] as u64) * 256 + bytes[57] as u64;
    assert_eq!(stored, expected);
}

#[test]
fn connect_picks_an_ephemeral_source_port() {
    let mut a = mk_interface(1);
    let _h = a.connect(addr(2), 80).unwrap();
    a.poll(1000);
    let syn = parse(&a.take_outbound().unwrap()).unwrap();
    assert!(syn.flags & FLAG_SYN != 0);
    assert!(syn.src_port >= 49152);
    assert_eq!(syn.dst_port, 80);
}

#[test]
fn syn_to_listening_port_yields_syn_received_and_syn_ack() {
    // Interface at fe80::1/64, listening on 8080; a SYN arrives from
    // fe80::2, source port 49200.
    let mut intf = Interface::new(VirtualNIC::new(1500), addr(1), 64).unwrap();
    let h = intf.listen(8080).unwrap();
    assert_eq!(intf.state_of(h), Some(TcpState::LISTEN));
    let syn = Segment {
        src_addr: addr(2),
        dst_addr: addr(1),
        src_port: 49200,
        dst_port: 8080,
        seq: 12345,
        ack: 0,
        flags: FLAG_SYN,
        window: 8192,
        payload: Vec::new(),
    };
    intf.inject(emit(&syn)).unwrap();
    intf.poll(1000);
    assert_eq!(intf.state_of(h), Some(TcpState::SYN_RECEIVED));
    assert!(intf.has_pending_outbound());
    let out = intf.take_outbound().unwrap();
    let reply = parse(&out).unwrap();
    assert!(reply.flags & FLAG_SYN != 0);
    assert!(reply.flags & FLAG_ACK != 0);
    assert_eq!(reply.ack, 12346);
    assert_eq!(reply.src_port, 8080);
    assert_eq!(reply.dst_port, 49200);
    assert_eq!(reply.dst_addr.bytes(), addr(2).bytes());
}

#[test]
fn two_interfaces_establish_and_deliver_hello() {
    let (mut a, mut b, ha, hb, mut now) = established();
    let n = a.send(ha, b"hello").unwrap();
    assert_eq!(n, 5);
    pump(&mut a, &mut b, &mut now);
    let got = b.recv(hb).unwrap();
    assert_eq!(got, b"hello".to_vec());
}

#[test]
fn bytes_arrive_in_order_across_many_sends() {
    let (mut a, mut b, ha, hb, mut now) = established();
    let mut expected = Vec::new();
    for round in 0..5u8 {
        let chunk: Vec<u8> = (0..100u8).map(|x| x.wrapping_add(round)).collect();
        expected.extend_from_slice(&chunk);
        assert_eq!(a.send(ha, &chunk).unwrap(), 100);
        pump(&mut a, &mut b, &mut now);
    }
    let got = b.recv(hb).unwrap();
    assert_eq!(got, expected);
}

#[test]
fn send_never_exceeds_available_room() {
    let (mut a, mut _b, ha, _hb, _now) = established();
    let avail = a.send_buf_available(ha).unwrap();
    assert_eq!(avail, 65535);
    let big = vec![7u8; 70000];
    let n = a.send(ha, &big).unwrap();
    assert_eq!(n, avail);
    assert_eq!(a.send_buf_available(ha).unwrap(), 0);
    let n2 = a.send(ha, b"more").unwrap();
    assert_eq!(n2, 0);
}

#[test]
fn close_is_idempotent() {
    let (mut a, mut _b, ha, _hb, _now) = established();
    assert!(a.close(ha));
    assert_eq!(a.state_of(ha), Some(TcpState::FIN_WAIT_1));
    assert!(a.close(ha));
    assert_eq!(a.state_of(ha), Some(TcpState::FIN_WAIT_1));
}

#[test]
fn graceful_close_walks_the_automaton_to_closed() {
    let (mut a, mut b, ha, hb, mut now) = established();
    a.close(ha);
    assert_eq!(a.state_of(ha), Some(TcpState::FIN_WAIT_1));
    pump(&mut a, &mut b, &mut now);
    assert_eq!(a.state_of(ha), Some(TcpState::FIN_WAIT_2));
    assert_eq!(b.state_of(hb), Some(TcpState::CLOSE_WAIT));
    b.close(hb);
    pump(&mut a, &mut b, &mut now);
    assert_eq!(b.state_of(hb), Some(TcpState::CLOSED));
    assert_eq!(a.state_of(ha), Some(TcpState::TIME_WAIT));
    // TIME_WAIT expires on its own, with no further application input.
    a.poll(now + 20000);
    assert_eq!(a.state_of(ha), Some(TcpState::CLOSED));
}

#[test]
fn recv_reports_finished_once_peer_closed_and_drained() {
    let (mut a, mut b, ha, hb, mut now) = established();
    a.send(ha, b"last words").unwrap();
    a.close(ha);
    pump(&mut a, &mut b, &mut now);
    // The peer closed, but buffered bytes are still readable first.
    assert_eq!(b.state_of(hb), Some(TcpState::CLOSE_WAIT));
    assert_eq!(b.recv(hb).unwrap(), b"last words".to_vec());
    // With the ring drained, the end of the stream is reported.
    assert_eq!(b.recv(hb).err(), Some(RecvError::Finished));
    assert_eq!(b.recv(hb).err(), Some(RecvError::Finished));
}

#[test]
fn consume_tx_buffer_drains_the_whole_outbound_queue() {
    let mut intf = Interface::new(VirtualNIC::new(1500), addr(1), 64).unwrap();
    let h1 = intf.listen(8080).unwrap();
    let h2 = intf.listen(9090).unwrap();
    let syn = |port: u16| Segment {
        src_addr: addr(2),
        dst_addr: addr(1),
        src_port: 49200,
        dst_port: port,
        seq: 1,
        ack: 0,
        flags: FLAG_SYN,
        window: 8192,
        payload: Vec::new(),
    };
    intf.inject(emit(&syn(8080))).unwrap();
    intf.inject(emit(&syn(9090))).unwrap();
    intf.poll(1000);
    intf.poll(1001);
    // Two un-drained polls left two SYN-ACKs queued; the device drain
    // returns both at once, oldest first, and clears the queue.
    let drained = intf.device.consume_tx_buffer();
    assert_eq!(drained.len(), 2);
    assert_eq!(parse(&drained[0]).unwrap().src_port, 8080);
    assert_eq!(parse(&drained[1]).unwrap().src_port, 9090);
    assert!(!intf.has_pending_outbound());
    assert!(intf.take_outbound().is_none());
    let _ = (h1, h2);
}

#[test]
fn abort_closes_immediately_and_clears_buffers() {
    let (mut a, mut _b, ha, _hb, _now) = established();
    a.send(ha, b"pending bytes").unwrap();
    assert!(a.abort(ha));
    assert_eq!(a.state_of(ha), Some(TcpState::CLOSED));
    assert_eq!(a.send_buf_available(ha).unwrap(), 65535);
    // The forced termination owes the peer a reset.
    a.poll(5000);
    let out = a.take_outbound().unwrap();
    let seg = parse(&out).unwrap();
    assert!(seg.flags & swtcp6::packet::FLAG_RST != 0);
}

#[test]
fn abort_from_syn_sent_goes_to_closed() {
    let mut a = mk_interface(1);
    let ha = a.connect(addr(2), 80).unwrap();
    assert_eq!(a.state_of(ha), Some(TcpState::SYN_SENT));
    assert!(a.abort(ha));
    assert_eq!(a.state_of(ha), Some(TcpState::CLOSED));
}

#[test]
fn connect_rejects_port_zero() {
    let mut a = mk_interface(1);
    assert_eq!(a.connect(addr(2), 0).err(), Some(ConnectError::BadPort));
}

#[test]
fn listen_rejects_port_zero() {
    let mut a = mk_interface(1);
    assert_eq!(a.listen(0).err(), Some(ListenError::BadPort));
}

#[test]
fn registry_fills_up_and_frees_on_remove() {
    let mut a = mk_interface(1);
    let mut handles = Vec::new();
    for _ in 0..64 {
        handles.push(a.connect(addr(2), 80).unwrap());
    }
    assert_eq!(a.connect(addr(2), 80).err(), Some(ConnectError::RegistryFull));
    assert_eq!(a.listen(8080).err(), Some(ListenError::RegistryFull));
    assert!(a.remove(handles[0]));
    assert!(a.connect(addr(2), 80).is_ok());
}

#[test]
fn stale_handles_are_detected() {
    let mut a = mk_interface(1);
    let h = a.connect(addr(2), 80).unwrap();
    assert!(a.remove(h));
    assert!(!a.remove(h));
    assert_eq!(a.state_of(h), None);
    assert_eq!(a.send(h, b"x").err(), Some(SendError::BadHandle));
    assert_eq!(a.recv(h).err(), Some(RecvError::BadHandle));
    // The slot is reused under a new generation; the old handle stays dead.
    let h2 = a.connect(addr(2), 80).unwrap();
    assert_eq!(h2.index, h.index);
    assert_ne!(h2.generation, h.generation);
    assert_eq!(a.state_of(h), None);
}

#[test]
fn send_and_recv_reject_wrong_states() {
    let mut a = mk_interface(1);
    let h = a.listen(8080).unwrap();
    assert_eq!(a.send(h, b"x").err(), Some(SendError::InvalidState));
    assert_eq!(a.recv(h).err(), Some(RecvError::InvalidState));
    let hc = a.connect(addr(2), 80).unwrap();
    assert_eq!(a.send(hc, b"x").err(), Some(SendError::InvalidState));
}

#[test]
fn readiness_queries_follow_the_state() {
    let (mut a, mut b, ha, hb, mut now) = established();
    assert!(a.can_send(ha));
    assert!(a.may_send(ha));
    assert!(a.may_recv(ha));
    assert!(!a.can_recv(ha));
    a.send(ha, b"ping").unwrap();
    pump(&mut a, &mut b, &mut now);
    assert!(b.can_recv(hb));
    b.close(hb);
    assert!(!b.may_send(hb));
    pump(&mut a, &mut b, &mut now);
    // The peer closed its side: no more bytes will arrive at `a`.
    assert!(!a.may_recv(ha));
    assert!(a.may_send(ha));
}

#[test]
fn poll_delay_reflects_pending_work() {
    let mut a = mk_interface(1);
    assert_eq!(a.poll_delay(1000), None);
    let ha = a.connect(addr(2), 80).unwrap();
    // The SYN is ready to go out at once.
    assert_eq!(a.poll_delay(1000), Some(0));
    a.poll(1000);
    transfer_discard(&mut a);
    // Now only the retransmission timer is pending.
    let d = a.poll_delay(1200).unwrap();
    assert!(d > 0 && d <= 1000, "delay was {d}");
    let _ = ha;
}

fn transfer_discard(x: &mut Interface) {
    while let Some(_p) = x.take_outbound() {}
}

#[test]
fn keep_alive_interval_is_stored_and_cleared() {
    let (mut a, mut _b, ha, _hb, _now) = established();
    assert_eq!(a.get_keep_alive(ha), Some(None));
    assert!(a.set_keep_alive(ha, Some(30000)));
    assert_eq!(a.get_keep_alive(ha), Some(Some(30000)));
    assert!(a.set_keep_alive(ha, None));
    assert_eq!(a.get_keep_alive(ha), Some(None));
}

#[test]
fn keep_alive_probes_then_resets_a_silent_peer() {
    let (mut a, mut _b, ha, _hb, now) = established();
    a.set_keep_alive(ha, Some(1000));
    let mut t = now;
    // The peer stays silent; probes go out, and the connection resets.
    for _ in 0..20 {
        t += 2000;
        a.poll(t);
        transfer_discard(&mut a);
    }
    assert_eq!(a.state_of(ha), Some(TcpState::CLOSED));
}

#[test]
fn lost_packet_is_retransmitted() {
    let mut a = mk_interface(1);
    let mut b = mk_interface(2);
    let hb = b.listen(7777).unwrap();
    let ha = a.connect(addr(2), 7777).unwrap();
    let mut now: u64 = 1000;
    // The first SYN is lost on the medium.
    a.poll(now);
    let lost = a.take_outbound().unwrap();
    let seg = parse(&lost).unwrap();
    assert!(seg.flags & FLAG_SYN != 0);
    // After the retransmission interval the SYN goes out again, and the
    // handshake completes.
    now += 1500;
    pump(&mut a, &mut b, &mut now);
    assert_eq!(a.state_of(ha), Some(TcpState::ESTABLISHED));
    assert_eq!(b.state_of(hb), Some(TcpState::ESTABLISHED));
}

#[test]
fn malformed_and_misaddressed_packets_are_dropped_silently() {
    let mut a = mk_interface(1);
    let h = a.listen(8080).unwrap();
    // Garbage bytes.
    a.inject(vec![0u8; 80]).unwrap();
    a.poll(1000);
    assert_eq!(a.state_of(h), Some(TcpState::LISTEN));
    assert!(!a.has_pending_outbound());
    // A well-formed SYN for somebody else's address.
    let syn = Segment {
        src_addr: addr(2),
        dst_addr: addr(9),
        src_port: 49200,
        dst_port: 8080,
        seq: 1,
        ack: 0,
        flags: FLAG_SYN,
        window: 8192,
        payload: Vec::new(),
    };
    a.inject(emit(&syn)).unwrap();
    a.poll(1001);
    assert_eq!(a.state_of(h), Some(TcpState::LISTEN));
    assert!(!a.has_pending_outbound());
    // A SYN with a broken checksum.
    let mut bad = emit(&Segment { dst_addr: addr(1), ..syn });
    bad[57] ^= 0xFF;
    a.inject(bad).unwrap();
    a.poll(1002);
    assert_eq!(a.state_of(h), Some(TcpState::LISTEN));
    assert!(!a.has_pending_outbound());
}

#[test]
fn partial_send_data_still_arrives_in_order() {
    let (mut a, mut b, ha, hb, mut now) = established();
    // Fill the send buffer completely, then pump everything across.
    let big: Vec<u8> = (0..70000u32).map(|x| (x % 251) as u8).collect();
    let n = a.send(ha, &big).unwrap();
    assert_eq!(n, 65535);
    let mut received: Vec<u8> = Vec::new();
    for _ in 0..30 {
        pump(&mut a, &mut b, &mut now);
        received.extend_from_slice(&b.recv(hb).unwrap());
    }
    assert_eq!(received.len(), 65535);
    assert_eq!(received, big[..65535].to_vec());
}
