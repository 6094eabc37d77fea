use netstack::buf::NetBuffer;
use netstack::ip::ip_input;
use netstack::stack::NetStack;
use netstack::timer::{cancel_timer, set_timer, take_expired, TimerAction, TimerList};
use netstack::udp::{udp_open, udp_recv, udp_send};
use netstack::util::{compute_checksum, compute_ones_comp, compute_pseudo_header_checksum, IPAddr,
    NetError};

const LOCAL: [u8; 4] = [10, 0, 0, 2];
const PEER: [u8; 4] = [10, 0, 0, 1];

fn new_stack() -> NetStack {
    let v6 = [0xfeu8, 0x80, 0, 0, 0, 0, 0, 0, 0, 0, 0, 0, 0, 0, 0, 2];
    NetStack::new(IPAddr::new_from(&LOCAL), IPAddr::new_from(&v6))
}

/// A UDP datagram with a valid checksum, as its wire bytes.
fn mk_udp_datagram(
    src: [u8; 4],
    dst: [u8; 4],
    sport: u16,
    dport: u16,
    payload: &[u8],
) -> Vec<u8> {
    let len = (payload.len() + 8) as u16;
    let mut d: Vec<u8> = Vec::new();
    d.extend_from_slice(&sport.to_be_bytes());
    d.extend_from_slice(&dport.to_be_bytes());
    d.extend_from_slice(&len.to_be_bytes());
    d.extend_from_slice(&[0, 0]);
    d.extend_from_slice(payload);
    let ph = compute_pseudo_header_checksum(
        IPAddr::new_from(&src),
        IPAddr::new_from(&dst),
        d.len(),
        17,
    );
    let ck = 0xffff - compute_ones_comp(ph, &d);
    d[6] = (ck >> 8) as u8;
    d[7] = ck as u8;
    d
}

fn mk_ipv4(src: [u8; 4], dst: [u8; 4], proto: u8, payload: &[u8]) -> Vec<u8> {
    let total = (payload.len() + 20) as u16;
    let mut h: Vec<u8> = vec![0x45, 0];
    h.extend_from_slice(&total.to_be_bytes());
    h.extend_from_slice(&[0, 0, 0, 0, 64, proto, 0, 0]);
    h.extend_from_slice(&src);
    h.extend_from_slice(&dst);
    let ck = compute_checksum(&h);
    h[10] = (ck >> 8) as u8;
    h[11] = ck as u8;
    h.extend_from_slice(payload);
    h
}

#[test]
fn test_udp_open_port_in_use() {
    let mut stack = new_stack();
    assert!(udp_open(&mut stack, 8000).is_ok());
    assert_eq!(udp_open(&mut stack, 8000), Err(NetError::PortInUse));
    assert!(udp_open(&mut stack, 8001).is_ok());
}

#[test]
fn test_udp_echo_flow() {
    // A datagram in, read out with its source, and the answer framed
    // with correct ports, length and checksum.
    let mut stack = new_stack();
    let sock = udp_open(&mut stack, 8000).unwrap();

    let payload = [0x61u8, 0x62, 0x63, 0x64];
    let dgram = mk_udp_datagram(PEER, LOCAL, 9000, 8000, &payload);
    let frame = mk_ipv4(PEER, LOCAL, 17, &dgram);
    let mut buf = NetBuffer::new();
    buf.append_from_slice(&frame);
    ip_input(&mut stack, buf, 0);

    let mut data = [0u8; 64];
    let mut src = IPAddr::new();
    let mut sport: u16 = 0;
    let got = udp_recv(&mut stack, sock, &mut data, &mut src, &mut sport);
    assert_eq!(got, 4);
    assert_eq!(&data[..4], &payload);
    assert_eq!(sport, 9000);
    assert!(src.equals(&IPAddr::new_from(&PEER)));

    // Nothing else queued.
    assert_eq!(udp_recv(&mut stack, sock, &mut data, &mut src, &mut sport), -1);

    // Send the payload back and look at the frame.
    assert!(udp_send(&mut stack, sock, IPAddr::new_from(&PEER), 9000, &payload).is_ok());
    let frames = stack.take_outbound();
    assert_eq!(frames.len(), 1);
    let mut out = vec![0u8; frames[0].len()];
    frames[0].copy_to_slice(&mut out);
    assert_eq!(out[9], 17);
    let u = &out[20..];
    assert_eq!(u16::from_be_bytes([u[0], u[1]]), 8000);
    assert_eq!(u16::from_be_bytes([u[2], u[3]]), 9000);
    assert_eq!(u16::from_be_bytes([u[4], u[5]]), 12);
    assert_eq!(&u[8..], &payload);
    let ph = compute_pseudo_header_checksum(
        IPAddr::new_from(&out[12..16]),
        IPAddr::new_from(&out[16..20]),
        u.len(),
        17,
    );
    assert_eq!(compute_ones_comp(ph, u), 0xffff);
}

#[test]
fn test_udp_unknown_port_dropped() {
    let mut stack = new_stack();
    let _sock = udp_open(&mut stack, 8000).unwrap();
    let dgram = mk_udp_datagram(PEER, LOCAL, 9000, 9999, &[1, 2, 3]);
    let frame = mk_ipv4(PEER, LOCAL, 17, &dgram);
    let mut buf = NetBuffer::new();
    buf.append_from_slice(&frame);
    ip_input(&mut stack, buf, 0);
    assert_eq!(stack.take_outbound().len(), 0);
}

#[test]
fn test_set_timer() {
    let mut timers = TimerList::new();
    let id = set_timer(&mut timers, 0, 100, TimerAction::TcpRetransmit { socket: 0 });
    assert!(id >= 1);
    // Not yet expired.
    let fired = take_expired(&mut timers, 99);
    assert_eq!(fired.len(), 0);
    let fired = take_expired(&mut timers, 100);
    assert_eq!(fired.len(), 1);
    assert_eq!(fired[0].id, id);
    // A timer fires at most once.
    let fired = take_expired(&mut timers, 200);
    assert_eq!(fired.len(), 0);
}

#[test]
fn test_cancel_timer() {
    let mut timers = TimerList::new();
    let id = set_timer(&mut timers, 0, 100, TimerAction::TcpDelayedAck { socket: 3 });
    assert_eq!(cancel_timer(&mut timers, id), true);
    // Cancel after the timer is gone reports false.
    assert_eq!(cancel_timer(&mut timers, id), false);
    let fired = take_expired(&mut timers, 1_000);
    assert_eq!(fired.len(), 0);
}

#[test]
fn test_multiple_timers() {
    let mut timers = TimerList::new();
    let slow = set_timer(&mut timers, 0, 500, TimerAction::TcpResponse { socket: 1 });
    let fast = set_timer(&mut timers, 0, 100, TimerAction::TcpTimeWait { socket: 2 });
    assert!(slow != fast);
    let fired = take_expired(&mut timers, 300);
    assert_eq!(fired.len(), 1);
    assert_eq!(fired[0].id, fast);
    let fired = take_expired(&mut timers, 700);
    assert_eq!(fired.len(), 1);
    assert_eq!(fired[0].id, slow);
}

#[test]
fn test_cancel_after_fire() {
    let mut timers = TimerList::new();
    let id = set_timer(&mut timers, 0, 50, TimerAction::TcpRetransmit { socket: 0 });
    let fired = take_expired(&mut timers, 60);
    assert_eq!(fired.len(), 1);
    assert_eq!(cancel_timer(&mut timers, id), false);
}

#[test]
fn test_network_packet_alloc() {
    let p = netstack::packet::alloc_packet();
    assert_eq!(p.length, 0);
    assert_eq!(p.offset, 0);
    assert_eq!(p.data.len(), 2048);
    assert_eq!(p.data[0], 0);
    assert_eq!(p.data[2047], 0);
}

#[test]
fn test_buffer_count_to_memory() {
    assert_eq!(netstack::buf::buffer_count_to_memory(0), 0);
    assert_eq!(netstack::buf::buffer_count_to_memory(3), 1536);
}

#[test]
fn test_icmpv6_echo_reply() {
    // A valid v6 echo request is answered through the v6 path, with the
    // checksum bound to the pseudo-header.
    let mut stack = new_stack();
    let local_v6 = [0xfeu8, 0x80, 0, 0, 0, 0, 0, 0, 0, 0, 0, 0, 0, 0, 0, 2];
    let peer_v6 = [0xfeu8, 0x80, 0, 0, 0, 0, 0, 0, 0, 0, 0, 0, 0, 0, 0, 1];
    let payload = [1u8, 2, 3];
    let mut msg: Vec<u8> = vec![128, 0, 0, 0];
    msg.extend_from_slice(&payload);
    let ph = compute_pseudo_header_checksum(
        IPAddr::new_from(&peer_v6),
        IPAddr::new_from(&local_v6),
        msg.len(),
        58,
    );
    let ck = 0xffff - compute_ones_comp(ph, &msg);
    msg[2] = (ck >> 8) as u8;
    msg[3] = ck as u8;

    let mut frame: Vec<u8> = vec![0x60, 0, 0, 0];
    frame.extend_from_slice(&(msg.len() as u16).to_be_bytes());
    frame.push(58);
    frame.push(64);
    frame.extend_from_slice(&peer_v6);
    frame.extend_from_slice(&local_v6);
    frame.extend_from_slice(&msg);

    let mut buf = NetBuffer::new();
    buf.append_from_slice(&frame);
    ip_input(&mut stack, buf, 0);

    let frames = stack.take_outbound();
    assert_eq!(frames.len(), 1);
    let mut out = vec![0u8; frames[0].len()];
    frames[0].copy_to_slice(&mut out);
    assert_eq!(out[0] >> 4, 6);
    assert_eq!(out[6], 58);
    assert_eq!(&out[8..24], &local_v6);
    assert_eq!(&out[24..40], &peer_v6);
    let icmp = &out[40..];
    assert_eq!(icmp[0], 129);
    assert_eq!(&icmp[4..], &payload);
    let ph = compute_pseudo_header_checksum(
        IPAddr::new_from(&out[8..24]),
        IPAddr::new_from(&out[24..40]),
        icmp.len(),
        58,
    );
    assert_eq!(compute_ones_comp(ph, icmp), 0xffff);
}
