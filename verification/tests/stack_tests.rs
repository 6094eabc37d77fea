use netstack::buf::NetBuffer;
use netstack::ip::ip_input;
use netstack::stack::{timer_tick, NetStack};
use netstack::tcp::{
    tcp_accept, tcp_close, tcp_listen, tcp_open, tcp_read, tcp_write, TCPState, FLAG_ACK,
    FLAG_FIN, FLAG_PSH, FLAG_RST, FLAG_SYN,
};
use netstack::util::{
    compute_checksum, compute_ones_comp, compute_pseudo_header_checksum, IPAddr,
};

const LOCAL: [u8; 4] = [10, 0, 0, 2];
const PEER: [u8; 4] = [10, 0, 0, 1];

fn new_stack() -> NetStack {
    let v6 = [0xfeu8, 0x80, 0, 0, 0, 0, 0, 0, 0, 0, 0, 0, 0, 0, 0, 2];
    NetStack::new(IPAddr::new_from(&LOCAL), IPAddr::new_from(&v6))
}

/// A TCP segment with a valid checksum, as its wire bytes.
fn mk_tcp_seg(
    src: [u8; 4],
    dst: [u8; 4],
    sport: u16,
    dport: u16,
    seq: u32,
    ack: u32,
    flags: u8,
    wnd: u16,
    payload: &[u8],
) -> Vec<u8> {
    let mut seg: Vec<u8> = Vec::new();
    seg.extend_from_slice(&sport.to_be_bytes());
    seg.extend_from_slice(&dport.to_be_bytes());
    seg.extend_from_slice(&seq.to_be_bytes());
    seg.extend_from_slice(&ack.to_be_bytes());
    seg.push(5 << 4);
    seg.push(flags);
    seg.extend_from_slice(&wnd.to_be_bytes());
    seg.extend_from_slice(&[0, 0, 0, 0]);
    seg.extend_from_slice(payload);
    let ph = compute_pseudo_header_checksum(
        IPAddr::new_from(&src),
        IPAddr::new_from(&dst),
        seg.len(),
        6,
    );
    let ck = 0xffff - compute_ones_comp(ph, &seg);
    seg[16] = (ck >> 8) as u8;
    seg[17] = ck as u8;
    seg
}

/// A whole IPv4 frame with a valid header checksum.
fn mk_ipv4_frame(src: [u8; 4], dst: [u8; 4], proto: u8, payload: &[u8]) -> Vec<u8> {
    let total = (payload.len() + 20) as u16;
    let mut h: Vec<u8> = vec![0x45, 0];
    h.extend_from_slice(&total.to_be_bytes());
    h.extend_from_slice(&[0, 0, 0, 0, 64, proto, 0, 0]);
    h.extend_from_slice(&src);
    h.extend_from_slice(&dst);
    let ck = compute_checksum(&h);
    h[10] = (ck >> 8) as u8;
    h[11] = ck as u8;
    h.extend_from_slice(payload);
    h
}

fn feed(stack: &mut NetStack, frame: &[u8], now_ms: u64) {
    let mut buf = NetBuffer::new();
    buf.append_from_slice(frame);
    ip_input(stack, buf, now_ms);
}

fn feed_tcp(
    stack: &mut NetStack,
    sport: u16,
    dport: u16,
    seq: u32,
    ack: u32,
    flags: u8,
    payload: &[u8],
    now_ms: u64,
) {
    let seg = mk_tcp_seg(PEER, LOCAL, sport, dport, seq, ack, flags, 65535, payload);
    let frame = mk_ipv4_frame(PEER, LOCAL, 6, &seg);
    feed(stack, &frame, now_ms);
}

fn outbound(stack: &mut NetStack) -> Vec<Vec<u8>> {
    let frames = stack.take_outbound();
    let mut out = Vec::new();
    for f in &frames {
        let mut v = vec![0u8; f.len()];
        f.copy_to_slice(&mut v);
        out.push(v);
    }
    out
}

struct ParsedSeg {
    sport: u16,
    dport: u16,
    seq: u32,
    ack: u32,
    flags: u8,
    options: Vec<u8>,
    payload: Vec<u8>,
}

/// Split an IPv4 frame carrying TCP into its interesting fields.
fn parse_tcp_frame(frame: &[u8]) -> ParsedSeg {
    assert_eq!(frame[0], 0x45);
    assert_eq!(frame[9], 6);
    let t = &frame[20..];
    let data_off = ((t[12] >> 4) as usize) * 4;
    ParsedSeg {
        sport: u16::from_be_bytes([t[0], t[1]]),
        dport: u16::from_be_bytes([t[2], t[3]]),
        seq: u32::from_be_bytes([t[4], t[5], t[6], t[7]]),
        ack: u32::from_be_bytes([t[8], t[9], t[10], t[11]]),
        flags: t[13],
        options: t[20..data_off].to_vec(),
        payload: t[data_off..].to_vec(),
    }
}

/// Check the TCP checksum of an emitted frame against the pseudo-header.
fn tcp_checksum_valid(frame: &[u8]) -> bool {
    let seg = &frame[20..];
    let ph = compute_pseudo_header_checksum(
        IPAddr::new_from(&frame[12..16]),
        IPAddr::new_from(&frame[16..20]),
        seg.len(),
        6,
    );
    compute_ones_comp(ph, seg) == 0xffff
}

/// Drive a listener through the peer's handshake and return the accepted
/// child handle plus the first in-order sequence number and the server's
/// next send sequence.
fn handshake_via_listen(stack: &mut NetStack, port: u16, peer_isn: u32, now: u64) -> (usize, u32)
{
    let lh = tcp_listen(stack, port).unwrap();
    feed_tcp(stack, 5000, port, peer_isn, 0, FLAG_SYN, &[], now);
    let frames = outbound(stack);
    assert_eq!(frames.len(), 1);
    assert!(tcp_checksum_valid(&frames[0]));
    let synack = parse_tcp_frame(&frames[0]);
    assert_eq!(synack.flags, FLAG_SYN | FLAG_ACK);
    assert_eq!(synack.ack, peer_isn.wrapping_add(1));
    // The advertised MSS option is 1500.
    assert_eq!(synack.options, vec![2, 4, 0x05, 0xdc]);
    let server_iss = synack.seq;
    feed_tcp(
        stack,
        5000,
        port,
        peer_isn.wrapping_add(1),
        server_iss.wrapping_add(1),
        FLAG_ACK,
        &[],
        now,
    );
    let child = tcp_accept(stack, lh).unwrap();
    assert_eq!(stack.tcp_socks[child].get_state(), TCPState::Established);
    let _ = outbound(stack);
    (child, server_iss)
}

#[test]
fn test_tcp_echo_handshake_and_data() {
    // Peer connects, the stack answers SYN|ACK with MSS 1500, the peer
    // completes the handshake and sends four octets, which read returns;
    // the peer's FIN then reads as end of stream.
    let mut stack = new_stack();
    let now = 1_000;
    let isn = 1000;
    let (child, iss) = handshake_via_listen(&mut stack, 8080, isn, now);

    feed_tcp(
        &mut stack,
        5000,
        8080,
        isn.wrapping_add(1),
        iss.wrapping_add(1),
        FLAG_ACK | FLAG_PSH,
        &[1, 2, 3, 4],
        now,
    );
    let mut data = [0u8; 16];
    let got = tcp_read(&mut stack, child, &mut data);
    assert_eq!(got, 4);
    assert_eq!(&data[..4], &[1, 2, 3, 4]);

    // Peer closes: end of stream once the queue is drained.
    feed_tcp(
        &mut stack,
        5000,
        8080,
        isn.wrapping_add(5),
        iss.wrapping_add(1),
        FLAG_FIN | FLAG_ACK,
        &[],
        now,
    );
    assert_eq!(stack.tcp_socks[child].get_state(), TCPState::CloseWait);
    let got = tcp_read(&mut stack, child, &mut data);
    assert_eq!(got, -1);
}

#[test]
fn test_tcp_out_of_order_delivery() {
    // Segments arriving in reverse order come out of read as one
    // in-order byte run.
    let mut stack = new_stack();
    let now = 1_000;
    let isn: u32 = 70_000;
    let (child, iss) = handshake_via_listen(&mut stack, 8080, isn, now);
    let base = isn.wrapping_add(1);
    let ack = iss.wrapping_add(1);

    feed_tcp(&mut stack, 5000, 8080, base.wrapping_add(200), ack, FLAG_ACK, &[3u8; 100], now);
    let mut data = [0u8; 400];
    assert_eq!(tcp_read(&mut stack, child, &mut data), 0);
    feed_tcp(&mut stack, 5000, 8080, base.wrapping_add(100), ack, FLAG_ACK, &[2u8; 100], now);
    assert_eq!(tcp_read(&mut stack, child, &mut data), 0);
    feed_tcp(&mut stack, 5000, 8080, base, ack, FLAG_ACK, &[1u8; 100], now);

    let got = tcp_read(&mut stack, child, &mut data);
    assert_eq!(got, 300);
    assert_eq!(&data[..100], &[1u8; 100][..]);
    assert_eq!(&data[100..200], &[2u8; 100][..]);
    assert_eq!(&data[200..300], &[3u8; 100][..]);
}

/// Connect outward and answer the handshake by hand; returns the socket
/// handle, our initial send sequence and our ephemeral port.
fn connect_out(stack: &mut NetStack, peer_isn: u32, now: u64) -> (usize, u32, u16) {
    let h = tcp_open(stack, IPAddr::new_from(&PEER), 3000, now).unwrap();
    let frames = outbound(stack);
    assert_eq!(frames.len(), 1);
    let syn = parse_tcp_frame(&frames[0]);
    assert_eq!(syn.flags, FLAG_SYN);
    assert_eq!(syn.options, vec![2, 4, 0x05, 0xdc]);
    let iss = syn.seq;
    let sport = syn.sport;
    feed_tcp(
        stack,
        3000,
        sport,
        peer_isn,
        iss.wrapping_add(1),
        FLAG_SYN | FLAG_ACK,
        &[],
        now,
    );
    assert_eq!(stack.tcp_socks[h].get_state(), TCPState::Established);
    let _ = outbound(stack);
    (h, iss, sport)
}

#[test]
fn test_tcp_retransmission() {
    // Written data whose acknowledgement never comes is retransmitted
    // after the fixed interval; once acknowledged, the timer stops.
    let mut stack = new_stack();
    let now = 1_000;
    let (h, iss, sport) = connect_out(&mut stack, 5000, now);

    let sent = tcp_write(&mut stack, h, &[7u8; 100], now);
    assert_eq!(sent, 100);
    let frames = outbound(&mut stack);
    assert_eq!(frames.len(), 1);
    let data_seg = parse_tcp_frame(&frames[0]);
    assert_eq!(data_seg.flags, FLAG_ACK | FLAG_PSH);
    assert_eq!(data_seg.seq, iss.wrapping_add(1));
    assert_eq!(data_seg.payload, vec![7u8; 100]);

    // The peer's acknowledgement is dropped; the retransmit timer fires.
    timer_tick(&mut stack, now + 1001);
    let frames = outbound(&mut stack);
    assert_eq!(frames.len(), 1);
    let rexmit = parse_tcp_frame(&frames[0]);
    assert_eq!(rexmit.seq, iss.wrapping_add(1));
    assert_eq!(rexmit.payload, vec![7u8; 100]);
    assert!(tcp_checksum_valid(&frames[0]));

    // Now the peer acknowledges; the retransmit timer is cancelled.
    feed_tcp(
        &mut stack,
        3000,
        sport,
        5001,
        iss.wrapping_add(101),
        FLAG_ACK,
        &[],
        now + 1100,
    );
    assert_eq!(stack.tcp_socks[h].retransmit_timer_id, -1);
    timer_tick(&mut stack, now + 2500);
    let frames = outbound(&mut stack);
    assert_eq!(frames.len(), 0);
}

#[test]
fn test_tcp_graceful_close() {
    // Established, close, FinWait1, peer's FIN+ACK, TimeWait, and after
    // the 2MSL surrogate the socket is Closed and its binding released.
    let mut stack = new_stack();
    let now = 1_000;
    let (h, iss, sport) = connect_out(&mut stack, 5000, now);

    tcp_close(&mut stack, h, now);
    assert_eq!(stack.tcp_socks[h].get_state(), TCPState::FinWait1);
    let frames = outbound(&mut stack);
    assert_eq!(frames.len(), 1);
    let fin = parse_tcp_frame(&frames[0]);
    assert_eq!(fin.flags, FLAG_FIN | FLAG_ACK);

    feed_tcp(
        &mut stack,
        3000,
        sport,
        5001,
        iss.wrapping_add(2),
        FLAG_FIN | FLAG_ACK,
        &[],
        now + 10,
    );
    assert_eq!(stack.tcp_socks[h].get_state(), TCPState::TimeWait);

    timer_tick(&mut stack, now + 10 + 5001);
    assert_eq!(stack.tcp_socks[h].get_state(), TCPState::Closed);
    assert!(!stack.tcp_socks[h].bound);
}

#[test]
fn test_tcp_listen_accept_echo() {
    // A connection accepted from a listener reads the peer's request
    // exactly and writes the response back.
    let mut stack = new_stack();
    let now = 1_000;
    let isn = 42_000;
    let (child, iss) = handshake_via_listen(&mut stack, 8080, isn, now);

    let request = b"GET / HTTP/1.0\r\n\r\n";
    assert_eq!(request.len(), 18);
    feed_tcp(
        &mut stack,
        5000,
        8080,
        isn.wrapping_add(1),
        iss.wrapping_add(1),
        FLAG_ACK | FLAG_PSH,
        request,
        now,
    );
    let mut data = [0u8; 64];
    let got = tcp_read(&mut stack, child, &mut data);
    assert_eq!(got, 18);
    assert_eq!(&data[..18], request);

    let response = b"HTTP/1.0 200 OK\r\n\r\nhello";
    let sent = tcp_write(&mut stack, child, response, now);
    assert_eq!(sent, response.len() as i32);
    let frames = outbound(&mut stack);
    assert_eq!(frames.len(), 1);
    let seg = parse_tcp_frame(&frames[0]);
    assert_eq!(seg.payload, response.to_vec());
    assert!(tcp_checksum_valid(&frames[0]));

    tcp_close(&mut stack, child, now);
    assert_eq!(stack.tcp_socks[child].get_state(), TCPState::FinWait1);
    let frames = outbound(&mut stack);
    assert_eq!(frames.len(), 1);
    let fin = parse_tcp_frame(&frames[0]);
    assert_eq!(fin.flags, FLAG_FIN | FLAG_ACK);
}

#[test]
fn test_tcp_rst_on_unknown_tuple() {
    // A segment for a connection that does not exist, with no listener on
    // its port, is answered by RST|ACK with seq 1 and ack one past the
    // segment, and no state appears.
    let mut stack = new_stack();
    let now = 1_000;
    feed_tcp(&mut stack, 777, 9999, 4242, 17, FLAG_SYN | FLAG_ACK, &[], now);
    assert_eq!(stack.tcp_socks.len(), 0);
    let frames = outbound(&mut stack);
    assert_eq!(frames.len(), 1);
    let rst = parse_tcp_frame(&frames[0]);
    assert_eq!(rst.flags, FLAG_RST | FLAG_ACK);
    assert_eq!(rst.seq, 1);
    assert_eq!(rst.ack, 4243);
    assert_eq!(rst.sport, 9999);
    assert_eq!(rst.dport, 777);
    assert!(tcp_checksum_valid(&frames[0]));
}

#[test]
fn test_tcp_listen_port_in_use() {
    let mut stack = new_stack();
    assert!(tcp_listen(&mut stack, 8080).is_ok());
    assert_eq!(
        tcp_listen(&mut stack, 8080),
        Err(netstack::util::NetError::PortInUse)
    );
}

#[test]
fn test_tcp_reset_closes() {
    // RST in any state goes straight to Closed.
    let mut stack = new_stack();
    let now = 1_000;
    let (h, _iss, sport) = connect_out(&mut stack, 5000, now);
    feed_tcp(&mut stack, 3000, sport, 5001, 0, FLAG_RST, &[], now);
    assert_eq!(stack.tcp_socks[h].get_state(), TCPState::Closed);
    let mut data = [0u8; 4];
    assert_eq!(tcp_read(&mut stack, h, &mut data), -1);
    assert_eq!(tcp_write(&mut stack, h, &[1], now), -1);
}

#[test]
fn test_icmp_echo_reply() {
    // A valid echo request is answered with an echo reply carrying the
    // same payload and a valid checksum.
    let mut stack = new_stack();
    let payload = [9u8, 8, 7, 6, 5];
    let mut msg: Vec<u8> = vec![8, 0, 0, 0];
    msg.extend_from_slice(&payload);
    let ck = 0xffff - compute_ones_comp(0, &msg);
    msg[2] = (ck >> 8) as u8;
    msg[3] = ck as u8;
    let frame = mk_ipv4_frame(PEER, LOCAL, 1, &msg);
    feed(&mut stack, &frame, 0);
    let frames = outbound(&mut stack);
    assert_eq!(frames.len(), 1);
    let reply = &frames[0];
    assert_eq!(reply[9], 1);
    let icmp = &reply[20..];
    assert_eq!(icmp[0], 0);
    assert_eq!(&icmp[4..], &payload);
    assert_eq!(compute_ones_comp(0, icmp), 0xffff);
}

#[test]
fn test_ip_input_drops_bad_checksum() {
    let mut stack = new_stack();
    let seg = mk_tcp_seg(PEER, LOCAL, 1, 2, 3, 4, FLAG_SYN, 100, &[]);
    let mut frame = mk_ipv4_frame(PEER, LOCAL, 6, &seg);
    frame[10] ^= 0xff;  // corrupt the header checksum
    feed(&mut stack, &frame, 0);
    assert_eq!(outbound(&mut stack).len(), 0);
    assert_eq!(stack.tcp_socks.len(), 0);
}

#[test]
fn test_ip_input_drops_fragments() {
    let mut stack = new_stack();
    let seg = mk_tcp_seg(PEER, LOCAL, 1, 9999, 3, 4, FLAG_SYN, 100, &[]);
    let total = (seg.len() + 20) as u16;
    let mut h: Vec<u8> = vec![0x45, 0];
    h.extend_from_slice(&total.to_be_bytes());
    h.extend_from_slice(&[0, 0, 0x20, 0x01, 64, 6, 0, 0]);  // more-fragments set
    h.extend_from_slice(&PEER);
    h.extend_from_slice(&LOCAL);
    let ck = compute_checksum(&h);
    h[10] = (ck >> 8) as u8;
    h[11] = ck as u8;
    h.extend_from_slice(&seg);
    feed(&mut stack, &h, 0);
    assert_eq!(outbound(&mut stack).len(), 0);
    assert_eq!(stack.tcp_socks.len(), 0);
}
