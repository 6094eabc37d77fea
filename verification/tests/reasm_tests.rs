use netstack::buf::NetBuffer;
use netstack::tcp::TCPReassembler;

fn buf_from(data: &[u8]) -> NetBuffer {
    let mut b = NetBuffer::new();
    b.append_from_slice(data);
    b
}

#[test]
fn tcp_test_reassemble_inorder() {
    // Happy path: we get a packet, it is in order.
    let mut reassembler = TCPReassembler::new();
    reassembler.set_next_expect(1234);
    let packet = buf_from(b"hello");
    let result = reassembler.add_packet(packet, 1234);
    assert!(result.is_some());
    let new_packet = result.as_ref().unwrap();
    assert_eq!(reassembler.get_next_expect(), 1239);

    assert_eq!(new_packet.len(), 5);
    let mut data = [0u8; 5];
    let got = new_packet.copy_to_slice(&mut data);
    assert_eq!(got, 5);
}

#[test]
fn tcp_test_reassemble_ooo() {
    // Two packets received out of order.
    let mut reassembler = TCPReassembler::new();
    reassembler.set_next_expect(1000);

    let packet1 = buf_from(&[1; 100]);
    let packet2 = buf_from(&[2; 100]);

    let result = reassembler.add_packet(packet2, 1100);
    assert!(result.is_none());
    assert_eq!(reassembler.get_next_expect(), 1000);

    let result = reassembler.add_packet(packet1, 1000);
    assert!(result.is_some());
    assert_eq!(reassembler.get_next_expect(), 1200);

    let new_packet = result.as_ref().unwrap();
    assert_eq!(new_packet.len(), 200);

    let mut data = [0u8; 200];
    new_packet.copy_to_slice(&mut data);
    assert!(data[0] == 1);
    assert!(data[99] == 1);
    assert!(data[100] == 2);
    assert!(data[199] == 2);
}

#[test]
fn tcp_test_reassemble_stale1() {
    // Packet is received before sequence.
    let mut reassembler = TCPReassembler::new();
    reassembler.set_next_expect(1000);

    let packet1 = buf_from(&[1; 100]);
    let result = reassembler.add_packet(packet1, 900);
    assert!(result.is_none());
    assert_eq!(reassembler.get_next_expect(), 1000);

    let packet2 = buf_from(&[2; 100]);
    let result = reassembler.add_packet(packet2, 1000);
    assert!(result.is_some());
    assert_eq!(reassembler.get_next_expect(), 1100);

    assert_eq!(reassembler.ooo_count(), 0);
}

#[test]
fn tcp_test_reassemble_stale2() {
    // Packet is received before sequence.  We also have an out of order
    // segment that will be left in the reassembler.
    let mut reassembler = TCPReassembler::new();
    reassembler.set_next_expect(1000);

    let packet1 = buf_from(&[1; 100]);
    let result = reassembler.add_packet(packet1, 1200);
    assert!(result.is_none());
    assert_eq!(reassembler.get_next_expect(), 1000);

    let packet2 = buf_from(&[2; 100]);
    let result = reassembler.add_packet(packet2, 900);
    assert!(result.is_none());
    assert_eq!(reassembler.get_next_expect(), 1000);

    let packet3 = buf_from(&[3; 100]);
    let result = reassembler.add_packet(packet3, 1000);
    assert!(result.is_some());
    assert_eq!(reassembler.get_next_expect(), 1100);

    let new_packet = result.as_ref().unwrap();
    assert_eq!(new_packet.len(), 100);
    let mut data = [0u8; 100];
    new_packet.copy_to_slice(&mut data);
    assert!(data[0] == 3);
    assert!(data[99] == 3);

    assert_eq!(reassembler.ooo_count(), 1);
}

#[test]
fn tcp_test_reassemble_wrap() {
    // Check wrapping case for sequence numbers.
    let mut reassembler = TCPReassembler::new();
    reassembler.set_next_expect(0xffffff00);

    // Packet before window.  This should be removed.
    let packet1 = buf_from(&[1; 0x100]);
    let result = reassembler.add_packet(packet1, 0xfffffe00);
    assert!(result.is_none());

    // Fill window, wrap around.
    let packet2 = buf_from(&[2; 0x200]);
    let result = reassembler.add_packet(packet2, 0xffffff00);
    assert!(result.is_some());
    assert_eq!(reassembler.get_next_expect(), 0x100);

    let new_packet = result.as_ref().unwrap();
    assert_eq!(new_packet.len(), 0x200);
    let mut data = [0u8; 0x200];
    new_packet.copy_to_slice(&mut data);
    assert!(data[0] == 2);
    assert!(data[199] == 2);

    assert_eq!(reassembler.ooo_count(), 0);
}

#[test]
fn tcp_test_reassemble_reorder_wrap() {
    let mut reassembler = TCPReassembler::new();
    reassembler.set_next_expect(0xfffffe00);

    // This packet will cause a wrap when it's reassembled.
    let packet1 = buf_from(&[1; 0x200]);
    let result = reassembler.add_packet(packet1, 0xffffff00);
    assert!(result.is_none());

    // This packet will be in order.
    let packet2 = buf_from(&[2; 0x100]);
    let result = reassembler.add_packet(packet2, 0xfffffe00);
    assert!(result.is_some());
    assert_eq!(reassembler.get_next_expect(), 0x100);
}

#[test]
fn tcp_test_reassemble_multiple() {
    // Multiple packets get reassembled in one pass.
    let mut reassembler = TCPReassembler::new();
    reassembler.set_next_expect(1000);

    let packet1 = buf_from(&[1; 100]);
    let packet2 = buf_from(&[2; 100]);
    let packet3 = buf_from(&[3; 100]);

    let result = reassembler.add_packet(packet2, 1100);
    assert!(result.is_none());
    assert_eq!(reassembler.get_next_expect(), 1000);

    let result = reassembler.add_packet(packet3, 1200);
    assert!(result.is_none());
    assert_eq!(reassembler.get_next_expect(), 1000);

    let result = reassembler.add_packet(packet1, 1000);
    assert!(result.is_some());
    assert_eq!(reassembler.get_next_expect(), 1300);

    let new_packet = result.as_ref().unwrap();
    assert_eq!(new_packet.len(), 300);

    let mut data = [0u8; 300];
    new_packet.copy_to_slice(&mut data);
    assert!(data[0] == 1);
    assert!(data[99] == 1);
    assert!(data[100] == 2);
    assert!(data[199] == 2);
    assert!(data[200] == 3);
    assert!(data[299] == 3);
}

#[test]
fn tcp_test_reassemble_overlap1() {
    // It's possible a packet is not in order but overlaps the current
    // space.  We will just drop it.
    let mut reassembler = TCPReassembler::new();
    reassembler.set_next_expect(1000);

    let packet2 = buf_from(&[2; 100]);
    let result = reassembler.add_packet(packet2, 1100);
    assert!(result.is_none());
    assert_eq!(reassembler.get_next_expect(), 1000);

    let packet1_prime = buf_from(&[3; 150]);
    let result = reassembler.add_packet(packet1_prime, 1000);
    assert!(result.is_some());
    assert_eq!(reassembler.get_next_expect(), 1150);

    let new_packet = result.as_ref().unwrap();
    assert_eq!(new_packet.len(), 150);

    let mut data = [0u8; 150];
    new_packet.copy_to_slice(&mut data);
    assert!(data[0] == 3);
    assert!(data[99] == 3);
    assert!(data[100] == 3);
    assert!(data[149] == 3);

    // Ensure the previous one was kept.
    assert_eq!(reassembler.ooo_count(), 1);
}

#[test]
fn tcp_test_reassemble_overlap2() {
    // Another overlap case, but the overlapping packet was received out
    // of order.
    let mut reassembler = TCPReassembler::new();
    reassembler.set_next_expect(1000);

    let packet3 = buf_from(&[3; 100]);
    let result = reassembler.add_packet(packet3, 1200);
    assert!(result.is_none());
    assert_eq!(reassembler.get_next_expect(), 1000);

    let packet2 = buf_from(&[2; 150]); // Note this overlaps packet 3
    let result = reassembler.add_packet(packet2, 1100);
    assert!(result.is_none());
    assert_eq!(reassembler.get_next_expect(), 1000);

    // Now packet 1 comes in and completes.  Packet 3 will be dropped.
    let packet1 = buf_from(&[1; 100]);
    let result = reassembler.add_packet(packet1, 1000);
    assert!(result.is_some());
    assert_eq!(reassembler.get_next_expect(), 1250);

    let new_packet = result.as_ref().unwrap();
    assert_eq!(new_packet.len(), 250);

    let mut data = [0u8; 250];
    new_packet.copy_to_slice(&mut data);
    assert!(data[0] == 1);
    assert!(data[99] == 1);
    assert!(data[100] == 2);
    assert!(data[249] == 2);

    // Ensure the previous one was removed.
    assert_eq!(reassembler.ooo_count(), 1);
}

#[test]
fn tcpv4_test_reassemble_inorder() {
    let mut reassembler = TCPReassembler::new();
    reassembler.set_next_expect(1234);
    let result = reassembler.add_packet(buf_from(b"hello"), 1234);
    assert!(result.is_some());
    let new_packet = result.as_ref().unwrap();
    assert_eq!(reassembler.get_next_expect(), 1239);
    assert_eq!(new_packet.len(), 5);
    let mut data = [0u8; 5];
    let got = new_packet.copy_to_slice(&mut data);
    assert_eq!(got, 5);
}

#[test]
fn tcpv4_test_reassemble_ooo() {
    let mut reassembler = TCPReassembler::new();
    reassembler.set_next_expect(1000);
    let result = reassembler.add_packet(buf_from(&[2; 100]), 1100);
    assert!(result.is_none());
    assert_eq!(reassembler.get_next_expect(), 1000);
    let result = reassembler.add_packet(buf_from(&[1; 100]), 1000);
    assert!(result.is_some());
    assert_eq!(reassembler.get_next_expect(), 1200);
    let new_packet = result.as_ref().unwrap();
    assert_eq!(new_packet.len(), 200);
    let mut data = [0u8; 200];
    new_packet.copy_to_slice(&mut data);
    assert!(data[0] == 1);
    assert!(data[99] == 1);
    assert!(data[100] == 2);
    assert!(data[199] == 2);
}

#[test]
fn tcpv4_test_reassemble_stale1() {
    let mut reassembler = TCPReassembler::new();
    reassembler.set_next_expect(1000);
    let result = reassembler.add_packet(buf_from(&[1; 100]), 900);
    assert!(result.is_none());
    assert_eq!(reassembler.get_next_expect(), 1000);
    let result = reassembler.add_packet(buf_from(&[2; 100]), 1000);
    assert!(result.is_some());
    assert_eq!(reassembler.get_next_expect(), 1100);
    assert_eq!(reassembler.ooo_count(), 0);
}

#[test]
fn tcpv4_test_reassemble_stale2() {
    let mut reassembler = TCPReassembler::new();
    reassembler.set_next_expect(1000);
    let result = reassembler.add_packet(buf_from(&[1; 100]), 1200);
    assert!(result.is_none());
    assert_eq!(reassembler.get_next_expect(), 1000);
    let result = reassembler.add_packet(buf_from(&[2; 100]), 900);
    assert!(result.is_none());
    assert_eq!(reassembler.get_next_expect(), 1000);
    let result = reassembler.add_packet(buf_from(&[3; 100]), 1000);
    assert!(result.is_some());
    assert_eq!(reassembler.get_next_expect(), 1100);
    let new_packet = result.as_ref().unwrap();
    assert_eq!(new_packet.len(), 100);
    let mut data = [0u8; 100];
    new_packet.copy_to_slice(&mut data);
    assert!(data[0] == 3);
    assert!(data[99] == 3);
    assert_eq!(reassembler.ooo_count(), 1);
}

#[test]
fn tcpv4_test_reassemble_wrap() {
    let mut reassembler = TCPReassembler::new();
    reassembler.set_next_expect(0xffffff00);
    let result = reassembler.add_packet(buf_from(&[1; 0x100]), 0xfffffe00);
    assert!(result.is_none());
    let result = reassembler.add_packet(buf_from(&[2; 0x200]), 0xffffff00);
    assert!(result.is_some());
    assert_eq!(reassembler.get_next_expect(), 0x100);
    let new_packet = result.as_ref().unwrap();
    assert_eq!(new_packet.len(), 0x200);
    let mut data = [0u8; 0x200];
    new_packet.copy_to_slice(&mut data);
    assert!(data[0] == 2);
    assert!(data[199] == 2);
    assert_eq!(reassembler.ooo_count(), 0);
}

#[test]
fn tcpv4_test_reassemble_reorder_wrap() {
    let mut reassembler = TCPReassembler::new();
    reassembler.set_next_expect(0xfffffe00);
    let result = reassembler.add_packet(buf_from(&[1; 0x200]), 0xffffff00);
    assert!(result.is_none());
    let result = reassembler.add_packet(buf_from(&[2; 0x100]), 0xfffffe00);
    assert!(result.is_some());
    assert_eq!(reassembler.get_next_expect(), 0x100);
}

#[test]
fn tcpv4_test_reassemble_multiple() {
    let mut reassembler = TCPReassembler::new();
    reassembler.set_next_expect(1000);
    let result = reassembler.add_packet(buf_from(&[2; 100]), 1100);
    assert!(result.is_none());
    let result = reassembler.add_packet(buf_from(&[3; 100]), 1200);
    assert!(result.is_none());
    let result = reassembler.add_packet(buf_from(&[1; 100]), 1000);
    assert!(result.is_some());
    assert_eq!(reassembler.get_next_expect(), 1300);
    let new_packet = result.as_ref().unwrap();
    assert_eq!(new_packet.len(), 300);
    let mut data = [0u8; 300];
    new_packet.copy_to_slice(&mut data);
    assert!(data[0] == 1);
    assert!(data[99] == 1);
    assert!(data[100] == 2);
    assert!(data[199] == 2);
    assert!(data[200] == 3);
    assert!(data[299] == 3);
}

#[test]
fn tcpv4_test_reassemble_overlap1() {
    let mut reassembler = TCPReassembler::new();
    reassembler.set_next_expect(1000);
    let result = reassembler.add_packet(buf_from(&[2; 100]), 1100);
    assert!(result.is_none());
    let result = reassembler.add_packet(buf_from(&[3; 150]), 1000);
    assert!(result.is_some());
    assert_eq!(reassembler.get_next_expect(), 1150);
    let new_packet = result.as_ref().unwrap();
    assert_eq!(new_packet.len(), 150);
    let mut data = [0u8; 150];
    new_packet.copy_to_slice(&mut data);
    assert!(data[0] == 3);
    assert!(data[149] == 3);
    assert_eq!(reassembler.ooo_count(), 1);
}

#[test]
fn tcpv4_test_reassemble_overlap2() {
    let mut reassembler = TCPReassembler::new();
    reassembler.set_next_expect(1000);
    let result = reassembler.add_packet(buf_from(&[3; 100]), 1200);
    assert!(result.is_none());
    let result = reassembler.add_packet(buf_from(&[2; 150]), 1100);
    assert!(result.is_none());
    let result = reassembler.add_packet(buf_from(&[1; 100]), 1000);
    assert!(result.is_some());
    assert_eq!(reassembler.get_next_expect(), 1250);
    let new_packet = result.as_ref().unwrap();
    assert_eq!(new_packet.len(), 250);
    let mut data = [0u8; 250];
    new_packet.copy_to_slice(&mut data);
    assert!(data[0] == 1);
    assert!(data[99] == 1);
    assert!(data[100] == 2);
    assert!(data[249] == 2);
    assert_eq!(reassembler.ooo_count(), 1);
}
