use netstack::buf::NetBuffer;
use netstack::util::{
    compute_buffer_ones_comp, compute_checksum, compute_ones_comp,
    compute_pseudo_header_checksum, get_be16, get_be32, ip_to_str, seq_ge, seq_gt, seq_le,
    seq_lt, set_be16, set_be32, IPAddr,
};

#[test]
fn util_test_compute_ones_comp() {
    assert_eq!(compute_ones_comp(0, &[0x00, 0x00]), 0);
    assert_eq!(compute_ones_comp(0, &[0x00, 0x01]), 0x1);
    assert_eq!(compute_ones_comp(0, &[0x00, 0xff]), 0xff);
    assert_eq!(compute_ones_comp(0, &[0xff, 0x23, 0xef, 0x55]), 0xee79);
}

#[test]
fn util_test_compute_checksum() {
    assert_eq!(compute_checksum(&[0x00, 0x00]), 0xffff);
    assert_eq!(compute_checksum(&[0x00, 0x01]), 0xfffe);
    assert_eq!(compute_checksum(&[0x00, 0xff]), 0xff00);
    assert_eq!(compute_checksum(&[0xff, 0x23, 0xef, 0x55]), 0x1186);
}

#[test]
fn test_compute_packet_ones_comp() {
    let mut buffer = NetBuffer::new();
    buffer.append_from_slice(&[0x12, 0x34]);
    assert_eq!(compute_buffer_ones_comp(0, &buffer), 0x1234);
}

#[test]
fn test_compute_packet_ones_comp_multiple_fragments() {
    let mut buffer = NetBuffer::new();
    for _ in 0..512 {
        buffer.append_from_slice(&[0x12, 0x34]);
    }

    // 512 * 0x1234 = 0x246800, 0x6800 + 0x0024 = 0x6824
    assert_eq!(compute_buffer_ones_comp(0, &buffer), 0x6824);
}

#[test]
fn test_compute_ones_comp_odd_length() {
    assert_eq!(compute_ones_comp(0, &[0x12, 0x34, 0x56]), 0x6834);
}

#[test]
fn util_test_get_be16() {
    assert_eq!(get_be16(&[0x00, 0x00]), 0x0000);
    assert_eq!(get_be16(&[0x35, 0xa5]), 0x35a5);
}

#[test]
fn util_test_get_be32() {
    assert_eq!(get_be32(&[0xde, 0xad, 0xbe, 0xef]), 0xdeadbeef);
    assert_eq!(get_be32(&[0x00, 0x00, 0x00, 0x01]), 0x00000001);
    assert_eq!(get_be32(&[0x00, 0x00, 0x00, 0xff]), 0x000000ff);
    assert_eq!(get_be32(&[0x00, 0x00, 0xff, 0x00]), 0x0000ff00);
    assert_eq!(get_be32(&[0x00, 0xff, 0x00, 0x00]), 0x00ff0000);
    assert_eq!(get_be32(&[0xff, 0x00, 0x00, 0x00]), 0xff000000);
}

#[test]
fn util_test_set_be16() {
    let mut buffer = [0u8; 2];
    set_be16(&mut buffer, 0x0000);
    assert_eq!(buffer, [0x00, 0x00]);
    set_be16(&mut buffer, 0x0001);
    assert_eq!(buffer, [0x00, 0x01]);
    set_be16(&mut buffer, 0x00ff);
    assert_eq!(buffer, [0x00, 0xff]);
    set_be16(&mut buffer, 0x0100);
    assert_eq!(buffer, [0x01, 0x00]);
    set_be16(&mut buffer, 0xffff);
    assert_eq!(buffer, [0xff, 0xff]);
}

#[test]
fn util_test_set_be32() {
    let mut buffer = [0u8; 4];
    set_be32(&mut buffer, 0x00000000);
    assert_eq!(buffer, [0x00, 0x00, 0x00, 0x00]);
    set_be32(&mut buffer, 0x00000001);
    assert_eq!(buffer, [0x00, 0x00, 0x00, 0x01]);
    set_be32(&mut buffer, 0x000000ff);
    assert_eq!(buffer, [0x00, 0x00, 0x00, 0xff]);
    set_be32(&mut buffer, 0x00000100);
    assert_eq!(buffer, [0x00, 0x00, 0x01, 0x00]);
    set_be32(&mut buffer, 0x0000ffff);
    assert_eq!(buffer, [0x00, 0x00, 0xff, 0xff]);
    set_be32(&mut buffer, 0x00010000);
    assert_eq!(buffer, [0x00, 0x01, 0x00, 0x00]);
    set_be32(&mut buffer, 0x00ffffff);
    assert_eq!(buffer, [0x00, 0xff, 0xff, 0xff]);
    set_be32(&mut buffer, 0x01000000);
    assert_eq!(buffer, [0x01, 0x00, 0x00, 0x00]);
    set_be32(&mut buffer, 0xdeadbeef);
    assert_eq!(buffer, [0xde, 0xad, 0xbe, 0xef]);
}

#[test]
fn test_ip_to_str() {
    assert_eq!(ip_to_str(0x12345678), "18.52.86.120");
}

#[test]
fn test_ip_to_str_v4() {
    assert_eq!(
        IPAddr::new_from(&[18u8, 52, 86, 120]).to_display_string(),
        "18.52.86.120"
    );
}

#[test]
fn test_ip_to_str_v6() {
    assert_eq!(
        IPAddr::new_from(&[
            0x20u8, 0x1, 0x0d, 0xb8, 0xac, 0x10, 0xfe, 0x01, 0, 0, 0, 0, 0, 0, 0, 0
        ])
        .to_display_string(),
        "2001:0db8:ac10:fe01::::"
    );
}

#[test]
fn test_compute_packet_checksum() {
    let mut buffer = NetBuffer::new();
    buffer.append_from_slice(&[0x12, 0x34]);
    assert_eq!(compute_buffer_ones_comp(0, &buffer), 0x1234);
}

#[test]
fn test_copy_to() {
    let ip = IPAddr::new_from(&[192, 168, 1, 1]);
    let mut buffer = [0u8; 4];
    ip.copy_to(&mut buffer);
    assert_eq!(buffer, [192, 168, 1, 1]);
}

#[test]
fn test_seq_gt() {
    assert_eq!(seq_gt(0x00000001, 0x00000000), true);
    assert_eq!(seq_gt(0x00000000, 0x00000001), false);
    assert_eq!(seq_gt(0x7fffffff, 0x80000000), false);
    assert_eq!(seq_gt(0x80000000, 0x7fffffff), true);
}

#[test]
fn test_seq_compare() {
    assert_eq!(seq_gt(0x00000001, 0x00000000), true);
    assert_eq!(seq_gt(0x00000000, 0x00000001), false);
    assert_eq!(seq_gt(0x00001234, 0x00001234), false);
    assert_eq!(seq_gt(0x7fffffff, 0x80000000), false);
    assert_eq!(seq_gt(0x80000000, 0x7fffffff), true);
    assert_eq!(seq_gt(0xffffffff, 0x00000000), false);
    assert_eq!(seq_gt(0x00000000, 0xffffffff), true);

    assert_eq!(seq_ge(0x00000001, 0x00000000), true);
    assert_eq!(seq_ge(0x00000000, 0x00000001), false);
    assert_eq!(seq_ge(0x00001234, 0x00001234), true);
    assert_eq!(seq_ge(0x7fffffff, 0x80000000), false);
    assert_eq!(seq_ge(0x80000000, 0x7fffffff), true);
    assert_eq!(seq_ge(0xffffffff, 0x00000000), false);
    assert_eq!(seq_ge(0x00000000, 0xffffffff), true);

    assert_eq!(seq_lt(0x00000001, 0x00000000), false);
    assert_eq!(seq_lt(0x00000000, 0x00000001), true);
    assert_eq!(seq_lt(0x00001234, 0x00001234), false);
    assert_eq!(seq_lt(0x7fffffff, 0x80000000), true);
    assert_eq!(seq_lt(0x80000000, 0x7fffffff), false);
    assert_eq!(seq_lt(0xffffffff, 0x00000000), true);
    assert_eq!(seq_lt(0x00000000, 0xffffffff), false);

    assert_eq!(seq_le(0x00000001, 0x00000000), false);
    assert_eq!(seq_le(0x00000000, 0x00000001), true);
    assert_eq!(seq_le(0x00001234, 0x00001234), true);
    assert_eq!(seq_le(0x7fffffff, 0x80000000), true);
    assert_eq!(seq_le(0x80000000, 0x7fffffff), false);
    assert_eq!(seq_le(0xffffffff, 0x00000000), true);
    assert_eq!(seq_le(0x00000000, 0xffffffff), false);
}

#[test]
fn test_compute_pseudo_header_checksum_v4() {
    let source_ip = IPAddr::new_from(&[192, 168, 1, 1]);
    let dest_ip = IPAddr::new_from(&[192, 168, 1, 2]);
    assert_eq!(
        compute_pseudo_header_checksum(source_ip, dest_ip, 20, 6),
        0x836e
    );
}

#[test]
fn test_compute_pseudo_header_checksum_v6() {
    let source_ip = IPAddr::new_from(&[
        0x20, 0x01, 0x0d, 0xb8, 0xac, 0x10, 0xfe, 0x01, 0, 0, 0, 0, 0, 0, 0, 0,
    ]);
    let dest_ip = IPAddr::new_from(&[
        0x20, 0x01, 0x0d, 0xb8, 0xac, 0x10, 0xfe, 0x02, 0, 0, 0, 0, 0, 0, 0, 0,
    ]);
    assert_eq!(
        compute_pseudo_header_checksum(source_ip, dest_ip, 20, 6),
        0xafb2
    );
}

#[test]
fn test_wrapping_max() {
    assert_eq!(netstack::util::wrapping_max(10, 20), 20);
    assert_eq!(netstack::util::wrapping_max(20, 10), 20);
    assert_eq!(netstack::util::wrapping_max(0xffffff00, 0x00000010), 0x10);
    assert_eq!(netstack::util::wrapping_max(0x10, 0xffffff00), 0x10);
}

#[test]
fn test_addr_equals() {
    let a = IPAddr::new_from(&[10, 0, 0, 1]);
    let b = IPAddr::new_from(&[10, 0, 0, 1]);
    let c = IPAddr::new_from(&[10, 0, 0, 2]);
    assert!(a.equals(&b));
    assert!(!a.equals(&c));
    let v6 = IPAddr::new_from(&[0u8; 16]);
    assert!(!a.equals(&v6));
    assert!(v6.equals(&IPAddr::new_from(&[0u8; 16])));
}

#[test]
fn test_perf_counter() {
    let mut c = netstack::util::PerfCounter::new();
    assert_eq!(c.get(), 0);
    c.inc();
    c.add(5);
    assert_eq!(c.get(), 6);
}
