//! Checksums, big-endian field access, TCP sequence-number arithmetic,
//! IP addresses and performance counters.

use crate::buf::NetBuffer;
use vstd::prelude::*;

verus! {

/// The named failures of the public socket API.
#[derive(Clone, Copy, Debug, PartialEq, Eq, Structural)]
pub enum NetError {
    /// The requested local port is already bound.
    PortInUse,
    /// The connection could not be established.
    ConnectionFailed,
    /// The connection is closed and can carry no more data.
    ConnectionClosed,
}

/// An IPv4 or IPv6 address, as raw network-order bytes.
#[derive(Clone, Copy, Debug, PartialEq, Eq, Hash)]
pub enum IPAddr {
    V4([u8; 4]),
    V6([u8; 16]),
}

impl IPAddr {
    /// The address bytes in network order: 4 for v4, 16 for v6.
    pub open spec fn bytes(self) -> Seq<u8> {
        match self {
            IPAddr::V4(a) => a@,
            IPAddr::V6(a) => a@,
        }
    }

    /// The unspecified v4 address, used as the wildcard in listen keys.
    pub fn new() -> (r: IPAddr)
        ensures
            r is V4,
            r.bytes() == Seq::new(4, |i: int| 0u8),
    {
        let r = IPAddr::V4([0, 0, 0, 0]);
        proof {
            assert(r.bytes() =~= Seq::new(4, |i: int| 0u8));
        }
        r
    }

    /// Build an address from its network-order bytes; the length selects the
    /// family.
    pub fn new_from(addr: &[u8]) -> (r: IPAddr)
        requires
            addr@.len() == 4 || addr@.len() == 16,
        ensures
            r.bytes() == addr@,
            r is V4 <==> addr@.len() == 4,
    {
        if addr.len() == 4 {
            let mut a: [u8; 4] = [0, 0, 0, 0];
            let mut i: usize = 0;
            while i < 4
                invariant
                    i <= 4,
                    addr@.len() == 4,
                    forall|j: int| 0 <= j < i ==> a@[j] == addr@[j],
                decreases 4 - i,
            {
                a[i] = addr[i];
                i = i + 1;
            }
            proof {
                assert(a@ =~= addr@);
            }
            IPAddr::V4(a)
        } else {
            let mut a: [u8; 16] = [0, 0, 0, 0, 0, 0, 0, 0, 0, 0, 0, 0, 0, 0, 0, 0];
            let mut i: usize = 0;
            while i < 16
                invariant
                    i <= 16,
                    addr@.len() == 16,
                    forall|j: int| 0 <= j < i ==> a@[j] == addr@[j],
                decreases 16 - i,
            {
                a[i] = addr[i];
                i = i + 1;
            }
            proof {
                assert(a@ =~= addr@);
            }
            IPAddr::V6(a)
        }
    }

    /// Copy the address bytes into a slice of exactly their length.
    pub fn copy_to(&self, buffer: &mut [u8])
        requires
            old(buffer)@.len() == self.bytes().len(),
        ensures
            final(buffer)@ == self.bytes(),
    {
        let src: &[u8] = match self {
            IPAddr::V4(a) => a.as_slice(),
            IPAddr::V6(a) => a.as_slice(),
        };
        let mut i: usize = 0;
        while i < src.len()
            invariant
                i <= src.len(),
                src@ == self.bytes(),
                buffer@.len() == src@.len(),
                forall|j: int| 0 <= j < i ==> buffer@[j] == src@[j],
            decreases src.len() - i,
        {
            buffer[i] = src[i];
            i = i + 1;
        }
        proof {
            assert(buffer@ =~= self.bytes());
        }
    }

    /// Borrow the address bytes in network order.
    pub fn as_bytes(&self) -> (r: &[u8])
        ensures
            r@ == self.bytes(),
    {
        match self {
            IPAddr::V4(a) => a.as_slice(),
            IPAddr::V6(a) => a.as_slice(),
        }
    }

    /// Field-by-field equality, usable in verified code.
    pub fn equals(&self, other: &IPAddr) -> (r: bool)
        ensures
            r == (*self == *other),
    {
        match (self, other) {
            (IPAddr::V4(a), IPAddr::V4(b)) => {
                let r = slices_equal(a.as_slice(), b.as_slice());
                proof {
                    if a@ == b@ {
                        assert(a =~= b);
                    }
                }
                r
            },
            (IPAddr::V6(a), IPAddr::V6(b)) => {
                let r = slices_equal(a.as_slice(), b.as_slice());
                proof {
                    if a@ == b@ {
                        assert(a =~= b);
                    }
                }
                r
            },
            _ => false,
        }
    }
}

impl Default for IPAddr {
    /// The unspecified v4 address.
    fn default() -> (r: IPAddr)
        ensures
            r is V4,
            r.bytes() == Seq::new(4, |i: int| 0u8),
    {
        IPAddr::new()
    }
}

/// Element-wise comparison of two byte slices.
pub fn slices_equal(a: &[u8], b: &[u8]) -> (r: bool)
    ensures
        r == (a@ == b@),
{
    if a.len() != b.len() {
        return false;
    }
    let mut i: usize = 0;
    while i < a.len()
        invariant
            i <= a@.len(),
            a@.len() == b@.len(),
            forall|j: int| 0 <= j < i ==> a@[j] == b@[j],
        decreases a@.len() - i,
    {
        if a[i] != b[i] {
            return false;
        }
        i = i + 1;
    }
    proof {
        assert(a@ =~= b@);
    }
    true
}

/// One's-complement addition of two 16-bit quantities: ordinary addition
/// with the carry folded back in (RFC 1071).
pub open spec fn oc_add(a: int, b: int) -> int {
    if a + b > 0xffff {
        a + b - 0xffff
    } else {
        a + b
    }
}

/// One's-complement sum of a byte sequence, starting from `acc`, taking the
/// bytes in big-endian 16-bit words; a trailing odd byte counts as the high
/// half of a final word (RFC 1071).
pub open spec fn ones_comp_sum(acc: int, s: Seq<u8>) -> int
    decreases s.len(),
{
    if s.len() >= 2 {
        ones_comp_sum(oc_add(acc, s[0] as int * 256 + s[1] as int), s.skip(2))
    } else if s.len() == 1 {
        oc_add(acc, s[0] as int * 256)
    } else {
        acc
    }
}

pub proof fn lemma_ones_comp_sum_bound(acc: int, s: Seq<u8>)
    requires
        0 <= acc <= 0xffff,
    ensures
        0 <= ones_comp_sum(acc, s) <= 0xffff,
    decreases s.len(),
{
    if s.len() >= 2 {
        lemma_ones_comp_sum_bound(oc_add(acc, s[0] as int * 256 + s[1] as int), s.skip(2));
    }
}

/// Summing a concatenation equals summing the parts in order, as long as
/// the first part ends on a 16-bit word boundary.
pub proof fn lemma_ones_comp_sum_concat(acc: int, a: Seq<u8>, b: Seq<u8>)
    requires
        a.len() % 2 == 0,
    ensures
        ones_comp_sum(acc, a + b) == ones_comp_sum(ones_comp_sum(acc, a), b),
    decreases a.len(),
{
    if a.len() >= 2 {
        assert((a + b).skip(2) =~= a.skip(2) + b);
        assert((a + b)[0] == a[0]);
        assert((a + b)[1] == a[1]);
        lemma_ones_comp_sum_concat(oc_add(acc, a[0] as int * 256 + a[1] as int), a.skip(2), b);
    } else {
        assert(a + b =~= b);
    }
}

/// Compute the one's-complement sum of `slice`, folded into `in_checksum`
/// (RFC 1071).  An empty slice leaves the sum unchanged.
pub fn compute_ones_comp(in_checksum: u16, slice: &[u8]) -> (r: u16)
    ensures
        r as int == ones_comp_sum(in_checksum as int, slice@),
{
    let ghost s = slice@;
    let mut sum: u32 = in_checksum as u32;
    let mut i: usize = 0;
    proof {
        assert(s.skip(0) =~= s);
    }
    while i < slice.len() && i + 1 < slice.len()
        invariant
            slice@ == s,
            i <= s.len(),
            i % 2 == 0 || i + 1 == s.len(),
            sum <= 0xffff,
            ones_comp_sum(in_checksum as int, s) == ones_comp_sum(sum as int, s.skip(i as int)),
        decreases s.len() - i,
    {
        let word: u32 = (slice[i] as u32) * 256 + (slice[i + 1] as u32);
        let mut next: u32 = sum + word;
        if next > 0xffff {
            next = next - 0xffff;
        }
        proof {
            assert(next as int == oc_add(sum as int, s[i as int] as int * 256 + s[i as int + 1] as int));
            assert(s.skip(i as int).skip(2) =~= s.skip(i as int + 2));
            assert(s.skip(i as int)[0] == s[i as int]);
            assert(s.skip(i as int)[1] == s[i as int + 1]);
        }
        sum = next;
        i = i + 2;
    }
    if i < slice.len() {
        let word: u32 = (slice[i] as u32) * 256;
        let mut next: u32 = sum + word;
        if next > 0xffff {
            next = next - 0xffff;
        }
        proof {
            assert(s.skip(i as int).len() == 1);
            assert(s.skip(i as int)[0] == s[i as int]);
        }
        sum = next;
    } else {
        proof {
            assert(s.skip(i as int).len() == 0);
        }
    }
    sum as u16
}

/// Internet checksum of a slice: the bitwise complement of its
/// one's-complement sum.
pub fn compute_checksum(slice: &[u8]) -> (r: u16)
    ensures
        r as int == 0xffff - ones_comp_sum(0, slice@),
{
    proof {
        lemma_ones_comp_sum_bound(0, slice@);
    }
    let sum = compute_ones_comp(0, slice);
    0xffff - sum
}

/// `a - b` under 32-bit wrap-around, as a mathematical value in `[0, 2^32)`.
pub open spec fn seq_diff(a: u32, b: u32) -> int {
    (a as int - b as int + 0x1_0000_0000) % 0x1_0000_0000
}

/// Wrapping sequence-number order: `a` is strictly after `b` when the
/// wrapped difference lies in `(0, 2^31)` (RFC 9293 comparison).
pub open spec fn spec_seq_gt(a: u32, b: u32) -> bool {
    0 < seq_diff(a, b) < 0x8000_0000
}

pub open spec fn spec_seq_lt(a: u32, b: u32) -> bool {
    spec_seq_gt(b, a)
}

pub open spec fn spec_seq_le(a: u32, b: u32) -> bool {
    !spec_seq_gt(a, b)
}

pub open spec fn spec_seq_ge(a: u32, b: u32) -> bool {
    !spec_seq_gt(b, a)
}

/// True when `val1` is strictly after `val2` in wrapping sequence order.
pub fn seq_gt(val1: u32, val2: u32) -> (r: bool)
    ensures
        r == spec_seq_gt(val1, val2),
{
    let diff = val1.wrapping_sub(val2);
    proof {
        assert(diff as int == seq_diff(val1, val2)) by (nonlinear_arith)
            requires
                diff as int == if val1 >= val2 {
                    val1 as int - val2 as int
                } else {
                    val1 as int - val2 as int + 0x1_0000_0000
                },
                0 <= val1 < 0x1_0000_0000,
                0 <= val2 < 0x1_0000_0000,
        ;
    }
    diff < 0x80000000 && diff != 0
}

/// True when `val1` is strictly before `val2` in wrapping sequence order.
pub fn seq_lt(val1: u32, val2: u32) -> (r: bool)
    ensures
        r == spec_seq_lt(val1, val2),
{
    seq_gt(val2, val1)
}

/// True when `val1` is at or before `val2` in wrapping sequence order.
pub fn seq_le(val1: u32, val2: u32) -> (r: bool)
    ensures
        r == spec_seq_le(val1, val2),
{
    !seq_gt(val1, val2)
}

/// True when `val1` is at or after `val2` in wrapping sequence order.
pub fn seq_ge(val1: u32, val2: u32) -> (r: bool)
    ensures
        r == spec_seq_ge(val1, val2),
{
    !seq_gt(val2, val1)
}

/// The later of two sequence numbers in wrapping order.
pub fn wrapping_max(val1: u32, val2: u32) -> (r: u32)
    ensures
        r == if spec_seq_gt(val1, val2) {
            val1
        } else {
            val2
        },
{
    if seq_gt(val1, val2) {
        val1
    } else {
        val2
    }
}

/// `seq_gt` and `seq_le` are exact complements: `seq_gt(a, b)` holds exactly
/// when `seq_le(a, b)` does not.
pub proof fn lemma_seq_gt_iff_not_seq_le(a: u32, b: u32)
    ensures
        spec_seq_gt(a, b) <==> !spec_seq_le(a, b),
{
}

/// Away from the two points where the wrapping order is undefined (equal
/// values, and values exactly half the ring apart), the strict order is
/// anti-symmetric: exactly one of `seq_gt(a, b)` and `seq_gt(b, a)` holds.
pub proof fn lemma_seq_gt_antisymmetric(a: u32, b: u32)
    requires
        a != b,
        seq_diff(a, b) != 0x8000_0000,
    ensures
        spec_seq_gt(a, b) <==> !spec_seq_gt(b, a),
{
    assert(seq_diff(a, b) + seq_diff(b, a) == 0x1_0000_0000) by (nonlinear_arith)
        requires
            a != b,
            0 <= a < 0x1_0000_0000,
            0 <= b < 0x1_0000_0000,
            seq_diff(a, b) == (a as int - b as int + 0x1_0000_0000) % 0x1_0000_0000,
            seq_diff(b, a) == (b as int - a as int + 0x1_0000_0000) % 0x1_0000_0000,
    ;
}

/// Big-endian 16-bit value formed by the first two bytes of a sequence.
pub open spec fn be16_val(s: Seq<u8>) -> int {
    s[0] as int * 256 + s[1] as int
}

/// Big-endian 32-bit value formed by the first four bytes of a sequence.
pub open spec fn be32_val(s: Seq<u8>) -> int {
    s[0] as int * 0x1000000 + s[1] as int * 0x10000 + s[2] as int * 0x100 + s[3] as int
}

/// Read a big-endian 16-bit field from the front of `buffer`.
pub fn get_be16(buffer: &[u8]) -> (r: u16)
    requires
        buffer@.len() >= 2,
    ensures
        r as int == be16_val(buffer@),
{
    (buffer[0] as u16) * 256 + (buffer[1] as u16)
}

/// Read a big-endian 32-bit field from the front of `buffer`.
pub fn get_be32(buffer: &[u8]) -> (r: u32)
    requires
        buffer@.len() >= 4,
    ensures
        r as int == be32_val(buffer@),
{
    (buffer[0] as u32) * 0x1000000 + (buffer[1] as u32) * 0x10000 + (buffer[2] as u32) * 0x100
        + (buffer[3] as u32)
}

/// The two big-endian bytes of a 16-bit value.
pub open spec fn be16_bytes(value: u16) -> Seq<u8> {
    seq![(value as int / 256) as u8, (value as int % 256) as u8]
}

/// The four big-endian bytes of a 32-bit value.
pub open spec fn be32_bytes(value: u32) -> Seq<u8> {
    seq![
        (value as int / 0x1000000) as u8,
        (value as int / 0x10000 % 256) as u8,
        (value as int / 256 % 256) as u8,
        (value as int % 256) as u8,
    ]
}

/// Write `value` as a big-endian 16-bit field at the front of `buffer`.
pub fn set_be16(buffer: &mut [u8], value: u16)
    requires
        old(buffer)@.len() >= 2,
    ensures
        final(buffer)@ == old(buffer)@.update(0, be16_bytes(value)[0]).update(
            1,
            be16_bytes(value)[1],
        ),
{
    buffer[0] = (value / 256) as u8;
    buffer[1] = (value % 256) as u8;
}

/// Write `value` as a big-endian 32-bit field at the front of `buffer`.
pub fn set_be32(buffer: &mut [u8], value: u32)
    requires
        old(buffer)@.len() >= 4,
    ensures
        final(buffer)@ == old(buffer)@.update(0, be32_bytes(value)[0]).update(
            1,
            be32_bytes(value)[1],
        ).update(2, be32_bytes(value)[2]).update(3, be32_bytes(value)[3]),
{
    buffer[0] = (value / 0x1000000) as u8;
    buffer[1] = (value / 0x10000 % 256) as u8;
    buffer[2] = (value / 256 % 256) as u8;
    buffer[3] = (value % 256) as u8;
}

/// Fold the one's-complement sum of every octet in `buffer` into
/// `initial_sum`, as if the buffer were one contiguous slice.
pub fn compute_buffer_ones_comp(initial_sum: u16, buffer: &NetBuffer) -> (r: u16)
    requires
        buffer.wf(),
    ensures
        r as int == ones_comp_sum(initial_sum as int, buffer@),
{
    let len = buffer.len();
    let mut v: Vec<u8> = vec![0u8; len];
    let copied = buffer.copy_to_slice(v.as_mut_slice());
    proof {
        assert(v@ =~= buffer@);
    }
    compute_ones_comp(initial_sum, v.as_slice())
}

/// The pseudo-header octets that bind an upper-layer checksum to its
/// addresses, protocol and length (RFC 9293 for v4, RFC 8200 for v6).
/// Lengths wider than the wire field are truncated, as a cast would.
pub open spec fn pseudo_header_bytes(
    source_ip: IPAddr,
    dest_ip: IPAddr,
    length: int,
    protocol: u8,
) -> Seq<u8> {
    if dest_ip is V4 {
        source_ip.bytes() + dest_ip.bytes() + seq![0u8, protocol] + be16_bytes(
            (length % 0x10000) as u16,
        )
    } else {
        source_ip.bytes() + dest_ip.bytes() + be32_bytes((length % 0x1_0000_0000) as u32) + seq![
            0u8,
            0u8,
            0u8,
            protocol,
        ]
    }
}

/// One's-complement sum of the pseudo-header for the family of `dest_ip`.
pub fn compute_pseudo_header_checksum(
    source_ip: IPAddr,
    dest_ip: IPAddr,
    length: usize,
    protocol: u8,
) -> (r: u16)
    requires
        source_ip is V4 <==> dest_ip is V4,
    ensures
        r as int == ones_comp_sum(0, pseudo_header_bytes(source_ip, dest_ip, length as int, protocol)),
{
    let mut ph: Vec<u8> = Vec::new();
    match (source_ip, dest_ip) {
        (IPAddr::V4(sa), IPAddr::V4(da)) => {
            ph.extend_from_slice(sa.as_slice());
            ph.extend_from_slice(da.as_slice());
            ph.push(0);
            ph.push(protocol);
            let lv: u16 = (length % 0x10000) as u16;
            ph.push((lv / 256) as u8);
            ph.push((lv % 256) as u8);
            proof {
                assert(ph@ =~= pseudo_header_bytes(source_ip, dest_ip, length as int, protocol));
            }
        },
        (IPAddr::V6(sa), IPAddr::V6(da)) => {
            ph.extend_from_slice(sa.as_slice());
            ph.extend_from_slice(da.as_slice());
            let lv: u32 = (length as u64 % 0x1_0000_0000) as u32;
            ph.push((lv / 0x1000000) as u8);
            ph.push((lv / 0x10000 % 256) as u8);
            ph.push((lv / 256 % 256) as u8);
            ph.push((lv % 256) as u8);
            ph.push(0);
            ph.push(0);
            ph.push(0);
            ph.push(protocol);
            proof {
                assert(ph@ =~= pseudo_header_bytes(source_ip, dest_ip, length as int, protocol));
            }
        },
        _ => {
            proof {
                assert(false);
            }
        },
    }
    compute_ones_comp(0, ph.as_slice())
}

/// The character for one decimal digit.
pub open spec fn dec_digit_char(d: int) -> char {
    if d == 0 {
        '0'
    } else if d == 1 {
        '1'
    } else if d == 2 {
        '2'
    } else if d == 3 {
        '3'
    } else if d == 4 {
        '4'
    } else if d == 5 {
        '5'
    } else if d == 6 {
        '6'
    } else if d == 7 {
        '7'
    } else if d == 8 {
        '8'
    } else {
        '9'
    }
}

/// The decimal digits of a non-negative number, most significant first.
pub open spec fn dec_str(n: int) -> Seq<char>
    decreases n,
{
    if n < 0 {
        Seq::<char>::empty()
    } else if n < 10 {
        seq![dec_digit_char(n)]
    } else {
        dec_str(n / 10).push(dec_digit_char(n % 10))
    }
}

/// The character for one hexadecimal digit.
pub open spec fn hex_digit_char(d: int) -> char {
    if d < 10 {
        dec_digit_char(d)
    } else if d == 10 {
        'a'
    } else if d == 11 {
        'b'
    } else if d == 12 {
        'c'
    } else if d == 13 {
        'd'
    } else if d == 14 {
        'e'
    } else {
        'f'
    }
}

/// A byte as two hexadecimal digits.
pub open spec fn hex_byte_str(b: int) -> Seq<char> {
    seq![hex_digit_char(b / 16), hex_digit_char(b % 16)]
}

/// A one-character string for a decimal digit.
fn dec_digit_string(d: u8) -> (r: &'static str)
    requires
        d < 10,
    ensures
        r@ == seq![dec_digit_char(d as int)],
{
    if d == 0 {
        proof {
            reveal_strlit("0");
        }
        let r = "0";
        proof {
            assert(r@ =~= seq![dec_digit_char(0)]);
        }
        r
    } else if d == 1 {
        proof {
            reveal_strlit("1");
        }
        let r = "1";
        proof {
            assert(r@ =~= seq![dec_digit_char(1)]);
        }
        r
    } else if d == 2 {
        proof {
            reveal_strlit("2");
        }
        let r = "2";
        proof {
            assert(r@ =~= seq![dec_digit_char(2)]);
        }
        r
    } else if d == 3 {
        proof {
            reveal_strlit("3");
        }
        let r = "3";
        proof {
            assert(r@ =~= seq![dec_digit_char(3)]);
        }
        r
    } else if d == 4 {
        proof {
            reveal_strlit("4");
        }
        let r = "4";
        proof {
            assert(r@ =~= seq![dec_digit_char(4)]);
        }
        r
    } else if d == 5 {
        proof {
            reveal_strlit("5");
        }
        let r = "5";
        proof {
            assert(r@ =~= seq![dec_digit_char(5)]);
        }
        r
    } else if d == 6 {
        proof {
            reveal_strlit("6");
        }
        let r = "6";
        proof {
            assert(r@ =~= seq![dec_digit_char(6)]);
        }
        r
    } else if d == 7 {
        proof {
            reveal_strlit("7");
        }
        let r = "7";
        proof {
            assert(r@ =~= seq![dec_digit_char(7)]);
        }
        r
    } else if d == 8 {
        proof {
            reveal_strlit("8");
        }
        let r = "8";
        proof {
            assert(r@ =~= seq![dec_digit_char(8)]);
        }
        r
    } else {
        proof {
            reveal_strlit("9");
        }
        let r = "9";
        proof {
            assert(r@ =~= seq![dec_digit_char(9)]);
        }
        r
    }
}

/// A one-character string for a hexadecimal digit.
fn hex_digit_string(d: u8) -> (r: &'static str)
    requires
        d < 16,
    ensures
        r@ == seq![hex_digit_char(d as int)],
{
    if d < 10 {
        dec_digit_string(d)
    } else if d == 10 {
        proof {
            reveal_strlit("a");
        }
        let r = "a";
        proof {
            assert(r@ =~= seq![hex_digit_char(10)]);
        }
        r
    } else if d == 11 {
        proof {
            reveal_strlit("b");
        }
        let r = "b";
        proof {
            assert(r@ =~= seq![hex_digit_char(11)]);
        }
        r
    } else if d == 12 {
        proof {
            reveal_strlit("c");
        }
        let r = "c";
        proof {
            assert(r@ =~= seq![hex_digit_char(12)]);
        }
        r
    } else if d == 13 {
        proof {
            reveal_strlit("d");
        }
        let r = "d";
        proof {
            assert(r@ =~= seq![hex_digit_char(13)]);
        }
        r
    } else if d == 14 {
        proof {
            reveal_strlit("e");
        }
        let r = "e";
        proof {
            assert(r@ =~= seq![hex_digit_char(14)]);
        }
        r
    } else {
        proof {
            reveal_strlit("f");
        }
        let r = "f";
        proof {
            assert(r@ =~= seq![hex_digit_char(15)]);
        }
        r
    }
}

/// A byte in decimal, without leading zeroes.
fn dec_byte_string(n: u8) -> (r: String)
    ensures
        r@ == dec_str(n as int),
{
    proof {
        reveal_with_fuel(dec_str, 4);
    }
    if n < 10 {
        String::from_str(dec_digit_string(n))
    } else if n < 100 {
        let mut s = String::from_str(dec_digit_string(n / 10));
        s.append(dec_digit_string(n % 10));
        proof {
            assert(s@ =~= dec_str(n as int));
        }
        s
    } else {
        let mut s = String::from_str(dec_digit_string(n / 100));
        s.append(dec_digit_string(n / 10 % 10));
        s.append(dec_digit_string(n % 10));
        proof {
            assert(s@ =~= dec_str(n as int));
        }
        s
    }
}

/// The dotted-decimal text of an IPv4 address given as one 32-bit value.
pub open spec fn ip_str_spec(addr: u32) -> Seq<char> {
    dec_str(addr as int / 0x1000000) + seq!['.'] + dec_str(addr as int / 0x10000 % 256) + seq![
        '.',
    ] + dec_str(addr as int / 256 % 256) + seq!['.'] + dec_str(addr as int % 256)
}

/// Format an IPv4 address, given as one 32-bit value, in dotted decimal.
pub fn ip_to_str(addr: u32) -> (r: String)
    ensures
        r@ == ip_str_spec(addr),
{
    proof {
        reveal_strlit(".");
    }
    let mut s = dec_byte_string((addr / 0x1000000) as u8);
    s.append(".");
    let b1 = dec_byte_string((addr / 0x10000 % 256) as u8);
    s.append(b1.as_str());
    s.append(".");
    let b2 = dec_byte_string((addr / 256 % 256) as u8);
    s.append(b2.as_str());
    s.append(".");
    let b3 = dec_byte_string((addr % 256) as u8);
    s.append(b3.as_str());
    proof {
        assert(s@ =~= ip_str_spec(addr));
    }
    s
}

/// One 16-bit group of an IPv6 address as text: four hexadecimal digits,
/// or nothing when the group is zero.
pub open spec fn ipv6_group_str(a: Seq<u8>, i: int) -> Seq<char> {
    if a[2 * i] == 0 && a[2 * i + 1] == 0 {
        Seq::<char>::empty()
    } else {
        hex_byte_str(a[2 * i] as int) + hex_byte_str(a[2 * i + 1] as int)
    }
}

/// The text of the first `i` groups of an IPv6 address, colon-separated.
pub open spec fn ipv6_prefix_str(a: Seq<u8>, i: int) -> Seq<char>
    decreases i,
{
    if i <= 0 {
        Seq::<char>::empty()
    } else if i == 1 {
        ipv6_group_str(a, 0)
    } else {
        ipv6_prefix_str(a, i - 1) + seq![':'] + ipv6_group_str(a, i - 1)
    }
}

/// The text of an address: dotted decimal for v4; for v6, eight
/// colon-separated groups of four hexadecimal digits, a zero group
/// printing as nothing.
pub open spec fn addr_str_spec(a: IPAddr) -> Seq<char> {
    match a {
        IPAddr::V4(b) => dec_str(b@[0] as int) + seq!['.'] + dec_str(b@[1] as int) + seq!['.']
            + dec_str(b@[2] as int) + seq!['.'] + dec_str(b@[3] as int),
        IPAddr::V6(b) => ipv6_prefix_str(b@, 8),
    }
}

impl IPAddr {
    /// The address as text, for logs and diagnostics.
    pub fn to_display_string(&self) -> (r: String)
        ensures
            r@ == addr_str_spec(*self),
    {
        proof {
            reveal_strlit(".");
            reveal_strlit(":");
        }
        match self {
            IPAddr::V4(a) => {
                let mut s = dec_byte_string(a[0]);
                s.append(".");
                let b1 = dec_byte_string(a[1]);
                s.append(b1.as_str());
                s.append(".");
                let b2 = dec_byte_string(a[2]);
                s.append(b2.as_str());
                s.append(".");
                let b3 = dec_byte_string(a[3]);
                s.append(b3.as_str());
                proof {
                    assert(s@ =~= addr_str_spec(*self));
                }
                s
            },
            IPAddr::V6(a) => {
                let mut s = String::new();
                let mut i: usize = 0;
                proof {
                    assert(s@ =~= ipv6_prefix_str(a@, 0));
                }
                while i < 8
                    invariant
                        i <= 8,
                        s@ == ipv6_prefix_str(a@, i as int),
                    decreases 8 - i,
                {
                    proof {
                        reveal_strlit(":");
                    }
                    if i != 0 {
                        s.append(":");
                    }
                    let b0 = a[2 * i];
                    let b1 = a[2 * i + 1];
                    if !(b0 == 0 && b1 == 0) {
                        let h0 = hex_digit_string(b0 / 16);
                        let h1 = hex_digit_string(b0 % 16);
                        let h2 = hex_digit_string(b1 / 16);
                        let h3 = hex_digit_string(b1 % 16);
                        s.append(h0);
                        s.append(h1);
                        s.append(h2);
                        s.append(h3);
                    }
                    i = i + 1;
                    proof {
                        assert(s@ =~= ipv6_prefix_str(a@, i as int));
                    }
                }
                proof {
                    assert(s@ =~= addr_str_spec(*self));
                }
                s
            },
        }
    }
}

/// A saturating-free event counter; additions wrap like the hardware
/// counters they stand for.
pub struct PerfCounter {
    count: u32,
}

impl PerfCounter {
    /// The current count.
    pub closed spec fn spec_count(&self) -> int {
        self.count as int
    }

    /// A counter at zero.
    pub fn new() -> (r: PerfCounter)
        ensures
            r.spec_count() == 0,
    {
        PerfCounter { count: 0 }
    }

    /// Count one event.
    pub fn inc(&mut self)
        ensures
            final(self).spec_count() == (old(self).spec_count() + 1) % 0x1_0000_0000,
    {
        self.count = self.count.wrapping_add(1);
    }

    /// Count `value` events at once.
    pub fn add(&mut self, value: u32)
        ensures
            final(self).spec_count() == (old(self).spec_count() + value) % 0x1_0000_0000,
    {
        self.count = self.count.wrapping_add(value);
    }

    /// Read the counter.
    pub fn get(&self) -> (r: u32)
        ensures
            r == self.spec_count(),
    {
        self.count
    }
}

impl Default for PerfCounter {
    /// A counter at zero.
    fn default() -> (r: PerfCounter)
        ensures
            r.spec_count() == 0,
    {
        PerfCounter::new()
    }
}

/// Stack-wide event counters.  The buffer counters exist for embedders
/// that pool fragment storage themselves; the library's own buffers use
/// the native allocator, so nothing here ticks them.
pub struct Metrics {
    pub packets_received: PerfCounter,
    pub packets_sent: PerfCounter,
    pub packets_retransmitted: PerfCounter,
    pub buffers_allocated: PerfCounter,
    pub buffers_freed: PerfCounter,
    pub buffers_created: PerfCounter,
}

impl Metrics {
    /// All counters at zero.
    pub fn new() -> (r: Metrics)
        ensures
            r.packets_received.spec_count() == 0,
            r.packets_sent.spec_count() == 0,
            r.packets_retransmitted.spec_count() == 0,
            r.buffers_allocated.spec_count() == 0,
            r.buffers_freed.spec_count() == 0,
            r.buffers_created.spec_count() == 0,
    {
        Metrics {
            packets_received: PerfCounter::new(),
            packets_sent: PerfCounter::new(),
            packets_retransmitted: PerfCounter::new(),
            buffers_allocated: PerfCounter::new(),
            buffers_freed: PerfCounter::new(),
            buffers_created: PerfCounter::new(),
        }
    }
}

} // verus!
