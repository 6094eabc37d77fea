//! The TCP engine: segment encode/decode, connection state machine,
//! out-of-order reassembly, acknowledgement policy, send with
//! retransmission, and the listen/accept path (RFC 9293).
//!
//! All functions here are driven from outside: incoming segments arrive as
//! values through `tcp_input`, time arrives as a parameter, and every
//! outgoing segment is queued on the stack's outbound frame list.

use crate::buf::NetBuffer;
use crate::buf::FRAGMENT_SIZE;
use crate::ip::{ip_output, ipv4_frame_bytes, ipv6_frame_bytes, IPV4_BASE_HEADER_LEN, PROTO_TCP};
use crate::stack::{NetStack, StackCtx};
use crate::timer::{cancel_timer, set_timer, PendingTimer, TimerAction, TimerList};
use crate::util::{
    be16_bytes, be16_val, be32_bytes, compute_buffer_ones_comp, compute_ones_comp,
    compute_pseudo_header_checksum, lemma_ones_comp_sum_concat, lemma_ones_comp_sum_bound,
    ones_comp_sum, pseudo_header_bytes, seq_gt, seq_le, seq_lt, spec_seq_gt, spec_seq_le,
    spec_seq_lt, IPAddr, NetError,
};
use vstd::prelude::*;
use vstd::slice::slice_subrange;
use vstd::std_specs::vec::vec_index_mut;

verus! {

/// TCP connection states (RFC 9293 section 3.3.2).
#[derive(Clone, Copy, Debug, PartialEq, Eq, Structural)]
pub enum TCPState {
    Closed,
    SynSent,
    Established,
    CloseWait,
    LastAck,
    FinWait1,
    FinWait2,
    Closing,
    TimeWait,
    Listen,
    SynReceived,
}

pub const FLAG_FIN: u8 = 1;

pub const FLAG_SYN: u8 = 2;

pub const FLAG_RST: u8 = 4;

pub const FLAG_PSH: u8 = 8;

pub const FLAG_ACK: u8 = 16;

/// `base` advanced by `amount` octets of sequence space, wrapping at 2^32.
pub open spec fn seq_add(base: u32, amount: int) -> u32 {
    (((base as int) + amount) % 0x1_0000_0000) as u32
}

/// An out-of-order segment held for reassembly: starting sequence number
/// and payload.
pub struct OooSegment {
    pub seq_num: u32,
    pub payload: NetBuffer,
}

/// Reorders segments into a contiguous byte stream.  `next_sequence` is the
/// sequence number of the next octet owed to the receive queue; segments
/// that arrive beyond it wait in `out_of_order`.
pub struct TCPReassembler {
    next_sequence: u32,
    out_of_order: Vec<OooSegment>,
}

/// The reassembler's held segments, as (sequence, payload) pairs.
pub open spec fn ooo_model(s: Seq<OooSegment>) -> Seq<(u32, Seq<u8>)> {
    s.map_values(|e: OooSegment| (e.seq_num, e.payload@))
}

/// Total octets held across a set of out-of-order segments.
pub open spec fn ooo_total(s: Seq<(u32, Seq<u8>)>) -> int
    decreases s.len(),
{
    if s.len() == 0 {
        0
    } else {
        s[0].1.len() + ooo_total(s.drop_first())
    }
}

proof fn lemma_ooo_total_nonneg(s: Seq<(u32, Seq<u8>)>)
    ensures
        ooo_total(s) >= 0,
    decreases s.len(),
{
    if s.len() > 0 {
        lemma_ooo_total_nonneg(s.drop_first());
    }
}

proof fn lemma_ooo_total_remove(s: Seq<(u32, Seq<u8>)>, i: int)
    requires
        0 <= i < s.len(),
    ensures
        ooo_total(s.remove(i)) == ooo_total(s) - s[i].1.len(),
    decreases s.len(),
{
    if i == 0 {
        assert(s.remove(0) =~= s.drop_first());
    } else {
        lemma_ooo_total_remove(s.drop_first(), i - 1);
        assert(s.remove(i).drop_first() =~= s.drop_first().remove(i - 1));
        assert(s.remove(i)[0] == s[0]);
    }
}

/// One pass of the reassembler's splice scan, mirrored as a function.
/// Starting from slot `i`: a held segment from before the arriving segment
/// `seq0` is discarded; one that starts exactly at `next` is spliced onto
/// `acc` (and the scan restarts); any other is kept and skipped.
pub open spec fn reasm_scan(
    seq0: u32,
    next: u32,
    ooo: Seq<(u32, Seq<u8>)>,
    acc: Seq<u8>,
    i: int,
) -> (u32, Seq<(u32, Seq<u8>)>, Seq<u8>)
    decreases ooo.len(), ooo.len() - i,
{
    if i < 0 || i >= ooo.len() {
        (next, ooo, acc)
    } else if spec_seq_gt(seq0, ooo[i].0) {
        reasm_scan(seq0, next, ooo.remove(i), acc, i)
    } else if ooo[i].0 == next {
        reasm_scan(seq0, seq_add(next, ooo[i].1.len() as int), ooo.remove(i), acc + ooo[i].1, 0)
    } else {
        reasm_scan(seq0, next, ooo, acc, i + 1)
    }
}

/// The scan only ever extends the output at its tail: whatever it emits
/// begins with the bytes it was started with.
pub proof fn lemma_reasm_scan_prefix(
    seq0: u32,
    next: u32,
    ooo: Seq<(u32, Seq<u8>)>,
    acc: Seq<u8>,
    i: int,
)
    ensures
        reasm_scan(seq0, next, ooo, acc, i).2.len() >= acc.len(),
        reasm_scan(seq0, next, ooo, acc, i).2.take(acc.len() as int) == acc,
    decreases ooo.len(), ooo.len() - i,
{
    if i < 0 || i >= ooo.len() {
        assert(acc.take(acc.len() as int) =~= acc);
    } else if spec_seq_gt(seq0, ooo[i].0) {
        lemma_reasm_scan_prefix(seq0, next, ooo.remove(i), acc, i);
    } else if ooo[i].0 == next {
        let next2 = seq_add(next, ooo[i].1.len() as int);
        lemma_reasm_scan_prefix(seq0, next2, ooo.remove(i), acc + ooo[i].1, 0);
        let r = reasm_scan(seq0, next2, ooo.remove(i), acc + ooo[i].1, 0);
        assert(r.2.take(acc.len() as int) =~= r.2.take((acc + ooo[i].1).len() as int).take(
            acc.len() as int,
        ));
        assert((acc + ooo[i].1).take(acc.len() as int) =~= acc);
    } else {
        lemma_reasm_scan_prefix(seq0, next, ooo, acc, i + 1);
    }
}

/// In-order delivery, one arrival at a time: when the scan starts with
/// `next` exactly at the end of `acc`'s run from `seq0`, it ends the same
/// way, so the emitted run covers exactly `[seq0, seq0 + emitted.len())`
/// in sequence space and `next_expected` lands at its end.  Together with
/// the wrap-safe `seq_add` this is what makes reassembly correct across
/// the 2^32 boundary.
pub proof fn lemma_reasm_scan_contiguous(
    seq0: u32,
    next: u32,
    ooo: Seq<(u32, Seq<u8>)>,
    acc: Seq<u8>,
    i: int,
)
    requires
        next == seq_add(seq0, acc.len() as int),
    ensures
        reasm_scan(seq0, next, ooo, acc, i).0 == seq_add(
            seq0,
            reasm_scan(seq0, next, ooo, acc, i).2.len() as int,
        ),
    decreases ooo.len(), ooo.len() - i,
{
    if i < 0 || i >= ooo.len() {
    } else if spec_seq_gt(seq0, ooo[i].0) {
        lemma_reasm_scan_contiguous(seq0, next, ooo.remove(i), acc, i);
    } else if ooo[i].0 == next {
        let next2 = seq_add(next, ooo[i].1.len() as int);
        assert(next2 == seq_add(seq0, (acc + ooo[i].1).len() as int)) by (nonlinear_arith)
            requires
                next == seq_add(seq0, acc.len() as int),
                next2 == seq_add(next, ooo[i].1.len() as int),
                0 <= seq0 < 0x1_0000_0000,
        ;
        lemma_reasm_scan_contiguous(seq0, next2, ooo.remove(i), acc + ooo[i].1, 0);
    } else {
        lemma_reasm_scan_contiguous(seq0, next, ooo, acc, i + 1);
    }
}

/// The next expected sequence number never moves backwards: one arrival
/// advances it by exactly the octets emitted, so as long as fewer than
/// half the sequence space is emitted at once, the new position is at or
/// after the old one in wrapping order.
pub proof fn lemma_reasm_next_monotonic(
    seq0: u32,
    next: u32,
    ooo: Seq<(u32, Seq<u8>)>,
    acc: Seq<u8>,
    i: int,
)
    requires
        next == seq_add(seq0, acc.len() as int),
        reasm_scan(seq0, next, ooo, acc, i).2.len() - acc.len() < 0x8000_0000,
    ensures
        spec_seq_le(next, reasm_scan(seq0, next, ooo, acc, i).0),
{
    lemma_reasm_scan_prefix(seq0, next, ooo, acc, i);
    lemma_reasm_scan_contiguous(seq0, next, ooo, acc, i);
    let out = reasm_scan(seq0, next, ooo, acc, i).2;
    let fin = reasm_scan(seq0, next, ooo, acc, i).0;
    assert(!spec_seq_gt(next, fin)) by (nonlinear_arith)
        requires
            fin == seq_add(seq0, out.len() as int),
            next == seq_add(seq0, acc.len() as int),
            0 <= acc.len() <= out.len(),
            out.len() - acc.len() < 0x8000_0000,
            0 <= seq0 < 0x1_0000_0000,
            fin == ((seq0 as int + out.len() as int) % 0x1_0000_0000) as u32,
            next == ((seq0 as int + acc.len() as int) % 0x1_0000_0000) as u32,
            spec_seq_gt(next, fin) == (0 < (next as int - fin as int + 0x1_0000_0000)
                % 0x1_0000_0000 < 0x8000_0000),
    ;
}

/// The payload of segment `e` is the window of the byte stream `source`
/// (which begins at sequence number `base`) that its sequence number
/// names.
pub open spec fn seg_matches_source(source: Seq<u8>, base: u32, e: (u32, Seq<u8>)) -> bool {
    let off = crate::util::seq_diff(e.0, base);
    off + e.1.len() <= source.len() && e.1 == source.subrange(off, off + e.1.len() as int)
}

/// Full in-order delivery: when every held segment and the run assembled
/// so far are windows of one source stream, everything the scan emits is
/// that stream's bytes in order — under any arrival permutation, and
/// across the sequence-number wrap as long as the stream is shorter than
/// the sequence space.
#[verifier::rlimit(50)]
pub proof fn lemma_reasm_scan_delivers_source(
    source: Seq<u8>,
    base: u32,
    seq0: u32,
    next: u32,
    ooo: Seq<(u32, Seq<u8>)>,
    acc: Seq<u8>,
    i: int,
)
    requires
        source.len() < 0x1_0000_0000,
        forall|j: int| 0 <= j < ooo.len() ==> seg_matches_source(source, base, #[trigger] ooo[j]),
        seg_matches_source(source, base, (seq0, acc)),
        next == seq_add(seq0, acc.len() as int),
    ensures
        seg_matches_source(source, base, (seq0, reasm_scan(seq0, next, ooo, acc, i).2)),
        forall|j: int|
            0 <= j < reasm_scan(seq0, next, ooo, acc, i).1.len() ==> seg_matches_source(
                source,
                base,
                #[trigger] reasm_scan(seq0, next, ooo, acc, i).1[j],
            ),
    decreases ooo.len(), ooo.len() - i,
{
    if i < 0 || i >= ooo.len() {
    } else if spec_seq_gt(seq0, ooo[i].0) {
        lemma_reasm_scan_delivers_source(source, base, seq0, next, ooo.remove(i), acc, i);
    } else if ooo[i].0 == next {
        let e = ooo[i];
        let off0 = crate::util::seq_diff(seq0, base);
        let acc2 = acc + e.1;
        assert(crate::util::seq_diff(e.0, base) == off0 + acc.len()) by (nonlinear_arith)
            requires
                e.0 == next,
                next == seq_add(seq0, acc.len() as int),
                crate::util::seq_diff(e.0, base) == (e.0 as int - base as int + 0x1_0000_0000)
                    % 0x1_0000_0000,
                crate::util::seq_diff(seq0, base) == (seq0 as int - base as int + 0x1_0000_0000)
                    % 0x1_0000_0000,
                off0 == crate::util::seq_diff(seq0, base),
                0 <= base < 0x1_0000_0000,
                0 <= seq0 < 0x1_0000_0000,
                0 <= e.0 < 0x1_0000_0000,
                off0 + acc.len() + e.1.len() <= source.len() < 0x1_0000_0000,
                next == ((seq0 as int + acc.len() as int) % 0x1_0000_0000) as u32,
        ;
        assert(acc2 == source.subrange(off0, off0 + acc2.len() as int)) by {
            assert(acc2 =~= source.subrange(off0, off0 + acc.len() as int) + source.subrange(
                off0 + acc.len() as int,
                off0 + acc.len() + e.1.len() as int,
            ));
            assert(source.subrange(off0, off0 + acc.len() as int) + source.subrange(
                off0 + acc.len() as int,
                off0 + acc.len() + e.1.len() as int,
            ) =~= source.subrange(off0, off0 + acc2.len() as int));
        }
        assert(seq_add(next, e.1.len() as int) == seq_add(seq0, acc2.len() as int))
            by (nonlinear_arith)
            requires
                next == seq_add(seq0, acc.len() as int),
                0 <= seq0 < 0x1_0000_0000,
                0 <= acc.len(),
                0 <= e.1.len(),
                acc2.len() == acc.len() + e.1.len(),
        ;
        lemma_reasm_scan_delivers_source(
            source,
            base,
            seq0,
            seq_add(next, e.1.len() as int),
            ooo.remove(i),
            acc2,
            0,
        );
    } else {
        lemma_reasm_scan_delivers_source(source, base, seq0, next, ooo, acc, i + 1);
    }
}

/// No segment from before `seq0` is present in `s`.
pub open spec fn no_stale_entries(seq0: u32, s: Seq<(u32, Seq<u8>)>) -> bool {
    forall|j: int| 0 <= j < s.len() ==> !spec_seq_gt(seq0, (#[trigger] s[j]).0)
}

/// A stale segment — one wholly from before the arriving segment — never
/// survives a scan that examines it, and is never spliced into the output:
/// every splice takes a segment with `!seq_gt(seq0, seq)`.  Slots before
/// `i` must already have been examined.
pub proof fn lemma_reasm_scan_no_stale(
    seq0: u32,
    next: u32,
    ooo: Seq<(u32, Seq<u8>)>,
    acc: Seq<u8>,
    i: int,
)
    requires
        0 <= i,
        forall|j: int| 0 <= j < i && j < ooo.len() ==> !spec_seq_gt(seq0, (#[trigger] ooo[j]).0),
    ensures
        no_stale_entries(seq0, reasm_scan(seq0, next, ooo, acc, i).1),
    decreases ooo.len(), ooo.len() - i,
{
    if i < 0 || i >= ooo.len() {
    } else if spec_seq_gt(seq0, ooo[i].0) {
        assert(forall|j: int|
            0 <= j < i && j < ooo.remove(i).len() ==> !spec_seq_gt(
                seq0,
                (#[trigger] ooo.remove(i)[j]).0,
            ));
        lemma_reasm_scan_no_stale(seq0, next, ooo.remove(i), acc, i);
    } else if ooo[i].0 == next {
        lemma_reasm_scan_no_stale(
            seq0,
            seq_add(next, ooo[i].1.len() as int),
            ooo.remove(i),
            acc + ooo[i].1,
            0,
        );
    } else {
        lemma_reasm_scan_no_stale(seq0, next, ooo, acc, i + 1);
    }
}

impl TCPReassembler {
    /// The sequence number of the next expected octet.
    pub closed spec fn next(&self) -> u32 {
        self.next_sequence
    }

    /// The held out-of-order segments, in arrival order.
    pub closed spec fn ooo(&self) -> Seq<(u32, Seq<u8>)> {
        ooo_model(self.out_of_order@)
    }

    pub closed spec fn wf(&self) -> bool {
        forall|j: int|
            0 <= j < self.out_of_order@.len() ==> (#[trigger] self.out_of_order@[j]).payload.wf()
    }

    /// A reassembler expecting sequence number zero, holding nothing.
    pub fn new() -> (r: TCPReassembler)
        ensures
            r.wf(),
            r.next() == 0,
            r.ooo() == Seq::<(u32, Seq<u8>)>::empty(),
    {
        let r = TCPReassembler { next_sequence: 0, out_of_order: Vec::new() };
        proof {
            assert(r.ooo() =~= Seq::<(u32, Seq<u8>)>::empty());
        }
        r
    }

    /// Reset the next expected sequence number (done once, when the
    /// connection's initial sequence number is learned).
    pub fn set_next_expect(&mut self, seq_num: u32)
        requires
            old(self).wf(),
        ensures
            final(self).wf(),
            final(self).next() == seq_num,
            final(self).ooo() == old(self).ooo(),
    {
        self.next_sequence = seq_num;
    }

    /// Drop every held out-of-order segment (used when a connection is
    /// reset, since a closed socket owes the peer nothing).
    pub fn clear_ooo(&mut self)
        requires
            old(self).wf(),
        ensures
            final(self).wf(),
            final(self).next() == old(self).next(),
            final(self).ooo() == Seq::<(u32, Seq<u8>)>::empty(),
    {
        self.out_of_order = Vec::new();
        proof {
            assert(self.ooo() =~= Seq::<(u32, Seq<u8>)>::empty());
        }
    }

    /// The sequence number of the next expected octet.
    pub fn get_next_expect(&self) -> (r: u32)
        ensures
            r == self.next(),
    {
        self.next_sequence
    }

    /// Number of out-of-order segments currently held.
    pub fn ooo_count(&self) -> (r: usize)
        ensures
            r == self.ooo().len(),
    {
        self.out_of_order.len()
    }

    /// Accept the segment `(packet, seq_num)`.  If it starts exactly at the
    /// next expected octet, it is emitted at once, extended by every held
    /// segment that now continues the run (stale ones are discarded), and
    /// `next` advances past everything emitted.  Any other segment is held
    /// for later and nothing is emitted.
    pub fn add_packet(&mut self, packet: NetBuffer, seq_num: u32) -> (r: Option<NetBuffer>)
        requires
            old(self).wf(),
            packet.wf(),
            packet@.len() + ooo_total(old(self).ooo()) <= usize::MAX,
        ensures
            final(self).wf(),
            seq_num != old(self).next() ==> {
                &&& r is None
                &&& final(self).next() == old(self).next()
                &&& final(self).ooo() == old(self).ooo().push((seq_num, packet@))
            },
            seq_num == old(self).next() ==> {
                &&& r is Some
                &&& r->Some_0.wf()
                &&& ({
                    let scan = reasm_scan(
                        seq_num,
                        seq_add(seq_num, packet@.len() as int),
                        old(self).ooo(),
                        packet@,
                        0,
                    );
                    &&& final(self).next() == scan.0
                    &&& final(self).ooo() == scan.1
                    &&& r->Some_0@ == scan.2
                })
            },
    {
        if seq_num != self.get_next_expect() {
            self.out_of_order.push(OooSegment { seq_num, payload: packet });
            proof {
                assert(self.ooo() =~= old(self).ooo().push((seq_num, packet@)));
            }
            return None;
        }
        let mut packet = packet;
        self.next_sequence = wrap_add_usize(self.next_sequence, packet.len());
        let ghost orig_ooo = self.ooo();
        let ghost orig_acc = packet@;
        let ghost orig_next = self.next_sequence;
        let mut i: usize = 0;
        while i < self.out_of_order.len()
            invariant
                self.wf(),
                packet.wf(),
                i <= self.ooo().len(),
                packet@.len() + ooo_total(self.ooo()) <= usize::MAX,
                reasm_scan(seq_num, self.next(), self.ooo(), packet@, i as int) == reasm_scan(
                    seq_num,
                    orig_next,
                    orig_ooo,
                    orig_acc,
                    0,
                ),
            decreases self.ooo().len(), self.ooo().len() - i,
        {
            let ghost pre_ooo = self.ooo();
            let ghost pre_acc = packet@;
            let ghost pre_next = self.next();
            let entry_seq = self.out_of_order[i].seq_num;
            proof {
                assert(pre_ooo[i as int] == (self.out_of_order@[i as int].seq_num,
                    self.out_of_order@[i as int].payload@));
                assert(pre_ooo[i as int].0 == entry_seq);
            }
            if seq_gt(seq_num, entry_seq) {
                let _dead = self.out_of_order.remove(i);
                proof {
                    assert(self.ooo() =~= pre_ooo.remove(i as int));
                    lemma_ooo_total_remove(pre_ooo, i as int);
                    lemma_ooo_total_nonneg(self.ooo());
                    assert(spec_seq_gt(seq_num, pre_ooo[i as int].0));
                    assert(reasm_scan(seq_num, pre_next, pre_ooo, pre_acc, i as int) == reasm_scan(
                        seq_num,
                        pre_next,
                        pre_ooo.remove(i as int),
                        pre_acc,
                        i as int,
                    ));
                }
            } else if entry_seq == self.get_next_expect() {
                let ghost i0 = i as int;
                proof {
                    assert(self.out_of_order@[i0].payload.wf());
                    lemma_ooo_total_remove(pre_ooo, i0);
                    lemma_ooo_total_nonneg(pre_ooo.remove(i0));
                    assert(reasm_scan(seq_num, pre_next, pre_ooo, pre_acc, i0) == reasm_scan(
                        seq_num,
                        seq_add(pre_next, pre_ooo[i0].1.len() as int),
                        pre_ooo.remove(i0),
                        pre_acc + pre_ooo[i0].1,
                        0,
                    )) by {
                        assert(!spec_seq_gt(seq_num, pre_ooo[i0].0));
                        assert(pre_ooo[i0].0 == pre_next);
                    }
                }
                let entry = self.out_of_order.remove(i);
                proof {
                    assert(self.ooo() =~= pre_ooo.remove(i0));
                }
                let entry_len = entry.payload.len();
                self.next_sequence = wrap_add_usize(self.next_sequence, entry_len);
                packet.append_buffer(entry.payload);
                i = 0;
            } else {
                i = i + 1;
                proof {
                    assert(reasm_scan(seq_num, pre_next, pre_ooo, pre_acc, i as int - 1)
                        == reasm_scan(seq_num, pre_next, pre_ooo, pre_acc, i as int));
                }
            }
        }
        proof {
            assert(reasm_scan(seq_num, self.next(), self.ooo(), packet@, i as int) == (
                self.next(),
                self.ooo(),
                packet@,
            ));
        }
        Some(packet)
    }
}

pub const TCP_HEADER_LEN: usize = 20;

pub const EPHEMERAL_PORT_BASE: u16 = 49152;

pub const RETRANSMIT_INTERVAL: u32 = 1000;

pub const MAX_ACK_DELAY: u32 = 500;

pub const MAX_DELAYED_ACKS: u32 = 5;

pub const RESPONSE_TIMEOUT: u32 = 3000;

pub const TIME_WAIT_TIMEOUT: u32 = 5000;

pub const DEFAULT_TCP_MSS: usize = 536;

pub const MAX_RECEIVE_WINDOW: u16 = 0xffff;

pub const MAX_RETRIES: u32 = 5;

/// Fields of an outgoing segment, gathered for `tcp_output`.
pub struct TCPSendParams<'a> {
    pub source_port: u16,
    pub dest_ip: IPAddr,
    pub dest_port: u16,
    pub seq_num: u32,
    pub ack_num: u32,
    pub flags: u8,
    pub window: u16,
    pub options: &'a [u8],
}

/// The TCP header octets before the checksum is filled in: ports,
/// sequence and acknowledgement numbers, data offset, flags, window,
/// zero checksum, zero urgent pointer, then the options.
pub open spec fn tcp_header_pre(
    source_port: u16,
    dest_port: u16,
    seq_num: u32,
    ack_num: u32,
    flags: u8,
    window: u16,
    options: Seq<u8>,
) -> Seq<u8> {
    be16_bytes(source_port) + be16_bytes(dest_port) + be32_bytes(seq_num) + be32_bytes(ack_num)
        + seq![((((TCP_HEADER_LEN + options.len()) / 4) * 16) % 256) as u8, flags] + be16_bytes(
        window,
    ) + seq![0u8, 0u8, 0u8, 0u8] + options
}

/// A complete TCP segment: the header with its checksum over the
/// pseudo-header, header and payload, then the payload.
pub open spec fn tcp_segment_bytes(
    src_ip: IPAddr,
    dest_ip: IPAddr,
    source_port: u16,
    dest_port: u16,
    seq_num: u32,
    ack_num: u32,
    flags: u8,
    window: u16,
    options: Seq<u8>,
    payload: Seq<u8>,
) -> Seq<u8> {
    let h0 = tcp_header_pre(source_port, dest_port, seq_num, ack_num, flags, window, options);
    let total = h0.len() + payload.len();
    let sum = ones_comp_sum(
        ones_comp_sum(0, pseudo_header_bytes(src_ip, dest_ip, total as int, PROTO_TCP)),
        h0 + payload,
    );
    let ck = 0xffff - sum;
    h0.update(16, (ck / 256) as u8).update(17, (ck % 256) as u8) + payload
}

/// Encode `packet` as a TCP segment per `params`, checksum it against the
/// pseudo-header of the destination's family, and hand it to the IP layer.
pub fn tcp_output(ctx: &mut StackCtx, packet: NetBuffer, params: &TCPSendParams)
    requires
        old(ctx).wf(),
        packet.wf(),
        params.options@.len() % 4 == 0,
        TCP_HEADER_LEN + params.options@.len() <= FRAGMENT_SIZE,
        packet@.len() + TCP_HEADER_LEN + params.options@.len() + IPV4_BASE_HEADER_LEN <= 0xffff,
    ensures
        final(ctx).wf(),
        final(ctx).same_except_frames(old(ctx)),
        final(ctx).out_frames@.len() == old(ctx).out_frames@.len() + 1,
        forall|i: int|
            0 <= i < old(ctx).out_frames@.len() ==> final(ctx).out_frames@[i] == old(
                ctx,
            ).out_frames@[i],
        ({
            let src_ip = if params.dest_ip is V4 {
                old(ctx).local_ip_v4
            } else {
                old(ctx).local_ip_v6
            };
            let seg = tcp_segment_bytes(
                src_ip,
                params.dest_ip,
                params.source_port,
                params.dest_port,
                params.seq_num,
                params.ack_num,
                params.flags,
                params.window,
                params.options@,
                packet@,
            );
            if params.dest_ip is V4 {
                final(ctx).out_frames@.last()@ == ipv4_frame_bytes(
                    seg,
                    old(ctx).next_packet_id,
                    PROTO_TCP,
                    old(ctx).local_ip_v4,
                    params.dest_ip,
                )
            } else {
                final(ctx).out_frames@.last()@ == ipv6_frame_bytes(
                    seg,
                    PROTO_TCP,
                    old(ctx).local_ip_v6,
                    params.dest_ip,
                )
            }
        }),
{
    let mut packet = packet;
    let ghost payload = packet@;
    let header_length: usize = TCP_HEADER_LEN + params.options.len();
    let total_length: usize = packet.len() + header_length;

    let mut h: Vec<u8> = Vec::new();
    h.push((params.source_port / 256) as u8);
    h.push((params.source_port % 256) as u8);
    h.push((params.dest_port / 256) as u8);
    h.push((params.dest_port % 256) as u8);
    h.push((params.seq_num / 0x1000000) as u8);
    h.push((params.seq_num / 0x10000 % 256) as u8);
    h.push((params.seq_num / 256 % 256) as u8);
    h.push((params.seq_num % 256) as u8);
    h.push((params.ack_num / 0x1000000) as u8);
    h.push((params.ack_num / 0x10000 % 256) as u8);
    h.push((params.ack_num / 256 % 256) as u8);
    h.push((params.ack_num % 256) as u8);
    h.push(((header_length / 4 * 16) % 256) as u8);
    h.push(params.flags);
    h.push((params.window / 256) as u8);
    h.push((params.window % 256) as u8);
    h.push(0);
    h.push(0);
    h.push(0);
    h.push(0);
    h.extend_from_slice(params.options);
    let ghost h0 = tcp_header_pre(
        params.source_port,
        params.dest_port,
        params.seq_num,
        params.ack_num,
        params.flags,
        params.window,
        params.options@,
    );
    proof {
        assert(h@ =~= h0);
    }

    let src_ip = match params.dest_ip {
        IPAddr::V4(_) => ctx.local_ip_v4,
        IPAddr::V6(_) => ctx.local_ip_v6,
    };
    let ph_sum = compute_pseudo_header_checksum(
        src_ip,
        params.dest_ip,
        total_length,
        PROTO_TCP,
    );
    proof {
        lemma_ones_comp_sum_bound(0, pseudo_header_bytes(
            src_ip,
            params.dest_ip,
            total_length as int,
            PROTO_TCP,
        ));
    }
    let sum1 = compute_ones_comp(ph_sum, h.as_slice());
    let sum2 = compute_buffer_ones_comp(sum1, &packet);
    proof {
        lemma_ones_comp_sum_concat(ph_sum as int, h0, payload);
        lemma_ones_comp_sum_bound(ph_sum as int, h0 + payload);
    }
    let ck: u16 = 0xffff - sum2;
    let hs = h.as_mut_slice();
    hs[16] = (ck / 256) as u8;
    hs[17] = (ck % 256) as u8;
    proof {
        assert(h@ =~= h0.update(16, (ck / 256) as u8).update(17, (ck % 256) as u8));
    }
    packet.prepend_from_slice(h.as_slice());
    proof {
        assert(packet@ =~= tcp_segment_bytes(
            src_ip,
            params.dest_ip,
            params.source_port,
            params.dest_port,
            params.seq_num,
            params.ack_num,
            params.flags,
            params.window,
            params.options@,
            payload,
        ));
    }
    ip_output(ctx, packet, PROTO_TCP, params.dest_ip);
}

/// Options recognised in an incoming segment.
pub struct TCPHeaderOptions {
    pub max_segment_size: usize,
}

/// The maximum-segment-size value found by walking the option octets from
/// slot `i`: end-of-options stops the walk, a no-op advances one octet,
/// and any other option advances by its length octet (stopping on a
/// length that cannot advance or does not fit).
pub open spec fn parse_mss_spec(s: Seq<u8>, i: int, cur: int) -> int
    decreases vstd::math::max(s.len() as int - i, 0),
{
    if i < 0 || i >= s.len() {
        cur
    } else if s[i] == 0 {
        cur
    } else if s[i] == 1 {
        parse_mss_spec(s, i + 1, cur)
    } else if i + 1 >= s.len() || s[i + 1] == 0 {
        cur
    } else {
        let next = if s[i] == 2 && i + 3 < s.len() {
            be16_val(s.skip(i + 2))
        } else {
            cur
        };
        if i + s[i + 1] as int >= s.len() {
            next
        } else {
            parse_mss_spec(s, i + s[i + 1] as int, next)
        }
    }
}

/// Walk the option octets of a segment header: only the maximum segment
/// size (kind 2) is recognised; a no-op (kind 1) is skipped; end of
/// options (kind 0) stops; anything else is skipped by its length octet.
pub fn parse_options(header: &[u8]) -> (r: TCPHeaderOptions)
    ensures
        r.max_segment_size as int == parse_mss_spec(header@, 0, 0),
{
    let mut mss: usize = 0;
    let mut opt_offset: usize = 0;
    let ghost s = header@;
    while opt_offset < header.len()
        invariant
            header@ == s,
            mss <= 0xffff,
            parse_mss_spec(s, 0, 0) == parse_mss_spec(s, opt_offset as int, mss as int),
        decreases s.len() - opt_offset,
    {
        let ghost i0 = opt_offset as int;
        let ghost m0 = mss as int;
        let option_type = header[opt_offset];
        if option_type == 0 {
            return TCPHeaderOptions { max_segment_size: mss };
        }
        if option_type == 1 {
            opt_offset = opt_offset + 1;
            proof {
                assert(parse_mss_spec(s, i0, m0) == parse_mss_spec(s, i0 + 1, m0));
            }
            continue ;
        }
        if opt_offset + 1 >= header.len() {
            return TCPHeaderOptions { max_segment_size: mss };
        }
        let option_length = header[opt_offset + 1];
        if option_length == 0 {
            return TCPHeaderOptions { max_segment_size: mss };
        }
        if option_type == 2 && header.len() - opt_offset > 3 {
            let b0 = header[opt_offset + 2];
            let b1 = header[opt_offset + 3];
            mss = (b0 as usize) * 256 + (b1 as usize);
            proof {
                assert(s.skip(i0 + 2)[0] == s[i0 + 2]);
                assert(s.skip(i0 + 2)[1] == s[i0 + 3]);
            }
        }
        if option_length as usize >= header.len() - opt_offset {
            proof {
                assert(parse_mss_spec(s, i0, m0) == mss as int);
            }
            return TCPHeaderOptions { max_segment_size: mss };
        }
        opt_offset = opt_offset + option_length as usize;
        proof {
            assert(parse_mss_spec(s, i0, m0) == parse_mss_spec(s, opt_offset as int, mss as int));
        }
    }
    TCPHeaderOptions { max_segment_size: mss }
}

/// One TCP connection (or listener).  The driving shell never touches the
/// fields; it holds an index into the stack's socket table and calls the
/// `tcp_*` functions.
pub struct TCPSocket {
    /// Peer address; the unspecified address for listeners.
    pub remote_ip: IPAddr,
    pub remote_port: u16,
    pub local_port: u16,
    /// Whether the socket is registered for demultiplexing.
    pub bound: bool,
    pub state: TCPState,
    /// In-order received octets not yet read by the application.
    pub receive_queue: NetBuffer,
    pub reassembler: TCPReassembler,
    pub delayed_ack_timer_id: i32,
    pub num_delayed_acks: u32,
    /// Highest sequence number seen from the peer plus its data length.
    pub highest_seq_received: u32,
    /// SND.UNA: first unacknowledged sequence number.
    pub send_unacked: u32,
    /// SND.NXT: next sequence number to send.
    pub send_next_seq: u32,
    /// SND.WND: peer-advertised window.
    pub send_window: u32,
    /// SND.WL1/SND.WL2: segment that last updated the window.
    pub send_last_win_seq: u32,
    pub send_last_win_ack: u32,
    /// Every octet between SND.UNA and SND.NXT, in order.
    pub retransmit_queue: NetBuffer,
    pub retransmit_timer_id: i32,
    pub response_timer_id: i32,
    pub request_retry_count: u32,
    pub transmit_mss: usize,
    /// Accept queue of a listener: indices of handshaken child sockets.
    pub socket_queue: Vec<usize>,
}

impl TCPSocket {
    /// Structural well-formedness plus the send-side invariant: the
    /// retransmit queue holds exactly the octets between SND.UNA and
    /// SND.NXT, and that span is less than half the sequence space, so the
    /// wrapping comparisons stay meaningful.
    pub open spec fn wf(&self) -> bool {
        &&& self.receive_queue.wf()
        &&& self.reassembler.wf()
        &&& self.retransmit_queue.wf()
        &&& self.retransmit_queue@.len() == crate::util::seq_diff(
            self.send_next_seq,
            self.send_unacked,
        )
        &&& crate::util::seq_diff(self.send_next_seq, self.send_unacked) < 0x8000_0000
        &&& 1 <= self.transmit_mss <= 0xffff - 64
        &&& (self.state == TCPState::Closed || self.state == TCPState::Listen) ==> {
            &&& self.retransmit_queue@.len() == 0
            &&& self.reassembler.ooo().len() == 0
        }
        &&& (self.state == TCPState::SynSent || self.state == TCPState::SynReceived)
            ==> self.retransmit_queue@.len() == 0
    }

    /// A socket in the Closed state with a fresh random initial sequence
    /// number and empty queues.
    pub fn new(remote_ip: IPAddr, remote_port: u16, local_port: u16) -> (r: TCPSocket)
        ensures
            r.wf(),
            r.remote_ip == remote_ip,
            r.remote_port == remote_port,
            r.local_port == local_port,
            r.bound == false,
            r.state == TCPState::Closed,
            r.receive_queue@.len() == 0,
            r.reassembler.next() == 0,
            r.reassembler.ooo().len() == 0,
            r.retransmit_queue@.len() == 0,
            r.send_unacked == r.send_next_seq,
            r.send_window == 0,
            r.delayed_ack_timer_id == -1,
            r.retransmit_timer_id == -1,
            r.response_timer_id == -1,
            r.request_retry_count == 0,
            r.num_delayed_acks == 0,
            r.transmit_mss == DEFAULT_TCP_MSS,
            r.socket_queue@.len() == 0,
    {
        let initial_sequence: u32 = rand::random::<u32>();
        TCPSocket {
            remote_ip,
            remote_port,
            local_port,
            bound: false,
            state: TCPState::Closed,
            receive_queue: NetBuffer::new(),
            reassembler: TCPReassembler::new(),
            delayed_ack_timer_id: -1,
            num_delayed_acks: 0,
            highest_seq_received: 0,
            send_unacked: initial_sequence,
            send_next_seq: initial_sequence,
            send_window: 0,
            send_last_win_seq: 0,
            send_last_win_ack: 0,
            retransmit_queue: NetBuffer::new(),
            retransmit_timer_id: -1,
            response_timer_id: -1,
            request_retry_count: 0,
            transmit_mss: DEFAULT_TCP_MSS,
            socket_queue: Vec::new(),
        }
    }

    /// The connection state, for the driving shell and for tests.
    pub fn get_state(&self) -> (r: TCPState)
        ensures
            r == self.state,
    {
        self.state
    }
}

/// The window this socket advertises: the receive budget minus what is
/// already queued, floored at zero.
pub open spec fn adv_window(rcv_queue_len: int) -> u16 {
    if rcv_queue_len >= MAX_RECEIVE_WINDOW {
        0u16
    } else {
        (MAX_RECEIVE_WINDOW - rcv_queue_len) as u16
    }
}

/// True in the states where the peer's FIN has consumed one sequence
/// number, so the acknowledgement must step over it.
pub open spec fn fin_ack_state(st: TCPState) -> bool {
    st == TCPState::FinWait1 || st == TCPState::FinWait2 || st == TCPState::Closing || st
        == TCPState::CloseWait
}

/// The acknowledgement number a socket advertises: the next expected
/// octet, plus one for the peer's FIN once all data before it has arrived.
pub open spec fn sock_ack_seq(s: TCPSocket) -> u32 {
    if fin_ack_state(s.state) && s.highest_seq_received == s.reassembler.next() {
        seq_add(s.reassembler.next(), 1)
    } else {
        s.reassembler.next()
    }
}

/// The options a segment carries: the MSS option, advertising 1500, on
/// SYN segments only.
pub open spec fn syn_options(flags: u8) -> Seq<u8> {
    if flags & FLAG_SYN != 0 {
        seq![2u8, 4u8, 5u8, 0xdcu8]
    } else {
        Seq::<u8>::empty()
    }
}

/// The complete frame a socket emits for a segment with the given flags,
/// sequence number and payload.
pub open spec fn sock_frame_bytes(
    s: TCPSocket,
    ctx: StackCtx,
    seq_num: u32,
    flags: u8,
    payload: Seq<u8>,
) -> Seq<u8> {
    let src_ip = if s.remote_ip is V4 {
        ctx.local_ip_v4
    } else {
        ctx.local_ip_v6
    };
    let seg = tcp_segment_bytes(
        src_ip,
        s.remote_ip,
        s.local_port,
        s.remote_port,
        seq_num,
        sock_ack_seq(s),
        flags,
        adv_window(s.receive_queue@.len() as int),
        syn_options(flags),
        payload,
    );
    if s.remote_ip is V4 {
        ipv4_frame_bytes(seg, ctx.next_packet_id, PROTO_TCP, ctx.local_ip_v4, s.remote_ip)
    } else {
        ipv6_frame_bytes(seg, PROTO_TCP, ctx.local_ip_v6, s.remote_ip)
    }
}

/// Emit one segment from `sock` at the given sequence number: the
/// acknowledgement, window and options come from the socket's state, and
/// the framed result joins the outbound queue.
fn send_segment(sock: &TCPSocket, ctx: &mut StackCtx, packet: NetBuffer, flags: u8, seq_num: u32)
    requires
        old(ctx).wf(),
        sock.wf(),
        packet.wf(),
        packet@.len() + TCP_HEADER_LEN + 4 + IPV4_BASE_HEADER_LEN <= 0xffff,
    ensures
        final(ctx).wf(),
        final(ctx).same_except_frames(old(ctx)),
        final(ctx).out_frames@.len() == old(ctx).out_frames@.len() + 1,
        forall|i: int|
            0 <= i < old(ctx).out_frames@.len() ==> final(ctx).out_frames@[i] == old(
                ctx,
            ).out_frames@[i],
        final(ctx).out_frames@.last()@ == sock_frame_bytes(
            *sock,
            *old(ctx),
            seq_num,
            flags,
            packet@,
        ),
{
    let qlen = sock.receive_queue.len();
    let receive_window: u16 = if qlen >= MAX_RECEIVE_WINDOW as usize {
        0
    } else {
        MAX_RECEIVE_WINDOW - (qlen as u16)
    };
    let next_expect = sock.reassembler.get_next_expect();
    let fin_state = match sock.state {
        TCPState::FinWait1 | TCPState::FinWait2 | TCPState::Closing | TCPState::CloseWait => true,
        _ => false,
    };
    let ack_seq = if fin_state && sock.highest_seq_received == next_expect {
        next_expect.wrapping_add(1)
    } else {
        next_expect
    };
    proof {
        assert(ack_seq == sock_ack_seq(*sock)) by {
            assert(seq_add(next_expect, 1) == ((next_expect as int + 1) % 0x1_0000_0000) as u32);
        }
    }
    let options: Vec<u8> = if flags & FLAG_SYN != 0 {
        vec![2u8, 4u8, 5u8, 0xdc]
    } else {
        Vec::new()
    };
    proof {
        assert(options@ =~= syn_options(flags));
    }
    let params = TCPSendParams {
        source_port: sock.local_port,
        dest_ip: sock.remote_ip,
        dest_port: sock.remote_port,
        seq_num,
        ack_num: ack_seq,
        flags,
        window: receive_window,
        options: options.as_slice(),
    };
    tcp_output(ctx, packet, &params);
}

/// True when a bound TCP socket matches the connection key exactly.
pub open spec fn tcp_key_matches(
    s: TCPSocket,
    remote_ip: IPAddr,
    remote_port: u16,
    local_port: u16,
) -> bool {
    s.bound && s.remote_ip == remote_ip && s.remote_port == remote_port && s.local_port
        == local_port
}

/// Handle of the bound socket with this exact connection key, if any.
pub fn find_tcp_socket(
    socks: &Vec<TCPSocket>,
    remote_ip: IPAddr,
    remote_port: u16,
    local_port: u16,
) -> (r: Option<usize>)
    ensures
        match r {
            Some(i) => i < socks@.len() && tcp_key_matches(
                socks@[i as int],
                remote_ip,
                remote_port,
                local_port,
            ),
            None => forall|j: int|
                0 <= j < socks@.len() ==> !tcp_key_matches(
                    #[trigger] socks@[j],
                    remote_ip,
                    remote_port,
                    local_port,
                ),
        },
{
    let n = socks.len();
    let mut i: usize = 0;
    while i < n
        invariant
            n == socks@.len(),
            i <= n,
            forall|j: int|
                0 <= j < i ==> !tcp_key_matches(
                    #[trigger] socks@[j],
                    remote_ip,
                    remote_port,
                    local_port,
                ),
        decreases n - i,
    {
        let s = &socks[i];
        if s.bound && s.remote_ip.equals(&remote_ip) && s.remote_port == remote_port
            && s.local_port == local_port {
            return Some(i);
        }
        i = i + 1;
    }
    None
}

/// Pick an unused ephemeral port for a connection to the given peer,
/// probing every port in the ephemeral range from a random start.
/// `None` means every ephemeral port is taken for that peer.
fn find_ephemeral_port(socks: &Vec<TCPSocket>, remote_ip: IPAddr, remote_port: u16) -> (r: Option<
    u16,
>)
    ensures
        match r {
            Some(p) => EPHEMERAL_PORT_BASE <= p < 0xffff && forall|j: int|
                0 <= j < socks@.len() ==> !tcp_key_matches(
                    #[trigger] socks@[j],
                    remote_ip,
                    remote_port,
                    p,
                ),
            None => true,
        },
{
    let range: u16 = 0xffff - EPHEMERAL_PORT_BASE;
    let start: u16 = rand::random::<u16>() % range;
    let mut k: u16 = 0;
    while k < range
        invariant
            start < range,
            range == 0xffff - EPHEMERAL_PORT_BASE,
            k <= range,
        decreases range - k,
    {
        let port: u16 = EPHEMERAL_PORT_BASE + ((start as u32 + k as u32) % range as u32) as u16;
        if find_tcp_socket(socks, remote_ip, remote_port, port).is_none() {
            return Some(port);
        }
        k = k + 1;
    }
    None
}

/// The scan never grows the total bytes in flight: what moves into the
/// output comes out of the held segments.
proof fn lemma_reasm_scan_len_bound(
    seq0: u32,
    next: u32,
    ooo: Seq<(u32, Seq<u8>)>,
    acc: Seq<u8>,
    i: int,
)
    ensures
        reasm_scan(seq0, next, ooo, acc, i).2.len() + ooo_total(
            reasm_scan(seq0, next, ooo, acc, i).1,
        ) <= acc.len() + ooo_total(ooo),
    decreases ooo.len(), ooo.len() - i,
{
    if i < 0 || i >= ooo.len() {
    } else if spec_seq_gt(seq0, ooo[i].0) {
        lemma_ooo_total_remove(ooo, i);
        lemma_reasm_scan_len_bound(seq0, next, ooo.remove(i), acc, i);
    } else if ooo[i].0 == next {
        lemma_ooo_total_remove(ooo, i);
        lemma_reasm_scan_len_bound(
            seq0,
            seq_add(next, ooo[i].1.len() as int),
            ooo.remove(i),
            acc + ooo[i].1,
            0,
        );
    } else {
        lemma_reasm_scan_len_bound(seq0, next, ooo, acc, i + 1);
    }
}

/// An acceptable acknowledgement trims no more than the retransmit queue
/// holds: with the unacknowledged span under half the sequence space,
/// `snd.una < ack <= snd.nxt` bounds the trimmed span by the queue length.
pub proof fn lemma_ack_trim_bound(una: u32, nxt: u32, ack: u32)
    requires
        crate::util::seq_diff(nxt, una) < 0x8000_0000,
        spec_seq_lt(una, ack),
        spec_seq_le(ack, nxt),
    ensures
        0 < crate::util::seq_diff(ack, una) <= crate::util::seq_diff(nxt, una),
{
    assert(0 < crate::util::seq_diff(ack, una) <= crate::util::seq_diff(nxt, una))
        by (nonlinear_arith)
        requires
            crate::util::seq_diff(nxt, una) == (nxt as int - una as int + 0x1_0000_0000)
                % 0x1_0000_0000,
            crate::util::seq_diff(ack, una) == (ack as int - una as int + 0x1_0000_0000)
                % 0x1_0000_0000,
            crate::util::seq_diff(ack, nxt) == (ack as int - nxt as int + 0x1_0000_0000)
                % 0x1_0000_0000,
            crate::util::seq_diff(una, ack) == (una as int - ack as int + 0x1_0000_0000)
                % 0x1_0000_0000,
            crate::util::seq_diff(nxt, una) < 0x8000_0000,
            0 < crate::util::seq_diff(ack, una) < 0x8000_0000,
            !(0 < crate::util::seq_diff(ack, nxt) < 0x8000_0000),
            0 <= una < 0x1_0000_0000,
            0 <= nxt < 0x1_0000_0000,
            0 <= ack < 0x1_0000_0000,
    ;
}

/// The RFC 9293 window-update guard: the acknowledgement lies in the
/// send space, and the segment is no older than the one that last
/// updated the window (SND.WL1 < SEG.SEQ, or SND.WL1 = SEG.SEQ and
/// SND.WL2 =< SEG.ACK).
pub open spec fn window_update_ok(
    una: u32,
    nxt: u32,
    wl1: u32,
    wl2: u32,
    seq_num: u32,
    ack_num: u32,
) -> bool {
    &&& spec_seq_le(una, ack_num)
    &&& spec_seq_le(ack_num, nxt)
    &&& (spec_seq_lt(wl1, seq_num) || (wl1 == seq_num && spec_seq_le(wl2, ack_num)))
}

/// The fields of a decoded incoming segment that the engine acts on.
#[derive(Clone, Copy)]
pub struct SegMeta {
    pub seq_num: u32,
    pub ack_num: u32,
    pub flags: u8,
    pub window: u16,
    pub mss: usize,
}

/// States in which an arriving ACK is processed against the send side
/// (RFC 9293 section 3.10.7.4, "Other States").
pub open spec fn established_ish(st: TCPState) -> bool {
    !(st == TCPState::Closed || st == TCPState::SynSent || st == TCPState::TimeWait)
}

/// The connection-state transition an arriving segment causes, from the
/// table in RFC 9293 section 3.10.7: handshake completions require the
/// acknowledgement of our SYN or FIN (`ack == snd.nxt + 1`).
pub open spec fn next_state_spec(st: TCPState, flags: u8, ack_num: u32, nxt: u32) -> TCPState {
    let ack = flags & FLAG_ACK != 0;
    let fin = flags & FLAG_FIN != 0;
    let acks_ours = ack_num == seq_add(nxt, 1);
    match st {
        TCPState::SynSent => if ack && acks_ours {
            TCPState::Established
        } else {
            st
        },
        TCPState::SynReceived => if ack && acks_ours {
            TCPState::Established
        } else {
            st
        },
        TCPState::Established => if fin {
            TCPState::CloseWait
        } else {
            st
        },
        TCPState::LastAck => if ack {
            TCPState::Closed
        } else {
            st
        },
        TCPState::FinWait1 => if ack && fin && acks_ours {
            TCPState::TimeWait
        } else if fin {
            TCPState::Closing
        } else if ack && acks_ours {
            TCPState::FinWait2
        } else {
            st
        },
        TCPState::FinWait2 => if fin {
            TCPState::TimeWait
        } else {
            st
        },
        TCPState::Closing => if ack {
            TCPState::TimeWait
        } else {
            st
        },
        _ => st,
    }
}

/// What one arriving segment does to a socket (timer handles and the
/// delayed-acknowledgement counter are managed alongside but not pinned
/// here).  `pre` and `post` are the socket before and after.
pub open spec fn segment_post(
    pre: TCPSocket,
    post: TCPSocket,
    seq_num: u32,
    ack_num: u32,
    flags: u8,
    window: u16,
    mss: usize,
    payload: Seq<u8>,
) -> bool {
    let scan = reasm_scan(
        seq_num,
        seq_add(seq_num, payload.len() as int),
        pre.reassembler.ooo(),
        payload,
        0,
    );
    let nstate = next_state_spec(pre.state, flags, ack_num, pre.send_next_seq);
    let ack_ok = flags & FLAG_ACK != 0 && established_ish(pre.state) && spec_seq_lt(
        pre.send_unacked,
        ack_num,
    ) && spec_seq_le(ack_num, pre.send_next_seq);
    let handshake = (pre.state == TCPState::SynSent || pre.state == TCPState::SynReceived)
        && flags & FLAG_ACK != 0 && ack_num == seq_add(pre.send_next_seq, 1);
    let data_ok = pre.state != TCPState::Closed && pre.state != TCPState::Listen;
    &&& post.remote_ip == pre.remote_ip
    &&& post.remote_port == pre.remote_port
    &&& post.local_port == pre.local_port
    &&& post.bound == pre.bound
    &&& post.socket_queue@ == pre.socket_queue@
    &&& if flags & FLAG_RST != 0 {
        &&& post.state == TCPState::Closed
        &&& post.receive_queue@ == pre.receive_queue@
    } else {
        &&& post.state == next_state_spec(pre.state, flags, ack_num, pre.send_next_seq)
        &&& (mss != 0 ==> post.transmit_mss == if mss > 0xffff - 64 {
            (0xffff - 64) as usize
        } else {
            mss
        })
        &&& (mss == 0 ==> post.transmit_mss == pre.transmit_mss)
        &&& (payload.len() == 0 ==> post.receive_queue@ == pre.receive_queue@)
        &&& (payload.len() > 0 && data_ok && seq_num == pre.reassembler.next() ==> {
            &&& post.receive_queue@ == pre.receive_queue@ + scan.2
            &&& (nstate != TCPState::Closed ==> post.reassembler.ooo() == scan.1)
            &&& (pre.state != TCPState::SynSent ==> post.reassembler.next() == scan.0)
        })
        &&& (payload.len() > 0 && data_ok && seq_num != pre.reassembler.next() ==> {
            &&& post.receive_queue@ == pre.receive_queue@
            &&& (nstate != TCPState::Closed ==> post.reassembler.ooo() == pre.reassembler.ooo(
            ).push((seq_num, payload)))
        })
        &&& (!data_ok ==> post.receive_queue@ == pre.receive_queue@)
        &&& (payload.len() > 0 && data_ok && pre.state != TCPState::SynSent
            ==> post.highest_seq_received == if spec_seq_gt(
            pre.highest_seq_received,
            seq_add(seq_num, payload.len() as int),
        ) {
            pre.highest_seq_received
        } else {
            seq_add(seq_num, payload.len() as int)
        })
        &&& (payload.len() > 0 && pre.state == TCPState::Established ==> {
            let bumped = ((pre.num_delayed_acks + 1) % 0x1_0000_0000) as u32;
            let forced = bumped >= MAX_DELAYED_ACKS || flags & FLAG_FIN != 0;
            post.num_delayed_acks == if forced {
                0u32
            } else {
                bumped
            }
        })
        &&& (nstate == TCPState::Closed ==> post.reassembler.ooo().len() == 0)
        &&& (ack_ok && nstate != TCPState::Closed ==> {
            &&& post.send_unacked == ack_num
            &&& post.retransmit_queue@ == pre.retransmit_queue@.skip(
                crate::util::seq_diff(ack_num, pre.send_unacked),
            )
        })
        &&& (!ack_ok && !handshake && nstate != TCPState::Closed ==> {
            &&& post.send_unacked == pre.send_unacked
            &&& post.retransmit_queue@ == pre.retransmit_queue@
        })
        &&& (handshake ==> post.send_unacked == ack_num)
        &&& (ack_ok && nstate != TCPState::Closed ==> post.retransmit_timer_id == if post.retransmit_queue@.len() == 0 {
            -1i32
        } else {
            pre.retransmit_timer_id
        })
        &&& (!ack_ok && nstate != TCPState::Closed ==> post.retransmit_timer_id
            == pre.retransmit_timer_id)
        &&& (flags & FLAG_ACK != 0 && established_ish(pre.state) && pre.state
            != TCPState::SynReceived ==> {
            let una2 = if ack_ok {
                ack_num
            } else {
                pre.send_unacked
            };
            if window_update_ok(
                una2,
                pre.send_next_seq,
                pre.send_last_win_seq,
                pre.send_last_win_ack,
                seq_num,
                ack_num,
            ) {
                &&& post.send_window == window as u32
                &&& post.send_last_win_seq == seq_num
                &&& post.send_last_win_ack == ack_num
            } else {
                &&& post.send_window == pre.send_window
                &&& post.send_last_win_seq == pre.send_last_win_seq
                &&& post.send_last_win_ack == pre.send_last_win_ack
            }
        })
        &&& (nstate == TCPState::Closed ==> post.retransmit_queue@.len() == 0)
        &&& post.send_next_seq == if handshake {
            seq_add(pre.send_next_seq, 1)
        } else {
            pre.send_next_seq
        }
    }
}

/// Emit one segment at the socket's current send position.
fn send_packet(sock: &TCPSocket, ctx: &mut StackCtx, packet: NetBuffer, flags: u8)
    requires
        old(ctx).wf(),
        sock.wf(),
        packet.wf(),
        packet@.len() + TCP_HEADER_LEN + 4 + IPV4_BASE_HEADER_LEN <= 0xffff,
    ensures
        final(ctx).wf(),
        final(ctx).same_except_frames(old(ctx)),
        final(ctx).out_frames@.len() == old(ctx).out_frames@.len() + 1,
        forall|i: int|
            0 <= i < old(ctx).out_frames@.len() ==> final(ctx).out_frames@[i] == old(
                ctx,
            ).out_frames@[i],
        final(ctx).out_frames@.last()@ == sock_frame_bytes(
            *sock,
            *old(ctx),
            sock.send_next_seq,
            flags,
            packet@,
        ),
{
    send_segment(sock, ctx, packet, flags, sock.send_next_seq);
}

/// (Re)arm the socket's response timer, cancelling any previous one.
fn set_response_timer(sock: &mut TCPSocket, timers: &mut TimerList, now_ms: u64, sock_idx: usize)
    requires
        old(timers).wf(),
        now_ms + RESPONSE_TIMEOUT <= u64::MAX,
    ensures
        final(timers).wf(),
        final(sock).response_timer_id >= 1,
        *final(sock) == (TCPSocket {
            response_timer_id: final(sock).response_timer_id,
            ..*old(sock)
        }),
        final(timers).pending().last() == (PendingTimer {
            deadline_ms: (now_ms + RESPONSE_TIMEOUT) as u64,
            action: TimerAction::TcpResponse { socket: sock_idx },
            id: final(sock).response_timer_id,
        }),
        final(timers).pending().len() >= 1,
        ({
            let ps = old(timers).pending();
            let ix = crate::timer::find_timer_index(ps, old(sock).response_timer_id);
            let base = if old(sock).response_timer_id != -1 && ix >= 0 {
                ps.remove(ix)
            } else {
                ps
            };
            final(timers).pending() == base.push(final(timers).pending().last())
        }),
{
    if sock.response_timer_id != -1 {
        cancel_timer(timers, sock.response_timer_id);
    }
    sock.response_timer_id = set_timer(
        timers,
        now_ms,
        RESPONSE_TIMEOUT,
        TimerAction::TcpResponse { socket: sock_idx },
    );
}

/// Wrapping difference of two sequence numbers, as a machine value.
pub fn seq_sub(a: u32, b: u32) -> (r: u32)
    ensures
        r as int == crate::util::seq_diff(a, b),
{
    let r = a.wrapping_sub(b);
    proof {
        assert(r as int == crate::util::seq_diff(a, b)) by (nonlinear_arith)
            requires
                r as int == if a >= b {
                    a as int - b as int
                } else {
                    a as int - b as int + 0x1_0000_0000
                },
                0 <= a < 0x1_0000_0000,
                0 <= b < 0x1_0000_0000,
        ;
    }
    r
}

/// Data phase of segment arrival: feed the payload to the reassembler,
/// queue whatever comes back in order, and apply the delayed-
/// acknowledgement policy.
fn process_data(
    sock: &mut TCPSocket,
    ctx: &mut StackCtx,
    sock_idx: usize,
    seg: SegMeta,
    payload: NetBuffer,
    now_ms: u64,
)
    requires
        old(sock).wf(),
        old(ctx).wf(),
        payload.wf(),
        0 < payload@.len() <= 0xffff,
        old(sock).state != TCPState::Closed,
        old(sock).state != TCPState::Listen,
        old(sock).receive_queue@.len() + payload@.len() + ooo_total(
            old(sock).reassembler.ooo(),
        ) <= usize::MAX,
        now_ms + 0x10000 <= u64::MAX,
    ensures
        final(sock).wf(),
        final(ctx).wf(),
        crate::stack::StackCtx::frames_extended(*old(ctx), *final(ctx)),
        *final(sock) == (TCPSocket {
            receive_queue: final(sock).receive_queue,
            reassembler: final(sock).reassembler,
            highest_seq_received: final(sock).highest_seq_received,
            num_delayed_acks: final(sock).num_delayed_acks,
            delayed_ack_timer_id: final(sock).delayed_ack_timer_id,
            ..*old(sock)
        }),
        final(sock).highest_seq_received == if spec_seq_gt(
            old(sock).highest_seq_received,
            seq_add(seg.seq_num, payload@.len() as int),
        ) {
            old(sock).highest_seq_received
        } else {
            seq_add(seg.seq_num, payload@.len() as int)
        },
        old(sock).state == TCPState::Established ==> ({
            let bumped = ((old(sock).num_delayed_acks + 1) % 0x1_0000_0000) as u32;
            let forced = bumped >= MAX_DELAYED_ACKS || seg.flags & FLAG_FIN != 0;
            &&& final(sock).num_delayed_acks == if forced {
                0u32
            } else {
                bumped
            }
            &&& (forced ==> {
                &&& final(ctx).out_frames@.len() == old(ctx).out_frames@.len() + 1
                &&& final(ctx).out_frames@.last()@ == sock_frame_bytes(
                    *final(sock),
                    *old(ctx),
                    final(sock).send_next_seq,
                    FLAG_ACK,
                    Seq::<u8>::empty(),
                )
                &&& final(sock).delayed_ack_timer_id == -1
            })
            &&& (!forced ==> final(ctx).out_frames@ == old(ctx).out_frames@)
            &&& (!forced && old(sock).delayed_ack_timer_id == -1 ==> {
                &&& final(sock).delayed_ack_timer_id >= 1
                &&& final(ctx).timers.pending() == old(ctx).timers.pending().push(
                    PendingTimer {
                        deadline_ms: (now_ms + MAX_ACK_DELAY) as u64,
                        action: TimerAction::TcpDelayedAck { socket: sock_idx },
                        id: final(sock).delayed_ack_timer_id,
                    },
                )
            })
            &&& (!forced && old(sock).delayed_ack_timer_id != -1 ==> {
                &&& final(sock).delayed_ack_timer_id == old(sock).delayed_ack_timer_id
                &&& final(ctx).timers == old(ctx).timers
            })
        }),
        old(sock).state != TCPState::Established ==> {
            &&& final(ctx).out_frames@.len() == old(ctx).out_frames@.len() + 1
            &&& final(ctx).out_frames@.last()@ == sock_frame_bytes(
                *final(sock),
                *old(ctx),
                final(sock).send_next_seq,
                FLAG_ACK,
                Seq::<u8>::empty(),
            )
            &&& final(sock).delayed_ack_timer_id == -1
        },
        ({
            let scan = reasm_scan(
                seg.seq_num,
                seq_add(seg.seq_num, payload@.len() as int),
                old(sock).reassembler.ooo(),
                payload@,
                0,
            );
            if seg.seq_num == old(sock).reassembler.next() {
                &&& final(sock).receive_queue@ == old(sock).receive_queue@ + scan.2
                &&& final(sock).reassembler.ooo() == scan.1
                &&& final(sock).reassembler.next() == scan.0
            } else {
                &&& final(sock).receive_queue@ == old(sock).receive_queue@
                &&& final(sock).reassembler.ooo() == old(sock).reassembler.ooo().push(
                    (seg.seq_num, payload@),
                )
                &&& final(sock).reassembler.next() == old(sock).reassembler.next()
            }
        }),
{
    let plen = payload.len();
    sock.highest_seq_received = crate::util::wrapping_max(
        sock.highest_seq_received,
        wrap_add_usize(seg.seq_num, plen),
    );
    proof {
        lemma_reasm_scan_len_bound(
            seg.seq_num,
            seq_add(seg.seq_num, payload@.len() as int),
            old(sock).reassembler.ooo(),
            payload@,
            0,
        );
        lemma_ooo_total_nonneg(
            reasm_scan(
                seg.seq_num,
                seq_add(seg.seq_num, payload@.len() as int),
                old(sock).reassembler.ooo(),
                payload@,
                0,
            ).1,
        );
    }
    let got = sock.reassembler.add_packet(payload, seg.seq_num);
    match got {
        Some(data) => {
            sock.receive_queue.append_buffer(data);
        },
        None => {},
    }
    if sock.state == TCPState::Established {
        sock.num_delayed_acks = sock.num_delayed_acks.wrapping_add(1);
        if sock.num_delayed_acks >= MAX_DELAYED_ACKS || seg.flags & FLAG_FIN != 0 {
            sock.num_delayed_acks = 0;
            if sock.delayed_ack_timer_id != -1 {
                cancel_timer(&mut ctx.timers, sock.delayed_ack_timer_id);
                sock.delayed_ack_timer_id = -1;
            }
            send_packet(sock, ctx, NetBuffer::new(), FLAG_ACK);
        } else if sock.delayed_ack_timer_id == -1 {
            sock.delayed_ack_timer_id = set_timer(
                &mut ctx.timers,
                now_ms,
                MAX_ACK_DELAY,
                TimerAction::TcpDelayedAck { socket: sock_idx },
            );
        }
    } else {
        if sock.delayed_ack_timer_id != -1 {
            cancel_timer(&mut ctx.timers, sock.delayed_ack_timer_id);
            sock.delayed_ack_timer_id = -1;
        }
        send_packet(sock, ctx, NetBuffer::new(), FLAG_ACK);
    }
}

/// Acknowledgement phase of segment arrival (RFC 9293 section 3.10.7.4,
/// "fifth, check the ACK field"): an acceptable acknowledgement advances
/// SND.UNA, trims the retransmit queue and may stop the retransmit timer;
/// a newer segment may update the peer window.
fn process_ack_window(sock: &mut TCPSocket, ctx: &mut StackCtx, seg: SegMeta)
    requires
        old(sock).wf(),
        old(ctx).wf(),
        seg.flags & FLAG_ACK != 0,
        established_ish(old(sock).state),
    ensures
        final(sock).wf(),
        final(ctx).wf(),
        final(ctx).out_frames@ == old(ctx).out_frames@,
        final(ctx).local_ip_v4 == old(ctx).local_ip_v4,
        final(ctx).local_ip_v6 == old(ctx).local_ip_v6,
        final(ctx).next_packet_id == old(ctx).next_packet_id,
        *final(sock) == (TCPSocket {
            retransmit_queue: final(sock).retransmit_queue,
            send_unacked: final(sock).send_unacked,
            retransmit_timer_id: final(sock).retransmit_timer_id,
            send_window: final(sock).send_window,
            send_last_win_seq: final(sock).send_last_win_seq,
            send_last_win_ack: final(sock).send_last_win_ack,
            ..*old(sock)
        }),
        ({
            let acceptable = spec_seq_lt(old(sock).send_unacked, seg.ack_num) && spec_seq_le(
                seg.ack_num,
                old(sock).send_next_seq,
            );
            if acceptable {
                &&& final(sock).send_unacked == seg.ack_num
                &&& final(sock).retransmit_queue@ == old(sock).retransmit_queue@.skip(
                    crate::util::seq_diff(seg.ack_num, old(sock).send_unacked),
                )
            } else {
                &&& final(sock).send_unacked == old(sock).send_unacked
                &&& final(sock).retransmit_queue@ == old(sock).retransmit_queue@
            }
        }),
        ({
            let acceptable = spec_seq_lt(old(sock).send_unacked, seg.ack_num) && spec_seq_le(
                seg.ack_num,
                old(sock).send_next_seq,
            );
            if acceptable {
                final(sock).retransmit_timer_id == if final(sock).retransmit_queue@.len() == 0 {
                    -1i32
                } else {
                    old(sock).retransmit_timer_id
                }
            } else {
                final(sock).retransmit_timer_id == old(sock).retransmit_timer_id
            }
        }),
        ({
            let acceptable = spec_seq_lt(old(sock).send_unacked, seg.ack_num) && spec_seq_le(
                seg.ack_num,
                old(sock).send_next_seq,
            );
            !(acceptable && final(sock).retransmit_queue@.len() == 0 && old(
                sock,
            ).retransmit_timer_id != -1) ==> final(ctx).timers == old(ctx).timers
        }),
        ({
            let acceptable = spec_seq_lt(old(sock).send_unacked, seg.ack_num) && spec_seq_le(
                seg.ack_num,
                old(sock).send_next_seq,
            );
            let una2 = if acceptable {
                seg.ack_num
            } else {
                old(sock).send_unacked
            };
            if window_update_ok(
                una2,
                old(sock).send_next_seq,
                old(sock).send_last_win_seq,
                old(sock).send_last_win_ack,
                seg.seq_num,
                seg.ack_num,
            ) {
                &&& final(sock).send_window == seg.window as u32
                &&& final(sock).send_last_win_seq == seg.seq_num
                &&& final(sock).send_last_win_ack == seg.ack_num
            } else {
                &&& final(sock).send_window == old(sock).send_window
                &&& final(sock).send_last_win_seq == old(sock).send_last_win_seq
                &&& final(sock).send_last_win_ack == old(sock).send_last_win_ack
            }
        }),
{
    if seq_lt(sock.send_unacked, seg.ack_num) && seq_le(seg.ack_num, sock.send_next_seq) {
        proof {
            lemma_ack_trim_bound(old(sock).send_unacked, old(sock).send_next_seq, seg.ack_num);
        }
        let trim = seq_sub(seg.ack_num, sock.send_unacked) as usize;
        sock.retransmit_queue.trim_head(trim);
        if sock.retransmit_queue.is_empty() {
            if sock.retransmit_timer_id != -1 {
                cancel_timer(&mut ctx.timers, sock.retransmit_timer_id);
                sock.retransmit_timer_id = -1;
            }
        }
        sock.send_unacked = seg.ack_num;
    }
    // Window update, guarded so an old segment cannot shrink it
    // (RFC 9293: SND.WL1 < SEG.SEQ, or SND.WL1 = SEG.SEQ and
    // SND.WL2 =< SEG.ACK).
    if seq_le(sock.send_unacked, seg.ack_num) && seq_le(seg.ack_num, sock.send_next_seq) && (
    seq_lt(sock.send_last_win_seq, seg.seq_num) || (sock.send_last_win_seq == seg.seq_num
        && seq_le(sock.send_last_win_ack, seg.ack_num))) {
        sock.send_window = seg.window as u32;
        sock.send_last_win_seq = seg.seq_num;
        sock.send_last_win_ack = seg.ack_num;
    }
}

/// The control segment and timer one arrival causes beyond the state
/// change, for a segment without data: completing FinWait1 or FinWait2
/// acknowledges the peer's FIN and arms the 2MSL timer, a FIN alone in
/// FinWait1 is acknowledged with a response retry armed, Closing arms the
/// 2MSL timer silently, a completed SynSent handshake acknowledges the
/// SYN|ACK with a response retry armed, and every other state sends
/// nothing.
pub open spec fn control_frames_post(
    pre: TCPSocket,
    post: TCPSocket,
    ctx0: StackCtx,
    ctx1: StackCtx,
    ack_num: u32,
    flags: u8,
    sock_idx: usize,
    now_ms: u64,
) -> bool {
    let ack = flags & FLAG_ACK != 0;
    let fin = flags & FLAG_FIN != 0;
    let acks_ours = ack && ack_num == seq_add(pre.send_next_seq, 1);
    if pre.state == TCPState::SynSent {
        if acks_ours {
            &&& ctx1.out_frames@.len() == ctx0.out_frames@.len() + 1
            &&& ctx1.out_frames@.last()@ == sock_frame_bytes(
                (TCPSocket { state: TCPState::Established, ..post }),
                ctx0,
                post.send_next_seq,
                FLAG_ACK,
                Seq::<u8>::empty(),
            )
            &&& ctx1.timers.pending().last().deadline_ms == now_ms + RESPONSE_TIMEOUT
            &&& ctx1.timers.pending().last().action == (TimerAction::TcpResponse {
                socket: sock_idx,
            })
        } else {
            ctx1.out_frames@ == ctx0.out_frames@
        }
    } else if pre.state == TCPState::FinWait1 {
        if ack && fin && acks_ours {
            &&& ctx1.out_frames@.len() == ctx0.out_frames@.len() + 1
            &&& ctx1.out_frames@.last()@ == sock_frame_bytes(
                (TCPSocket { state: TCPState::FinWait1, ..post }),
                ctx0,
                post.send_next_seq,
                FLAG_ACK,
                Seq::<u8>::empty(),
            )
            &&& ctx1.timers.pending().last().deadline_ms == now_ms + TIME_WAIT_TIMEOUT
            &&& ctx1.timers.pending().last().action == (TimerAction::TcpTimeWait {
                socket: sock_idx,
            })
        } else if fin {
            &&& ctx1.out_frames@.len() == ctx0.out_frames@.len() + 1
            &&& ctx1.out_frames@.last()@ == sock_frame_bytes(
                (TCPSocket { state: TCPState::FinWait1, ..post }),
                ctx0,
                post.send_next_seq,
                FLAG_ACK,
                Seq::<u8>::empty(),
            )
            &&& ctx1.timers.pending().last().deadline_ms == now_ms + RESPONSE_TIMEOUT
            &&& ctx1.timers.pending().last().action == (TimerAction::TcpResponse {
                socket: sock_idx,
            })
        } else {
            ctx1.out_frames@ == ctx0.out_frames@
        }
    } else if pre.state == TCPState::FinWait2 {
        if fin {
            &&& ctx1.out_frames@.len() == ctx0.out_frames@.len() + 1
            &&& ctx1.out_frames@.last()@ == sock_frame_bytes(
                (TCPSocket { state: TCPState::FinWait2, ..post }),
                ctx0,
                post.send_next_seq,
                FLAG_ACK,
                Seq::<u8>::empty(),
            )
            &&& ctx1.timers.pending().last().deadline_ms == now_ms + TIME_WAIT_TIMEOUT
            &&& ctx1.timers.pending().last().action == (TimerAction::TcpTimeWait {
                socket: sock_idx,
            })
        } else {
            ctx1.out_frames@ == ctx0.out_frames@
        }
    } else if pre.state == TCPState::Closing {
        &&& ctx1.out_frames@ == ctx0.out_frames@
        &&& (ack ==> {
            &&& ctx1.timers.pending().last().deadline_ms == now_ms + TIME_WAIT_TIMEOUT
            &&& ctx1.timers.pending().last().action == (TimerAction::TcpTimeWait {
                socket: sock_idx,
            })
        })
    } else {
        ctx1.out_frames@ == ctx0.out_frames@
    }
}

/// Transition phase of segment arrival: apply the state table of RFC 9293
/// section 3.10.7, with the sends and timers each transition asks for.
#[verifier::rlimit(100)]
#[verifier::spinoff_prover]
fn process_transition(
    sock: &mut TCPSocket,
    ctx: &mut StackCtx,
    sock_idx: usize,
    seg: SegMeta,
    now_ms: u64,
)
    requires
        old(sock).wf(),
        old(ctx).wf(),
        seg.flags & FLAG_RST == 0,
        now_ms + 0x10000 <= u64::MAX,
    ensures
        final(sock).wf(),
        final(ctx).wf(),
        crate::stack::StackCtx::frames_extended(*old(ctx), *final(ctx)),
        final(sock).remote_ip == old(sock).remote_ip,
        final(sock).remote_port == old(sock).remote_port,
        final(sock).local_port == old(sock).local_port,
        final(sock).bound == old(sock).bound,
        final(sock).socket_queue@ == old(sock).socket_queue@,
        final(sock).transmit_mss == old(sock).transmit_mss,
        final(sock).receive_queue@ == old(sock).receive_queue@,
        final(sock).num_delayed_acks == old(sock).num_delayed_acks,
        final(sock).delayed_ack_timer_id == old(sock).delayed_ack_timer_id,
        final(sock).retransmit_timer_id == old(sock).retransmit_timer_id,
        final(sock).state == next_state_spec(
            old(sock).state,
            seg.flags,
            seg.ack_num,
            old(sock).send_next_seq,
        ),
        ({
            let nstate = next_state_spec(
                old(sock).state,
                seg.flags,
                seg.ack_num,
                old(sock).send_next_seq,
            );
            let handshake = (old(sock).state == TCPState::SynSent || old(sock).state
                == TCPState::SynReceived) && seg.flags & FLAG_ACK != 0 && seg.ack_num == seq_add(
                old(sock).send_next_seq,
                1,
            );
            &&& (handshake ==> {
                &&& final(sock).send_unacked == seg.ack_num
                &&& final(sock).send_next_seq == seq_add(old(sock).send_next_seq, 1)
                &&& final(sock).retransmit_queue@ == old(sock).retransmit_queue@
            })
            &&& (!handshake && nstate != TCPState::Closed ==> {
                &&& final(sock).send_unacked == old(sock).send_unacked
                &&& final(sock).send_next_seq == old(sock).send_next_seq
                &&& final(sock).retransmit_queue@ == old(sock).retransmit_queue@
            })
            &&& (!handshake ==> final(sock).send_next_seq == old(sock).send_next_seq)
            &&& (nstate == TCPState::Closed ==> final(sock).retransmit_queue@.len() == 0
                && final(sock).reassembler.ooo().len() == 0)
            &&& (nstate != TCPState::Closed ==> final(sock).reassembler.ooo() == old(
                sock,
            ).reassembler.ooo())
            &&& (old(sock).state != TCPState::SynSent ==> final(sock).reassembler.next() == old(
                sock,
            ).reassembler.next())
            &&& (old(sock).state != TCPState::SynSent ==> {
                &&& final(sock).send_window == old(sock).send_window
                &&& final(sock).send_last_win_seq == old(sock).send_last_win_seq
                &&& final(sock).send_last_win_ack == old(sock).send_last_win_ack
                &&& final(sock).highest_seq_received == old(sock).highest_seq_received
            })
        }),
        control_frames_post(
            *old(sock),
            *final(sock),
            *old(ctx),
            *final(ctx),
            seg.ack_num,
            seg.flags,
            sock_idx,
            now_ms,
        ),
        !(old(sock).state == TCPState::SynSent || old(sock).state == TCPState::FinWait1
            || old(sock).state == TCPState::FinWait2 || old(sock).state == TCPState::Closing)
            ==> final(ctx).timers == old(ctx).timers,
{
    let acks_ours = seg.flags & FLAG_ACK != 0 && seg.ack_num == sock.send_next_seq.wrapping_add(1);
    match sock.state {
        TCPState::SynSent => {
            if acks_ours {
                sock.state = TCPState::Established;
                sock.request_retry_count = 0;
                sock.highest_seq_received = seg.seq_num.wrapping_add(1);
                sock.reassembler.set_next_expect(seg.seq_num.wrapping_add(1));
                sock.send_window = seg.window as u32;
                sock.send_last_win_seq = seg.seq_num;
                sock.send_last_win_ack = seg.ack_num;
                sock.send_unacked = seg.ack_num;
                // The SYN consumes a sequence number.
                sock.send_next_seq = sock.send_next_seq.wrapping_add(1);
                send_packet(sock, ctx, NetBuffer::new(), FLAG_ACK);
                set_response_timer(sock, &mut ctx.timers, now_ms, sock_idx);
            }
        },
        TCPState::SynReceived => {
            if acks_ours {
                sock.state = TCPState::Established;
                sock.request_retry_count = 0;
                sock.send_next_seq = sock.send_next_seq.wrapping_add(1);
                sock.send_unacked = seg.ack_num;
            }
        },
        TCPState::Established => {
            if seg.flags & FLAG_FIN != 0 {
                sock.state = TCPState::CloseWait;
                sock.request_retry_count = 0;
            }
        },
        TCPState::LastAck => {
            if seg.flags & FLAG_ACK != 0 {
                sock.state = TCPState::Closed;
                sock.request_retry_count = 0;
                sock.retransmit_queue = NetBuffer::new();
                sock.send_unacked = sock.send_next_seq;
                sock.reassembler.clear_ooo();
            }
        },
        TCPState::FinWait1 => {
            if seg.flags & FLAG_ACK != 0 && seg.flags & FLAG_FIN != 0 && acks_ours {
                send_packet(&*sock, ctx, NetBuffer::new(), FLAG_ACK);
                sock.state = TCPState::TimeWait;
                sock.request_retry_count = 0;
                set_timer(
                    &mut ctx.timers,
                    now_ms,
                    TIME_WAIT_TIMEOUT,
                    TimerAction::TcpTimeWait { socket: sock_idx },
                );
            } else if seg.flags & FLAG_FIN != 0 {
                sock.state = TCPState::Closing;
                sock.request_retry_count = 0;
                send_packet(sock, ctx, NetBuffer::new(), FLAG_ACK);
                set_response_timer(sock, &mut ctx.timers, now_ms, sock_idx);
            } else if acks_ours {
                sock.state = TCPState::FinWait2;
                sock.request_retry_count = 0;
            }
        },
        TCPState::FinWait2 => {
            if seg.flags & FLAG_FIN != 0 {
                send_packet(sock, ctx, NetBuffer::new(), FLAG_ACK);
                set_response_timer(sock, &mut ctx.timers, now_ms, sock_idx);
                sock.state = TCPState::TimeWait;
                sock.request_retry_count = 0;
                set_timer(
                    &mut ctx.timers,
                    now_ms,
                    TIME_WAIT_TIMEOUT,
                    TimerAction::TcpTimeWait { socket: sock_idx },
                );
            }
        },
        TCPState::Closing => {
            if seg.flags & FLAG_ACK != 0 {
                sock.state = TCPState::TimeWait;
                sock.request_retry_count = 0;
                set_timer(
                    &mut ctx.timers,
                    now_ms,
                    TIME_WAIT_TIMEOUT,
                    TimerAction::TcpTimeWait { socket: sock_idx },
                );
            }
        },
        _ => {},
    }
}

/// Assembles `segment_sends` for a data-bearing, non-reset arrival from
/// the facts the three phases leave behind: the quiet pre-phase, the
/// acknowledgement the data phase emitted (or the timer it armed), and
/// the later phases' preservation of both.
#[verifier::rlimit(100)]
#[verifier::spinoff_prover]
proof fn lemma_assemble_data_sends(
    pre: TCPSocket,
    s2: TCPSocket,
    fs: TCPSocket,
    c0: StackCtx,
    c1: StackCtx,
    c2: StackCtx,
    cf: StackCtx,
    ack_num: u32,
    flags: u8,
    payload: Seq<u8>,
    sock_idx: usize,
    now_ms: u64,
)
    requires
        flags & FLAG_RST == 0,
        payload.len() > 0,
        pre.state != TCPState::Closed,
        pre.state != TCPState::Listen,
        c1.out_frames@ == c0.out_frames@,
        c1.next_packet_id == c0.next_packet_id,
        c1.local_ip_v4 == c0.local_ip_v4,
        c1.local_ip_v6 == c0.local_ip_v6,
        fs.remote_ip == s2.remote_ip,
        fs.remote_port == s2.remote_port,
        fs.local_port == s2.local_port,
        fs.receive_queue@ == s2.receive_queue@,
        pre.state != TCPState::SynSent ==> fs.reassembler.next() == s2.reassembler.next(),
        pre.state != TCPState::SynSent ==> fs.highest_seq_received == s2.highest_seq_received,
        fs.delayed_ack_timer_id == s2.delayed_ack_timer_id,
        pre.state != TCPState::SynSent && pre.state != TCPState::SynReceived ==> fs.send_next_seq
            == s2.send_next_seq,
        s2.state == pre.state,
        ({
            let bumped = ((pre.num_delayed_acks + 1) % 0x1_0000_0000) as u32;
            let forced = bumped >= MAX_DELAYED_ACKS || flags & FLAG_FIN != 0;
            &&& (pre.state == TCPState::Established ==> {
                &&& (forced ==> c2.out_frames@.len() == c1.out_frames@.len() + 1
                    && c2.out_frames@.last()@ == sock_frame_bytes(
                    s2,
                    c1,
                    s2.send_next_seq,
                    FLAG_ACK,
                    Seq::<u8>::empty(),
                ) && s2.delayed_ack_timer_id == -1)
                &&& (!forced ==> c2.out_frames@ == c1.out_frames@)
                &&& (!forced && pre.delayed_ack_timer_id == -1 ==> s2.delayed_ack_timer_id >= 1
                    && c2.timers.pending().last() == (PendingTimer {
                    deadline_ms: (now_ms + MAX_ACK_DELAY) as u64,
                    action: TimerAction::TcpDelayedAck { socket: sock_idx },
                    id: s2.delayed_ack_timer_id,
                }))
                &&& (!forced && pre.delayed_ack_timer_id != -1 ==> s2.delayed_ack_timer_id
                    == pre.delayed_ack_timer_id)
                &&& cf.out_frames@ == c2.out_frames@
                &&& (!(flags & FLAG_ACK != 0 && established_ish(pre.state) && spec_seq_lt(
                    pre.send_unacked,
                    ack_num,
                ) && spec_seq_le(ack_num, pre.send_next_seq) && fs.retransmit_queue@.len() == 0
                    && pre.retransmit_timer_id != -1) ==> cf.timers == c2.timers)
            })
            &&& (pre.state != TCPState::Established && pre.state != TCPState::SynSent
                && pre.state != TCPState::SynReceived ==> {
                &&& c2.out_frames@.len() == c1.out_frames@.len() + 1
                &&& c2.out_frames@.last()@ == sock_frame_bytes(
                    s2,
                    c1,
                    s2.send_next_seq,
                    FLAG_ACK,
                    Seq::<u8>::empty(),
                )
                &&& s2.delayed_ack_timer_id == -1
                &&& cf.out_frames@.len() >= c2.out_frames@.len()
                &&& forall|k: int|
                    0 <= k < c2.out_frames@.len() ==> cf.out_frames@[k] == c2.out_frames@[k]
            })
        }),
    ensures
        segment_sends(pre, fs, c0, cf, ack_num, flags, payload, sock_idx, now_ms),
{
    if pre.state == TCPState::Established {
        let target = TCPSocket { state: TCPState::Established, ..fs };
        assert(sock_ack_seq(s2) == sock_ack_seq(target));
        assert(sock_frame_bytes(s2, c1, s2.send_next_seq, FLAG_ACK, Seq::<u8>::empty())
            == sock_frame_bytes(target, c0, fs.send_next_seq, FLAG_ACK, Seq::<u8>::empty()));
    } else if pre.state != TCPState::SynSent && pre.state != TCPState::SynReceived {
        let target = TCPSocket { state: pre.state, ..fs };
        assert(sock_ack_seq(s2) == sock_ack_seq(target));
        assert(sock_frame_bytes(s2, c1, s2.send_next_seq, FLAG_ACK, Seq::<u8>::empty())
            == sock_frame_bytes(target, c0, fs.send_next_seq, FLAG_ACK, Seq::<u8>::empty()));
        assert(cf.out_frames@[c0.out_frames@.len() as int] == c2.out_frames@.last());
    }
}

/// The frame a socket emits depends on the context only through the
/// interface addresses and the identification counter.
proof fn lemma_sock_frame_ctx_agnostic(a: StackCtx, b: StackCtx)
    requires
        a.local_ip_v4 == b.local_ip_v4,
        a.local_ip_v6 == b.local_ip_v6,
        a.next_packet_id == b.next_packet_id,
    ensures
        forall|s: TCPSocket, q: u32, f: u8, pl: Seq<u8>|
            #[trigger] sock_frame_bytes(s, a, q, f, pl) == sock_frame_bytes(s, b, q, f, pl),
{
}

/// What one arrival sends and arms, as a relation over the context: a
/// reset sends nothing; a segment without data sends the control reply of
/// `control_frames_post`; data in Established sends exactly one immediate
/// acknowledgement when the delayed-acknowledgement policy forces it and
/// otherwise nothing, arming the 500 ms timer on a first quiet arrival;
/// data in any other live state is acknowledged immediately.
pub open spec fn segment_sends(
    pre: TCPSocket,
    post: TCPSocket,
    ctx0: StackCtx,
    ctx1: StackCtx,
    ack_num: u32,
    flags: u8,
    payload: Seq<u8>,
    sock_idx: usize,
    now_ms: u64,
) -> bool {
    let data_ok = pre.state != TCPState::Closed && pre.state != TCPState::Listen;
    let bumped = ((pre.num_delayed_acks + 1) % 0x1_0000_0000) as u32;
    let forced = bumped >= MAX_DELAYED_ACKS || flags & FLAG_FIN != 0;
    let ack_ok = flags & FLAG_ACK != 0 && established_ish(pre.state) && spec_seq_lt(
        pre.send_unacked,
        ack_num,
    ) && spec_seq_le(ack_num, pre.send_next_seq);
    &&& (flags & FLAG_RST != 0 ==> ctx1.out_frames@ == ctx0.out_frames@)
    &&& (flags & FLAG_RST == 0 && payload.len() == 0 ==> control_frames_post(
        pre,
        post,
        ctx0,
        ctx1,
        ack_num,
        flags,
        sock_idx,
        now_ms,
    ))
    &&& (flags & FLAG_RST == 0 && payload.len() > 0 && pre.state == TCPState::Established ==> {
        &&& (forced ==> {
            &&& ctx1.out_frames@.len() == ctx0.out_frames@.len() + 1
            &&& ctx1.out_frames@.last()@ == sock_frame_bytes(
                (TCPSocket { state: TCPState::Established, ..post }),
                ctx0,
                post.send_next_seq,
                FLAG_ACK,
                Seq::<u8>::empty(),
            )
            &&& post.delayed_ack_timer_id == -1
        })
        &&& (!forced ==> ctx1.out_frames@ == ctx0.out_frames@)
        &&& (!forced && pre.delayed_ack_timer_id == -1 ==> {
            &&& post.delayed_ack_timer_id >= 1
            &&& (!(ack_ok && post.retransmit_queue@.len() == 0 && pre.retransmit_timer_id != -1)
                ==> ctx1.timers.pending().last() == (PendingTimer {
                deadline_ms: (now_ms + MAX_ACK_DELAY) as u64,
                action: TimerAction::TcpDelayedAck { socket: sock_idx },
                id: post.delayed_ack_timer_id,
            }))
        })
        &&& (!forced && pre.delayed_ack_timer_id != -1 ==> post.delayed_ack_timer_id
            == pre.delayed_ack_timer_id)
    })
    &&& (flags & FLAG_RST == 0 && payload.len() > 0 && data_ok && pre.state
        != TCPState::Established && pre.state != TCPState::SynSent && pre.state
        != TCPState::SynReceived ==> {
        &&& ctx1.out_frames@.len() > ctx0.out_frames@.len()
        &&& ctx1.out_frames@[ctx0.out_frames@.len() as int]@ == sock_frame_bytes(
            (TCPSocket { state: pre.state, ..post }),
            ctx0,
            post.send_next_seq,
            FLAG_ACK,
            Seq::<u8>::empty(),
        )
        &&& post.delayed_ack_timer_id == -1
    })
}

/// Process one segment addressed to an existing connection: RFC 9293
/// section 3.10.7, in the order reset, data to the reassembler with the
/// delayed-acknowledgement policy, acknowledgement of sent data and the
/// peer window, then the state transition.
#[verifier::rlimit(100)]
#[verifier::spinoff_prover]
fn tcp_segment_arrives(
    sock: &mut TCPSocket,
    ctx: &mut StackCtx,
    sock_idx: usize,
    seg: SegMeta,
    payload: NetBuffer,
    now_ms: u64,
)
    requires
        old(sock).wf(),
        old(ctx).wf(),
        payload.wf(),
        payload@.len() <= 0xffff,
        old(sock).receive_queue@.len() + payload@.len() + ooo_total(
            old(sock).reassembler.ooo(),
        ) <= usize::MAX,
        now_ms + 0x10000 <= u64::MAX,
    ensures
        final(sock).wf(),
        final(ctx).wf(),
        crate::stack::StackCtx::frames_extended(*old(ctx), *final(ctx)),
        segment_post(
            *old(sock),
            *final(sock),
            seg.seq_num,
            seg.ack_num,
            seg.flags,
            seg.window,
            seg.mss,
            payload@,
        ),
        segment_sends(
            *old(sock),
            *final(sock),
            *old(ctx),
            *final(ctx),
            seg.ack_num,
            seg.flags,
            payload@,
            sock_idx,
            now_ms,
        ),
{
    // A nonzero MSS option updates the transmit segment size, capped so a
    // full segment still fits an IPv4 frame.
    if seg.mss != 0 {
        sock.transmit_mss = if seg.mss > 0xffff - 64 {
            0xffff - 64
        } else {
            seg.mss
        };
    }
    // Any response (handshake/shutdown) retry is satisfied by the arrival.
    if sock.response_timer_id != -1 {
        cancel_timer(&mut ctx.timers, sock.response_timer_id);
        sock.response_timer_id = -1;
    }
    if seg.flags & FLAG_RST != 0 {
        // A reset closes the connection outright; a closed socket owes
        // the peer nothing, so the queues are dropped.
        sock.state = TCPState::Closed;
        sock.request_retry_count = 0;
        sock.retransmit_queue = NetBuffer::new();
        sock.send_unacked = sock.send_next_seq;
        sock.reassembler.clear_ooo();
        return ;
    }
    let data_state_ok = match sock.state {
        TCPState::Closed | TCPState::Listen => false,
        _ => true,
    };
    let ghost sock1 = *sock;
    let ghost ctx1 = *ctx;
    if payload.len() > 0 && data_state_ok {
        process_data(sock, ctx, sock_idx, seg, payload, now_ms);
    }
    let ghost sock2 = *sock;
    let ghost ctx2 = *ctx;
    let is_established = match sock.state {
        TCPState::Closed | TCPState::SynSent | TCPState::TimeWait => false,
        _ => true,
    };
    if seg.flags & FLAG_ACK != 0 && is_established {
        process_ack_window(sock, ctx, seg);
    }
    let ghost sock3 = *sock;
    let ghost ctx3 = *ctx;
    process_transition(sock, ctx, sock_idx, seg, now_ms);
    proof {
        if seg.flags & FLAG_RST == 0 && payload@.len() == 0 {
            assert(ctx3.out_frames@ == old(ctx).out_frames@);
            assert(ctx3.next_packet_id == old(ctx).next_packet_id);
            assert(sock3.state == old(sock).state);
            assert(sock3.send_next_seq == old(sock).send_next_seq);
            lemma_sock_frame_ctx_agnostic(ctx3, *old(ctx));
            assert(control_frames_post(
                *old(sock),
                *sock,
                *old(ctx),
                *ctx,
                seg.ack_num,
                seg.flags,
                sock_idx,
                now_ms,
            ));
        }
        if seg.flags & FLAG_RST == 0 && payload@.len() > 0 && old(sock).state
            != TCPState::Closed && old(sock).state != TCPState::Listen {
            assert(ctx3.out_frames@ == ctx2.out_frames@);
            assert(sock2.send_unacked == old(sock).send_unacked);
            assert(sock2.send_next_seq == old(sock).send_next_seq);
            assert(sock2.retransmit_timer_id == old(sock).retransmit_timer_id);
            if old(sock).state == TCPState::Established {
                assert(sock1.state == TCPState::Established);
                assert(sock1.num_delayed_acks == old(sock).num_delayed_acks);
                let bumped = ((old(sock).num_delayed_acks + 1) % 0x1_0000_0000) as u32;
                let forced = bumped >= MAX_DELAYED_ACKS || seg.flags & FLAG_FIN != 0;
                if forced {
                    assert(sock2.delayed_ack_timer_id == -1);
                    assert(ctx2.out_frames@.last()@ == sock_frame_bytes(
                        sock2,
                        ctx1,
                        sock2.send_next_seq,
                        FLAG_ACK,
                        Seq::<u8>::empty(),
                    ));
                } else if old(sock).delayed_ack_timer_id == -1 {
                    assert(sock2.delayed_ack_timer_id >= 1);
                    assert(ctx2.timers.pending().last() == (PendingTimer {
                        deadline_ms: (now_ms + MAX_ACK_DELAY) as u64,
                        action: TimerAction::TcpDelayedAck { socket: sock_idx },
                        id: sock2.delayed_ack_timer_id,
                    }));
                } else {
                    assert(sock2.delayed_ack_timer_id == old(sock).delayed_ack_timer_id);
                }
                assert(ctx.out_frames@ == ctx2.out_frames@);
                assert(sock.retransmit_queue@ == sock3.retransmit_queue@);
                assert(ctx.timers == ctx3.timers);
                let ack_ok_pre = seg.flags & FLAG_ACK != 0 && established_ish(old(sock).state)
                    && spec_seq_lt(old(sock).send_unacked, seg.ack_num) && spec_seq_le(
                    seg.ack_num,
                    old(sock).send_next_seq,
                );
                if !(ack_ok_pre && sock.retransmit_queue@.len() == 0 && old(
                    sock,
                ).retransmit_timer_id != -1) {
                    assert(ctx3.timers == ctx2.timers);
                }
            }
            if old(sock).state != TCPState::Established && old(sock).state != TCPState::SynSent
                && old(sock).state != TCPState::SynReceived {
                assert(sock.send_next_seq == sock2.send_next_seq);
                assert(sock2.delayed_ack_timer_id == -1);
                assert(ctx2.out_frames@.len() == ctx1.out_frames@.len() + 1);
                assert(ctx2.out_frames@.last()@ == sock_frame_bytes(
                    sock2,
                    ctx1,
                    sock2.send_next_seq,
                    FLAG_ACK,
                    Seq::<u8>::empty(),
                ));
                assert(ctx.out_frames@.len() >= ctx2.out_frames@.len());
                assert(forall|k: int|
                    0 <= k < ctx2.out_frames@.len() ==> ctx.out_frames@[k]
                        == ctx2.out_frames@[k]);
            }
            lemma_assemble_data_sends(
                *old(sock),
                sock2,
                *sock,
                *old(ctx),
                ctx1,
                ctx2,
                *ctx,
                seg.ack_num,
                seg.flags,
                payload@,
                sock_idx,
                now_ms,
            );
        }
    }
}

/// Per-socket byte budget for accepting one more segment of `plen`
/// octets without exceeding the address space.
pub open spec fn tcp_input_budget(socks: Seq<TCPSocket>, plen: int) -> bool {
    forall|i: int|
        0 <= i < socks.len() ==> (#[trigger] socks[i]).receive_queue@.len() + plen + ooo_total(
            socks[i].reassembler.ooo(),
        ) <= usize::MAX
}

/// True when the TCP checksum of the whole segment, folded with the
/// pseudo-header for `source_ip` and the interface address of its family,
/// comes out valid.
pub open spec fn tcp_checksum_ok(ctx: StackCtx, p: Seq<u8>, source_ip: IPAddr) -> bool {
    let dest = if source_ip is V4 {
        ctx.local_ip_v4
    } else {
        ctx.local_ip_v6
    };
    ones_comp_sum(
        ones_comp_sum(0, pseudo_header_bytes(source_ip, dest, p.len() as int, PROTO_TCP)),
        p,
    ) == 0xffff
}

fn validate_checksum(ctx: &StackCtx, packet: &NetBuffer, source_ip: IPAddr) -> (r: bool)
    requires
        ctx.wf(),
        packet.wf(),
        source_ip is V4 || source_ip is V6,
    ensures
        r == tcp_checksum_ok(*ctx, packet@, source_ip),
{
    let dest_ip = match source_ip {
        IPAddr::V4(_) => ctx.local_ip_v4,
        IPAddr::V6(_) => ctx.local_ip_v6,
    };
    let ph_checksum = compute_pseudo_header_checksum(
        source_ip,
        dest_ip,
        packet.len(),
        PROTO_TCP,
    );
    proof {
        lemma_ones_comp_sum_bound(
            0,
            pseudo_header_bytes(source_ip, dest_ip, packet@.len() as int, PROTO_TCP),
        );
    }
    let sum = compute_buffer_ones_comp(ph_checksum, packet);
    sum == 0xffff
}

/// A structurally valid TCP header: the buffer holds at least the fixed
/// header and the data offset field describes a header that fits.
pub open spec fn tcp_decode_ok(p: Seq<u8>) -> bool {
    &&& p.len() >= TCP_HEADER_LEN
    &&& (p[12] as int / 16) * 4 >= TCP_HEADER_LEN
    &&& (p[12] as int / 16) * 4 <= p.len()
}

/// Accept a synthesised connection: create the child socket in
/// SynReceived, answer the SYN with SYN|ACK, and queue the child on the
/// listener for `tcp_accept`.
fn handle_new_connection(
    stack: &mut NetStack,
    listener_idx: usize,
    source_ip: IPAddr,
    source_port: u16,
    dest_port: u16,
    seg: SegMeta,
    now_ms: u64,
)
    requires
        old(stack).wf(),
        listener_idx < old(stack).tcp_socks@.len(),
        now_ms + 0x10000 <= u64::MAX,
    ensures
        final(stack).wf(),
        final(stack).udp_socks@ == old(stack).udp_socks@,
        crate::stack::StackCtx::frames_extended(old(stack).ctx, final(stack).ctx),
        final(stack).ctx.out_frames@.len() == old(stack).ctx.out_frames@.len() + 1,
        final(stack).tcp_socks@.len() == old(stack).tcp_socks@.len() + 1,
        forall|j: int|
            0 <= j < old(stack).tcp_socks@.len() && j != listener_idx ==> final(stack).tcp_socks@[j] == old(stack).tcp_socks@[j],
        final(stack).tcp_socks@[listener_idx as int].socket_queue@ == old(
            stack,
        ).tcp_socks@[listener_idx as int].socket_queue@.push(old(stack).tcp_socks@.len() as usize),
        ({
            let child = final(stack).tcp_socks@.last();
            &&& child.state == TCPState::SynReceived
            &&& child.bound
            &&& child.remote_ip == source_ip
            &&& child.remote_port == source_port
            &&& child.local_port == dest_port
            &&& child.reassembler.next() == seq_add(seg.seq_num, 1)
            &&& child.highest_seq_received == seq_add(seg.seq_num, 1)
            &&& child.send_window == seg.window as u32
            &&& child.retransmit_queue@.len() == 0
            &&& child.receive_queue@.len() == 0
            &&& child.response_timer_id >= 1
            &&& final(stack).ctx.out_frames@.last()@ == sock_frame_bytes(
                child,
                old(stack).ctx,
                child.send_next_seq,
                (FLAG_SYN | FLAG_ACK) as u8,
                Seq::<u8>::empty(),
            )
            &&& final(stack).ctx.timers.pending().last() == (PendingTimer {
                deadline_ms: (now_ms + RESPONSE_TIMEOUT) as u64,
                action: TimerAction::TcpResponse { socket: old(stack).tcp_socks@.len() as usize },
                id: child.response_timer_id,
            })
        }),
{
    let mut child = TCPSocket::new(source_ip, source_port, dest_port);
    child.bound = true;
    child.state = TCPState::SynReceived;
    if seg.mss != 0 {
        child.transmit_mss = if seg.mss > 0xffff - 64 {
            0xffff - 64
        } else {
            seg.mss
        };
    }
    child.highest_seq_received = seg.seq_num.wrapping_add(1);
    child.reassembler.set_next_expect(seg.seq_num.wrapping_add(1));
    child.send_window = seg.window as u32;
    child.send_last_win_seq = seg.seq_num;
    child.send_last_win_ack = seg.ack_num;
    let child_idx = stack.tcp_socks.len();
    send_packet(&child, &mut stack.ctx, NetBuffer::new(), FLAG_SYN | FLAG_ACK);
    set_response_timer(&mut child, &mut stack.ctx.timers, now_ms, child_idx);
    stack.tcp_socks.push(child);
    let ghost mid = stack.tcp_socks@;
    let listener = vec_index_mut(&mut stack.tcp_socks, listener_idx);
    listener.socket_queue.push(child_idx);
    proof {
        assert(stack.tcp_socks@ =~= mid.update(listener_idx as int, stack.tcp_socks@[listener_idx as int]));
    }
}

/// Handle a received TCP segment (RFC 9293 section 3.10.7).  A segment
/// with a bad checksum or a malformed header is dropped.  A segment that
/// matches no connection is answered with RST|ACK unless it is a SYN for
/// a listening port, which synthesises a new connection; anything else is
/// processed against its connection's state machine.
/// What `tcp_input` does, as a relation between the stack before and
/// after, for the segment octets `p` arriving from `source_ip` at
/// `now_ms`.  A bad checksum or a malformed header leaves the stack
/// quiet; an unknown connection is answered with RST|ACK; a SYN for a
/// listening port synthesises a child connection, answers SYN|ACK and
/// queues the child for accept; anything else is processed against its
/// connection per `segment_post`.  (Counters may tick in every case.)
pub open spec fn tcp_input_post(
    pre: NetStack,
    post: NetStack,
    p: Seq<u8>,
    source_ip: IPAddr,
    now_ms: u64,
) -> bool {
    &&& post.udp_socks@ == pre.udp_socks@
    &&& crate::stack::StackCtx::frames_extended(pre.ctx, post.ctx)
    &&& !(tcp_checksum_ok(pre.ctx, p, source_ip) && tcp_decode_ok(p))
        ==> crate::ip::stack_quiet(pre, post)
    &&& (tcp_checksum_ok(pre.ctx, p, source_ip) && tcp_decode_ok(p)) ==> ({
        let sport = be16_val(p) as u16;
        let dport = be16_val(p.skip(2)) as u16;
        let seq_num = crate::util::be32_val(p.skip(4)) as u32;
        let ack_num = crate::util::be32_val(p.skip(8)) as u32;
        let hlen = (p[12] as int / 16) * 4;
        let flags = p[13];
        let wnd = be16_val(p.skip(14)) as u16;
        let payload = p.skip(hlen);
        let exact = exists|i: int|
            0 <= i < pre.tcp_socks@.len() && tcp_key_matches(
                #[trigger] pre.tcp_socks@[i],
                source_ip,
                sport,
                dport,
            );
        let listener = exists|i: int|
            0 <= i < pre.tcp_socks@.len() && tcp_key_matches(
                #[trigger] pre.tcp_socks@[i],
                IPAddr::V4([0u8, 0u8, 0u8, 0u8]),
                0u16,
                dport,
            );
        &&& (exact ==> {
            &&& post.tcp_socks@.len() == pre.tcp_socks@.len()
            &&& exists|i: int|
                {
                    &&& 0 <= i < pre.tcp_socks@.len()
                    &&& tcp_key_matches(
                        #[trigger] pre.tcp_socks@[i],
                        source_ip,
                        sport,
                        dport,
                    )
                    &&& segment_post(
                        pre.tcp_socks@[i],
                        post.tcp_socks@[i],
                        seq_num,
                        ack_num,
                        flags,
                        wnd,
                        parse_mss_spec(p.subrange(20, hlen), 0, 0) as usize,
                        payload,
                    )
                    &&& segment_sends(
                        pre.tcp_socks@[i],
                        post.tcp_socks@[i],
                        pre.ctx,
                        post.ctx,
                        ack_num,
                        flags,
                        payload,
                        i as usize,
                        now_ms,
                    )
                    &&& forall|j: int|
                        0 <= j < pre.tcp_socks@.len() && j != i ==> post.tcp_socks@[j]
                            == pre.tcp_socks@[j]
                }
        })
        &&& (!exact && !(listener && flags & FLAG_SYN != 0) ==> {
            &&& post.tcp_socks@ == pre.tcp_socks@
            &&& post.ctx.out_frames@.len() == pre.ctx.out_frames@.len() + 1
            &&& ({
                let src = if source_ip is V4 {
                    pre.ctx.local_ip_v4
                } else {
                    pre.ctx.local_ip_v6
                };
                let seg = tcp_segment_bytes(
                    src,
                    source_ip,
                    dport,
                    sport,
                    1u32,
                    seq_add(seq_num, 1),
                    (FLAG_RST | FLAG_ACK) as u8,
                    0u16,
                    Seq::<u8>::empty(),
                    Seq::<u8>::empty(),
                );
                if source_ip is V4 {
                    post.ctx.out_frames@.last()@ == ipv4_frame_bytes(
                        seg,
                        pre.ctx.next_packet_id,
                        PROTO_TCP,
                        pre.ctx.local_ip_v4,
                        source_ip,
                    )
                } else {
                    post.ctx.out_frames@.last()@ == ipv6_frame_bytes(
                        seg,
                        PROTO_TCP,
                        pre.ctx.local_ip_v6,
                        source_ip,
                    )
                }
            })
        })
        &&& (!exact && listener && flags & FLAG_SYN != 0 ==> {
            let child = post.tcp_socks@.last();
            &&& post.tcp_socks@.len() == pre.tcp_socks@.len() + 1
            &&& child.state == TCPState::SynReceived
            &&& child.remote_ip == source_ip
            &&& child.remote_port == sport
            &&& child.local_port == dport
            &&& child.bound
            &&& child.reassembler.next() == seq_add(seq_num, 1)
            &&& child.highest_seq_received == seq_add(seq_num, 1)
            &&& child.response_timer_id >= 1
            &&& post.ctx.out_frames@.len() == pre.ctx.out_frames@.len() + 1
            &&& post.ctx.out_frames@.last()@ == sock_frame_bytes(
                child,
                pre.ctx,
                child.send_next_seq,
                (FLAG_SYN | FLAG_ACK) as u8,
                Seq::<u8>::empty(),
            )
            &&& post.ctx.timers.pending().last() == (PendingTimer {
                deadline_ms: (now_ms + RESPONSE_TIMEOUT) as u64,
                action: TimerAction::TcpResponse { socket: pre.tcp_socks@.len() as usize },
                id: child.response_timer_id,
            })
            &&& exists|li: int|
                {
                    &&& 0 <= li < pre.tcp_socks@.len()
                    &&& tcp_key_matches(
                        #[trigger] pre.tcp_socks@[li],
                        IPAddr::V4([0u8, 0u8, 0u8, 0u8]),
                        0u16,
                        dport,
                    )
                    &&& post.tcp_socks@[li].socket_queue@ == pre.tcp_socks@[li].socket_queue@.push(
                        pre.tcp_socks@.len() as usize,
                    )
                    &&& forall|j: int|
                        0 <= j < pre.tcp_socks@.len() && j != li ==> post.tcp_socks@[j]
                            == pre.tcp_socks@[j]
                }
        })
    })
}

#[verifier::rlimit(100)]
#[verifier::spinoff_prover]
pub fn tcp_input(stack: &mut NetStack, packet: NetBuffer, source_ip: IPAddr, now_ms: u64)
    requires
        old(stack).wf(),
        packet.wf(),
        packet@.len() <= 0xff00,
        tcp_input_budget(old(stack).tcp_socks@, packet@.len() as int),
        now_ms + 0x10000 <= u64::MAX,
    ensures
        final(stack).wf(),
        !(tcp_checksum_ok(old(stack).ctx, packet@, source_ip) && tcp_decode_ok(packet@)) ==> (
        *final(stack) == *old(stack)),
        tcp_input_post(*old(stack), *final(stack), packet@, source_ip, now_ms),
{
    let mut packet = packet;
    if !validate_checksum(&stack.ctx, &packet, source_ip) {
        return ;
    }
    if packet.len() < TCP_HEADER_LEN {
        return ;
    }
    let mut hdr: Vec<u8> = vec![0u8; TCP_HEADER_LEN];
    let _ = packet.copy_to_slice(hdr.as_mut_slice());
    proof {
        assert(hdr@ =~= packet@.take(TCP_HEADER_LEN as int));
        assert forall|k: int| 0 <= k < 16 implies packet@.skip(k)[0] == packet@[k]
            && packet@.skip(k)[1] == packet@[k + 1] && (k + 2 < 20 ==> packet@.skip(k)[2]
            == packet@[k + 2]) && (k + 3 < 20 ==> packet@.skip(k)[3] == packet@[k + 3]) by {}
    }
    let source_port = {
        let b0 = hdr[0];
        let b1 = hdr[1];
        (b0 as u16) * 256 + (b1 as u16)
    };
    let dest_port = {
        let b0 = hdr[2];
        let b1 = hdr[3];
        (b0 as u16) * 256 + (b1 as u16)
    };
    let seq_num = {
        let b0 = hdr[4];
        let b1 = hdr[5];
        let b2 = hdr[6];
        let b3 = hdr[7];
        (b0 as u32) * 0x1000000 + (b1 as u32) * 0x10000 + (b2 as u32) * 0x100 + (b3 as u32)
    };
    let ack_num = {
        let b0 = hdr[8];
        let b1 = hdr[9];
        let b2 = hdr[10];
        let b3 = hdr[11];
        (b0 as u32) * 0x1000000 + (b1 as u32) * 0x10000 + (b2 as u32) * 0x100 + (b3 as u32)
    };
    let header_length: usize = ((hdr[12] / 16) as usize) * 4;
    let flags = hdr[13];
    let remote_window = {
        let b0 = hdr[14];
        let b1 = hdr[15];
        (b0 as u16) * 256 + (b1 as u16)
    };
    if header_length < TCP_HEADER_LEN || header_length > packet.len() {
        return ;
    }
    // Read the whole header including options, then strip it.
    let mut full_hdr: Vec<u8> = vec![0u8; header_length];
    let _ = packet.copy_to_slice(full_hdr.as_mut_slice());
    proof {
        assert(full_hdr@ =~= packet@.take(header_length as int));
    }
    let opts_slice = slice_subrange(full_hdr.as_slice(), TCP_HEADER_LEN, header_length);
    proof {
        assert(opts_slice@ =~= packet@.subrange(20, (packet@[12] as int / 16) * 4));
    }
    let options = parse_options(opts_slice);
    packet.trim_head(header_length);

    let seg = SegMeta {
        seq_num,
        ack_num,
        flags,
        window: remote_window,
        mss: options.max_segment_size,
    };
    match find_tcp_socket(&stack.tcp_socks, source_ip, source_port, dest_port) {
        Some(i) => {
            let ghost pre = stack.tcp_socks@;
            let sock = vec_index_mut(&mut stack.tcp_socks, i);
            tcp_segment_arrives(sock, &mut stack.ctx, i, seg, packet, now_ms);
            proof {
                assert(stack.tcp_socks@ =~= pre.update(i as int, stack.tcp_socks@[i as int]));
            }
        },
        None => {
            let listen_key = IPAddr::new();
            proof {
                assert(listen_key == IPAddr::V4([0u8, 0u8, 0u8, 0u8])) by {
                    assert(listen_key.bytes() =~= IPAddr::V4([0u8, 0u8, 0u8, 0u8]).bytes());
                    match listen_key {
                        IPAddr::V4(a) => {
                            assert(a =~= [0u8, 0u8, 0u8, 0u8]);
                        },
                        IPAddr::V6(_) => {},
                    }
                }
            }
            let listener = find_tcp_socket(&stack.tcp_socks, listen_key, 0, dest_port);
            match listener {
                Some(li) if flags & FLAG_SYN != 0 => {
                    handle_new_connection(
                        stack,
                        li,
                        source_ip,
                        source_port,
                        dest_port,
                        seg,
                        now_ms,
                    );
                },
                _ => {
                    let no_opts: Vec<u8> = Vec::new();
                    let params = TCPSendParams {
                        source_port: dest_port,
                        dest_ip: source_ip,
                        dest_port: source_port,
                        seq_num: 1,
                        ack_num: seq_num.wrapping_add(1),
                        flags: FLAG_RST | FLAG_ACK,
                        window: 0,
                        options: no_opts.as_slice(),
                    };
                    tcp_output(&mut stack.ctx, NetBuffer::new(), &params);
                },
            }
        },
    }
}

/// Open an outbound connection: bind a fresh ephemeral port, send the
/// SYN with our MSS option, arm the response timer, and return the new
/// socket's handle at once, in SynSent.  The blocking open of the public
/// API is the shell's loop around this: wait until the socket reaches
/// Established, and report a connection failure if it reaches Closed
/// instead.  `Err(PortInUse)` means no ephemeral port was free.
pub fn tcp_open(stack: &mut NetStack, remote_ip: IPAddr, remote_port: u16, now_ms: u64) -> (r:
    Result<usize, NetError>)
    requires
        old(stack).wf(),
        now_ms + 0x10000 <= u64::MAX,
    ensures
        final(stack).wf(),
        final(stack).udp_socks@ == old(stack).udp_socks@,
        crate::stack::StackCtx::frames_extended(old(stack).ctx, final(stack).ctx),
        r is Err ==> *final(stack) == *old(stack) && r == Result::<usize, NetError>::Err(
            NetError::PortInUse,
        ),
        r is Ok ==> {
            &&& r == Result::<usize, NetError>::Ok(old(stack).tcp_socks@.len() as usize)
            &&& final(stack).tcp_socks@.len() == old(stack).tcp_socks@.len() + 1
            &&& forall|j: int|
                0 <= j < old(stack).tcp_socks@.len() ==> final(stack).tcp_socks@[j] == old(
                    stack,
                ).tcp_socks@[j]
            &&& final(stack).tcp_socks@.last().state == TCPState::SynSent
            &&& final(stack).tcp_socks@.last().bound
            &&& final(stack).tcp_socks@.last().remote_ip == remote_ip
            &&& final(stack).tcp_socks@.last().remote_port == remote_port
            &&& EPHEMERAL_PORT_BASE <= final(stack).tcp_socks@.last().local_port < 0xffff
            &&& forall|j: int|
                0 <= j < old(stack).tcp_socks@.len() ==> !tcp_key_matches(
                    #[trigger] old(stack).tcp_socks@[j],
                    remote_ip,
                    remote_port,
                    final(stack).tcp_socks@.last().local_port,
                )
            &&& final(stack).ctx.out_frames@.len() == old(stack).ctx.out_frames@.len() + 1
            &&& final(stack).ctx.out_frames@.last()@ == sock_frame_bytes(
                final(stack).tcp_socks@.last(),
                old(stack).ctx,
                final(stack).tcp_socks@.last().send_next_seq,
                FLAG_SYN,
                Seq::<u8>::empty(),
            )
        },
{
    let local_port = match find_ephemeral_port(&stack.tcp_socks, remote_ip, remote_port) {
        Some(p) => p,
        None => {
            return Err(NetError::PortInUse);
        },
    };
    let mut sock = TCPSocket::new(remote_ip, remote_port, local_port);
    sock.bound = true;
    sock.state = TCPState::SynSent;
    let idx = stack.tcp_socks.len();
    send_packet(&sock, &mut stack.ctx, NetBuffer::new(), FLAG_SYN);
    set_response_timer(&mut sock, &mut stack.ctx.timers, now_ms, idx);
    stack.tcp_socks.push(sock);
    Ok(idx)
}

/// Register a listening socket on `port`, or report the port taken.
pub fn tcp_listen(stack: &mut NetStack, port: u16) -> (r: Result<usize, NetError>)
    requires
        old(stack).wf(),
    ensures
        final(stack).wf(),
        final(stack).udp_socks@ == old(stack).udp_socks@,
        final(stack).ctx == old(stack).ctx,
        ({
            let taken = exists|i: int|
                0 <= i < old(stack).tcp_socks@.len() && tcp_key_matches(
                    #[trigger] old(stack).tcp_socks@[i],
                    IPAddr::V4([0u8, 0u8, 0u8, 0u8]),
                    0u16,
                    port,
                );
            if taken {
                &&& r == Result::<usize, NetError>::Err(NetError::PortInUse)
                &&& final(stack).tcp_socks@ == old(stack).tcp_socks@
            } else {
                &&& r == Result::<usize, NetError>::Ok(old(stack).tcp_socks@.len() as usize)
                &&& final(stack).tcp_socks@.len() == old(stack).tcp_socks@.len() + 1
                &&& forall|j: int|
                    0 <= j < old(stack).tcp_socks@.len() ==> final(stack).tcp_socks@[j] == old(
                        stack,
                    ).tcp_socks@[j]
                &&& final(stack).tcp_socks@.last().state == TCPState::Listen
                &&& final(stack).tcp_socks@.last().bound
                &&& final(stack).tcp_socks@.last().local_port == port
                &&& final(stack).tcp_socks@.last().remote_port == 0
                &&& final(stack).tcp_socks@.last().socket_queue@.len() == 0
            }
        }),
{
    let listen_key = IPAddr::new();
    proof {
        assert(listen_key == IPAddr::V4([0u8, 0u8, 0u8, 0u8])) by {
            match listen_key {
                IPAddr::V4(a) => {
                    assert(a =~= [0u8, 0u8, 0u8, 0u8]);
                },
                IPAddr::V6(_) => {},
            }
        }
    }
    if find_tcp_socket(&stack.tcp_socks, listen_key, 0, port).is_some() {
        return Err(NetError::PortInUse);
    }
    let mut sock = TCPSocket::new(listen_key, 0, port);
    sock.bound = true;
    sock.state = TCPState::Listen;
    let idx = stack.tcp_socks.len();
    stack.tcp_socks.push(sock);
    Ok(idx)
}

/// Pop the oldest fully handshaken child connection off a listener.
/// `None` means none is pending yet; the shell waits and retries.
pub fn tcp_accept(stack: &mut NetStack, handle: usize) -> (r: Option<usize>)
    requires
        old(stack).wf(),
        handle < old(stack).tcp_socks@.len(),
    ensures
        final(stack).wf(),
        final(stack).udp_socks@ == old(stack).udp_socks@,
        final(stack).ctx == old(stack).ctx,
        final(stack).tcp_socks@.len() == old(stack).tcp_socks@.len(),
        forall|j: int|
            0 <= j < old(stack).tcp_socks@.len() && j != handle ==> final(stack).tcp_socks@[j]
                == old(stack).tcp_socks@[j],
        ({
            let q = old(stack).tcp_socks@[handle as int].socket_queue@;
            if q.len() == 0 {
                r is None && final(stack).tcp_socks@ == old(stack).tcp_socks@
            } else {
                &&& r == Some(q[0])
                &&& final(stack).tcp_socks@[handle as int] == (TCPSocket {
                    socket_queue: final(stack).tcp_socks@[handle as int].socket_queue,
                    ..old(stack).tcp_socks@[handle as int]
                })
                &&& final(stack).tcp_socks@[handle as int].socket_queue@ == q.drop_first()
            }
        }),
{
    let ghost pre = stack.tcp_socks@;
    let sock = vec_index_mut(&mut stack.tcp_socks, handle);
    if sock.socket_queue.len() == 0 {
        return None;
    }
    let child = sock.socket_queue.remove(0);
    proof {
        assert(sock.socket_queue@ =~= pre[handle as int].socket_queue@.drop_first());
    }
    Some(child)
}

/// Read available in-order data into `data`.  Returns the octet count;
/// `0` when nothing is available yet (the shell waits while the
/// connection is alive), and `-1` when the peer has closed and the queue
/// is drained.
pub fn tcp_read(stack: &mut NetStack, handle: usize, data: &mut [u8]) -> (r: i32)
    requires
        old(stack).wf(),
        handle < old(stack).tcp_socks@.len(),
        old(data)@.len() <= 0x7fffffff,
    ensures
        final(stack).wf(),
        final(stack).udp_socks@ == old(stack).udp_socks@,
        final(stack).ctx == old(stack).ctx,
        final(stack).tcp_socks@.len() == old(stack).tcp_socks@.len(),
        forall|j: int|
            0 <= j < old(stack).tcp_socks@.len() && j != handle ==> final(stack).tcp_socks@[j]
                == old(stack).tcp_socks@[j],
        ({
            let s = old(stack).tcp_socks@[handle as int];
            let q = s.receive_queue@;
            if q.len() == 0 && s.state != TCPState::Established {
                &&& r == -1
                &&& final(stack).tcp_socks@ == old(stack).tcp_socks@
                &&& final(data)@ == old(data)@
            } else if q.len() == 0 {
                &&& r == 0
                &&& final(stack).tcp_socks@ == old(stack).tcp_socks@
                &&& final(data)@ == old(data)@
            } else {
                let copied = if q.len() < old(data)@.len() {
                    q.len() as int
                } else {
                    old(data)@.len() as int
                };
                &&& r == copied
                &&& final(data)@ == q.take(copied) + old(data)@.skip(copied)
                &&& final(stack).tcp_socks@[handle as int] == (TCPSocket {
                    receive_queue: final(stack).tcp_socks@[handle as int].receive_queue,
                    ..s
                })
                &&& final(stack).tcp_socks@[handle as int].receive_queue@ == q.skip(copied)
            }
        }),
{
    let ghost pre = stack.tcp_socks@;
    let sock = vec_index_mut(&mut stack.tcp_socks, handle);
    proof {
        assert(pre[handle as int].wf());
    }
    let queued = sock.receive_queue.len();
    if queued == 0 {
        let closed = match sock.state {
            TCPState::Established => false,
            _ => true,
        };
        if closed {
            return -1;
        }
        return 0;
    }
    let got = sock.receive_queue.copy_to_slice(data);
    sock.receive_queue.trim_head(got);
    got as i32
}

/// How many octets of `data` one call can move into flight: whole
/// MSS-sized chunks are taken while they fit the peer's window and keep
/// the unacknowledged span meaningful under wrapping comparison.
pub open spec fn write_progress(
    una: u32,
    wnd: u32,
    mss: int,
    nxt: u32,
    data_len: int,
    offset: int,
) -> int
    decreases data_len - offset,
{
    if offset >= data_len || mss < 1 {
        offset
    } else {
        let plen = if data_len - offset < mss {
            data_len - offset
        } else {
            mss
        };
        if spec_seq_gt(seq_add(nxt, plen), seq_add(una, wnd as int)) || crate::util::seq_diff(
            nxt,
            una,
        ) + plen >= 0x8000_0000 {
            offset
        } else {
            write_progress(una, wnd, mss, seq_add(nxt, plen), data_len, offset + plen)
        }
    }
}

/// Send as much of `data` as the peer's window admits, in MSS-sized
/// segments, appending every octet sent to the retransmit queue and
/// arming the retransmit timer.  Returns the octets accepted now, which
/// is fewer than `data.len()` whenever the window is full; the blocking
/// write of the public API is the shell's loop around this, which waits
/// for acknowledgements and retries the remainder, so its caller sees a
/// short count only when the connection closed mid-write.  Returns `-1`
/// on a closed connection, and accepts nothing before the handshake has
/// finished.
#[verifier::rlimit(100)]
#[verifier::spinoff_prover]
pub fn tcp_write(stack: &mut NetStack, handle: usize, data: &[u8], now_ms: u64) -> (r: i32)
    requires
        old(stack).wf(),
        handle < old(stack).tcp_socks@.len(),
        data@.len() <= 0x7fffffff,
        old(stack).tcp_socks@[handle as int].retransmit_queue@.len() + data@.len() <= usize::MAX,
        now_ms + 0x10000 <= u64::MAX,
    ensures
        final(stack).wf(),
        final(stack).udp_socks@ == old(stack).udp_socks@,
        crate::stack::StackCtx::frames_extended(old(stack).ctx, final(stack).ctx),
        final(stack).tcp_socks@.len() == old(stack).tcp_socks@.len(),
        forall|j: int|
            0 <= j < old(stack).tcp_socks@.len() && j != handle ==> final(stack).tcp_socks@[j]
                == old(stack).tcp_socks@[j],
        ({
            let s = old(stack).tcp_socks@[handle as int];
            if s.state == TCPState::Closed {
                r == -1 && *final(stack) == *old(stack)
            } else if s.state == TCPState::SynSent || s.state == TCPState::SynReceived || s.state
                == TCPState::Listen {
                r == 0 && *final(stack) == *old(stack)
            } else {
                let sent = write_progress(
                    s.send_unacked,
                    s.send_window,
                    s.transmit_mss as int,
                    s.send_next_seq,
                    data@.len() as int,
                    0,
                );
                &&& r == sent
                &&& final(stack).tcp_socks@[handle as int].send_next_seq == seq_add(
                    s.send_next_seq,
                    sent,
                )
                &&& final(stack).tcp_socks@[handle as int].retransmit_queue@
                    == s.retransmit_queue@ + data@.take(sent)
                &&& final(stack).tcp_socks@[handle as int].state == s.state
                &&& final(stack).tcp_socks@[handle as int].receive_queue@ == s.receive_queue@
                &&& final(stack).tcp_socks@[handle as int].bound == s.bound
                &&& final(stack).tcp_socks@[handle as int].remote_ip == s.remote_ip
                &&& final(stack).tcp_socks@[handle as int].remote_port == s.remote_port
                &&& final(stack).tcp_socks@[handle as int].local_port == s.local_port
            }
        }),
{
    let ghost pre = stack.tcp_socks@;
    let entry_state = stack.tcp_socks[handle].state;
    match entry_state {
        TCPState::Closed => {
            return -1;
        },
        TCPState::SynSent | TCPState::SynReceived | TCPState::Listen => {
            return 0;
        },
        _ => {},
    }
    let sock = vec_index_mut(&mut stack.tcp_socks, handle);
    let ctx = &mut stack.ctx;
    proof {
        assert(pre[handle as int].wf());
    }
    let una = sock.send_unacked;
    let wnd = sock.send_window;
    let mss = sock.transmit_mss;
    let ghost nxt0 = sock.send_next_seq;
    let mut offset: usize = 0;
    loop
        invariant
            sock.wf(),
            ctx.wf(),
            offset <= data@.len(),
            data@.len() <= 0x7fffffff,
            mss == sock.transmit_mss,
            una == sock.send_unacked,
            wnd == sock.send_window,
            1 <= mss <= 0xffff - 64,
            sock.send_next_seq == seq_add(nxt0, offset as int),
            sock.state == pre[handle as int].state,
            !(sock.state == TCPState::Closed || sock.state == TCPState::Listen || sock.state
                == TCPState::SynSent || sock.state == TCPState::SynReceived),
            sock.retransmit_queue@ == pre[handle as int].retransmit_queue@ + data@.take(
                offset as int,
            ),
            pre[handle as int].retransmit_queue@.len() + data@.len() <= usize::MAX,
            write_progress(una, wnd, mss as int, nxt0, data@.len() as int, 0) == write_progress(
                una,
                wnd,
                mss as int,
                sock.send_next_seq,
                data@.len() as int,
                offset as int,
            ),
            *sock == (TCPSocket {
                send_next_seq: sock.send_next_seq,
                retransmit_queue: sock.retransmit_queue,
                retransmit_timer_id: sock.retransmit_timer_id,
                ..pre[handle as int]
            }),
            crate::stack::StackCtx::frames_extended(old(stack).ctx, *ctx),
            now_ms + 0x10000 <= u64::MAX,
        ensures
            sock.wf(),
            ctx.wf(),
            offset <= data@.len(),
            sock.send_next_seq == seq_add(nxt0, offset as int),
            sock.retransmit_queue@ == pre[handle as int].retransmit_queue@ + data@.take(
                offset as int,
            ),
            *sock == (TCPSocket {
                send_next_seq: sock.send_next_seq,
                retransmit_queue: sock.retransmit_queue,
                retransmit_timer_id: sock.retransmit_timer_id,
                ..pre[handle as int]
            }),
            crate::stack::StackCtx::frames_extended(old(stack).ctx, *ctx),
            write_progress(una, wnd, mss as int, nxt0, data@.len() as int, 0) == offset as int,
        decreases data@.len() - offset,
    {
        if offset >= data.len() {
            proof {
                assert(write_progress(
                    una,
                    wnd,
                    mss as int,
                    sock.send_next_seq,
                    data@.len() as int,
                    offset as int,
                ) == offset as int);
            }
            break ;
        }
        let remaining = data.len() - offset;
        let packet_length: usize = if remaining < mss {
            remaining
        } else {
            mss
        };
        let limit = una.wrapping_add(wnd);
        let end_seq = wrap_add_usize(sock.send_next_seq, packet_length);
        let span = seq_sub(sock.send_next_seq, una) as usize;
        if seq_gt(end_seq, limit) || span + packet_length >= 0x8000_0000 {
            proof {
                assert(limit == seq_add(una, wnd as int)) by (nonlinear_arith)
                    requires
                        limit as int == (una as int + wnd as int) % 0x1_0000_0000,
                        0 <= una < 0x1_0000_0000,
                        0 <= wnd < 0x1_0000_0000,
                ;
                assert(write_progress(
                    una,
                    wnd,
                    mss as int,
                    sock.send_next_seq,
                    data@.len() as int,
                    offset as int,
                ) == offset as int);
            }
            break ;
        }
        proof {
            assert(limit == seq_add(una, wnd as int)) by (nonlinear_arith)
                requires
                    limit as int == (una as int + wnd as int) % 0x1_0000_0000,
                    0 <= una < 0x1_0000_0000,
                    0 <= wnd < 0x1_0000_0000,
            ;
        }
        let chunk = slice_subrange(data, offset, offset + packet_length);
        let mut packet = NetBuffer::new();
        packet.append_from_slice(chunk);
        proof {
            assert(packet@ =~= data@.subrange(offset as int, offset as int + packet_length as int));
        }
        send_packet(&*sock, ctx, packet, FLAG_ACK | FLAG_PSH);
        sock.send_next_seq = wrap_add_usize(sock.send_next_seq, packet_length);
        sock.retransmit_queue.append_from_slice(chunk);
        proof {
            assert(sock.retransmit_queue@ =~= pre[handle as int].retransmit_queue@ + data@.take(
                offset as int + packet_length as int,
            ));
            assert(sock.send_next_seq == seq_add(nxt0, offset as int + packet_length as int))
                by (nonlinear_arith)
                requires
                    sock.send_next_seq == seq_add(
                        seq_add(nxt0, offset as int),
                        packet_length as int,
                    ),
                    0 <= nxt0 < 0x1_0000_0000,
                    0 <= offset,
                    0 <= packet_length,
            ;
            assert(crate::util::seq_diff(seq_add(nxt0, offset as int), una) + packet_length
                < 0x8000_0000 ==> crate::util::seq_diff(
                seq_add(seq_add(nxt0, offset as int), packet_length as int),
                una,
            ) == crate::util::seq_diff(seq_add(nxt0, offset as int), una) + packet_length)
                by (nonlinear_arith)
                requires
                    0 <= nxt0 < 0x1_0000_0000,
                    0 <= una < 0x1_0000_0000,
                    0 <= offset,
                    0 <= packet_length < 0x1_0000,
            ;
        }
        if sock.retransmit_timer_id == -1 {
            sock.retransmit_timer_id = set_timer(
                &mut ctx.timers,
                now_ms,
                RETRANSMIT_INTERVAL,
                TimerAction::TcpRetransmit { socket: handle },
            );
        }
        proof {
            assert(write_progress(
                una,
                wnd,
                mss as int,
                seq_add(nxt0, offset as int),
                data@.len() as int,
                offset as int,
            ) == write_progress(
                una,
                wnd,
                mss as int,
                sock.send_next_seq,
                data@.len() as int,
                offset as int + packet_length as int,
            ));
        }
        offset = offset + packet_length;
    }
    proof {
        assert(stack.tcp_socks@ =~= pre.update(handle as int, stack.tcp_socks@[handle as int]));
    }
    offset as i32
}

/// Close a connection: a listener is simply unbound; an established or
/// half-closed connection sends FIN|ACK and moves to FinWait1 or
/// LastAck, with the response timer armed for retries.  Anything else is
/// left alone.
pub fn tcp_close(stack: &mut NetStack, handle: usize, now_ms: u64)
    requires
        old(stack).wf(),
        handle < old(stack).tcp_socks@.len(),
        now_ms + 0x10000 <= u64::MAX,
    ensures
        final(stack).wf(),
        final(stack).udp_socks@ == old(stack).udp_socks@,
        crate::stack::StackCtx::frames_extended(old(stack).ctx, final(stack).ctx),
        final(stack).tcp_socks@.len() == old(stack).tcp_socks@.len(),
        forall|j: int|
            0 <= j < old(stack).tcp_socks@.len() && j != handle ==> final(stack).tcp_socks@[j]
                == old(stack).tcp_socks@[j],
        ({
            let s = old(stack).tcp_socks@[handle as int];
            let t = final(stack).tcp_socks@[handle as int];
            match s.state {
                TCPState::Listen => {
                    &&& t.state == TCPState::Closed
                    &&& !t.bound
                    &&& final(stack).ctx.out_frames@ == old(stack).ctx.out_frames@
                },
                TCPState::Established => {
                    &&& t == (TCPSocket {
                        state: TCPState::FinWait1,
                        response_timer_id: t.response_timer_id,
                        request_retry_count: 0u32,
                        ..s
                    })
                    &&& t.response_timer_id >= 1
                    &&& final(stack).ctx.out_frames@.len() == old(stack).ctx.out_frames@.len() + 1
                    &&& final(stack).ctx.out_frames@.last()@ == sock_frame_bytes(
                        s,
                        old(stack).ctx,
                        s.send_next_seq,
                        (FLAG_FIN | FLAG_ACK) as u8,
                        Seq::<u8>::empty(),
                    )
                    &&& final(stack).ctx.timers.pending().last() == (PendingTimer {
                        deadline_ms: (now_ms + RESPONSE_TIMEOUT) as u64,
                        action: TimerAction::TcpResponse { socket: handle },
                        id: t.response_timer_id,
                    })
                },
                TCPState::CloseWait => {
                    &&& t == (TCPSocket {
                        state: TCPState::LastAck,
                        response_timer_id: t.response_timer_id,
                        request_retry_count: 0u32,
                        ..s
                    })
                    &&& t.response_timer_id >= 1
                    &&& final(stack).ctx.out_frames@.len() == old(stack).ctx.out_frames@.len() + 1
                    &&& final(stack).ctx.out_frames@.last()@ == sock_frame_bytes(
                        s,
                        old(stack).ctx,
                        s.send_next_seq,
                        (FLAG_FIN | FLAG_ACK) as u8,
                        Seq::<u8>::empty(),
                    )
                    &&& final(stack).ctx.timers.pending().last() == (PendingTimer {
                        deadline_ms: (now_ms + RESPONSE_TIMEOUT) as u64,
                        action: TimerAction::TcpResponse { socket: handle },
                        id: t.response_timer_id,
                    })
                },
                _ => {
                    &&& final(stack).tcp_socks@ == old(stack).tcp_socks@
                    &&& final(stack).ctx == old(stack).ctx
                },
            }
        }),
{
    let ghost pre = stack.tcp_socks@;
    let sock = vec_index_mut(&mut stack.tcp_socks, handle);
    proof {
        assert(pre[handle as int].wf());
    }
    match sock.state {
        TCPState::Listen => {
            sock.state = TCPState::Closed;
            sock.bound = false;
        },
        TCPState::Established => {
            send_packet(&*sock, &mut stack.ctx, NetBuffer::new(), FLAG_FIN | FLAG_ACK);
            set_response_timer(sock, &mut stack.ctx.timers, now_ms, handle);
            sock.state = TCPState::FinWait1;
            sock.request_retry_count = 0;
        },
        TCPState::CloseWait => {
            send_packet(&*sock, &mut stack.ctx, NetBuffer::new(), FLAG_FIN | FLAG_ACK);
            set_response_timer(sock, &mut stack.ctx.timers, now_ms, handle);
            sock.state = TCPState::LastAck;
            sock.request_retry_count = 0;
        },
        _ => {},
    }
    proof {
        assert(stack.tcp_socks@ =~= pre.update(handle as int, stack.tcp_socks@[handle as int]));
        if stack.tcp_socks@[handle as int] == pre[handle as int] {
            assert(stack.tcp_socks@ =~= pre);
        }
    }
}

/// The retransmit timer fired: resend up to one MSS from the head of the
/// retransmit queue at SND.UNA and re-arm the timer.  A closed or idle
/// connection lets the timer lapse.
#[verifier::rlimit(50)]
pub fn tcp_retransmit(stack: &mut NetStack, handle: usize, now_ms: u64)
    requires
        old(stack).wf(),
        handle < old(stack).tcp_socks@.len(),
        now_ms + 0x10000 <= u64::MAX,
    ensures
        final(stack).wf(),
        final(stack).udp_socks@ == old(stack).udp_socks@,
        crate::stack::StackCtx::frames_extended(old(stack).ctx, final(stack).ctx),
        final(stack).tcp_socks@.len() == old(stack).tcp_socks@.len(),
        forall|j: int|
            0 <= j < old(stack).tcp_socks@.len() && j != handle ==> final(stack).tcp_socks@[j]
                == old(stack).tcp_socks@[j],
        crate::timer::no_expired_timers(old(stack).ctx.timers.pending(), now_ms)
            ==> crate::timer::no_expired_timers(final(stack).ctx.timers.pending(), now_ms),
        ({
            let s = old(stack).tcp_socks@[handle as int];
            if s.state == TCPState::Closed {
                &&& final(stack).tcp_socks@ == old(stack).tcp_socks@
                &&& final(stack).ctx == old(stack).ctx
            } else if s.retransmit_queue@.len() > 0 {
                &&& final(stack).tcp_socks@[handle as int] == (TCPSocket {
                    retransmit_timer_id: final(stack).tcp_socks@[handle as int].retransmit_timer_id,
                    ..s
                })
                &&& final(stack).tcp_socks@[handle as int].retransmit_timer_id >= 1
                &&& final(stack).ctx.out_frames@.len() == old(stack).ctx.out_frames@.len() + 1
                &&& final(stack).ctx.out_frames@.last()@ == sock_frame_bytes(
                    s,
                    old(stack).ctx,
                    s.send_unacked,
                    (FLAG_ACK | FLAG_PSH) as u8,
                    s.retransmit_queue@.take(
                        if s.transmit_mss < s.retransmit_queue@.len() {
                            s.transmit_mss as int
                        } else {
                            s.retransmit_queue@.len() as int
                        },
                    ),
                )
                &&& final(stack).ctx.metrics.packets_retransmitted.spec_count() == (old(
                    stack,
                ).ctx.metrics.packets_retransmitted.spec_count() + 1) % 0x1_0000_0000
                &&& final(stack).ctx.timers.pending() == old(stack).ctx.timers.pending().push(
                    PendingTimer {
                        deadline_ms: (now_ms + RETRANSMIT_INTERVAL) as u64,
                        action: TimerAction::TcpRetransmit { socket: handle },
                        id: final(stack).tcp_socks@[handle as int].retransmit_timer_id,
                    },
                )
            } else {
                &&& final(stack).tcp_socks@ == old(stack).tcp_socks@
                &&& final(stack).ctx == old(stack).ctx
            }
        }),
{
    let ghost pre = stack.tcp_socks@;
    let entry_state = stack.tcp_socks[handle].state;
    if entry_state == TCPState::Closed {
        return ;
    }
    let sock = vec_index_mut(&mut stack.tcp_socks, handle);
    proof {
        assert(pre[handle as int].wf());
    }
    if sock.retransmit_queue.len() > 0 {
        stack.ctx.metrics.packets_retransmitted.inc();
        let mut packet = NetBuffer::new();
        let mss = sock.transmit_mss;
        packet.append_from_buffer(&sock.retransmit_queue, mss);
        send_segment(&*sock, &mut stack.ctx, packet, FLAG_ACK | FLAG_PSH, sock.send_unacked);
        sock.retransmit_timer_id = set_timer(
            &mut stack.ctx.timers,
            now_ms,
            RETRANSMIT_INTERVAL,
            TimerAction::TcpRetransmit { socket: handle },
        );
    }
    proof {
        assert(stack.tcp_socks@ =~= pre.update(handle as int, stack.tcp_socks@[handle as int]));
        if stack.tcp_socks@[handle as int] == pre[handle as int] {
            assert(stack.tcp_socks@ =~= pre);
        }
    }
}

/// States that are waiting on a control segment of ours: the ones in
/// which the response timer retries and gives up.
pub open spec fn response_pending_state(st: TCPState) -> bool {
    ||| st == TCPState::SynSent
    ||| st == TCPState::SynReceived
    ||| st == TCPState::FinWait1
    ||| st == TCPState::LastAck
    ||| st == TCPState::Closing
    ||| st == TCPState::CloseWait
}

/// The control segment a state under the response timer resends: the SYN
/// of an open, the SYN|ACK of an accept, the FIN of a close, or the ACK
/// that Closing and CloseWait owe the peer's FIN.
pub open spec fn response_resend_flags(st: TCPState) -> u8 {
    if st == TCPState::SynSent {
        FLAG_SYN
    } else if st == TCPState::SynReceived {
        (FLAG_SYN | FLAG_ACK) as u8
    } else if st == TCPState::FinWait1 || st == TCPState::LastAck {
        FLAG_FIN
    } else {
        FLAG_ACK
    }
}

/// The response (handshake/shutdown) timer fired.  In a state with no
/// outstanding control segment the stray timer simply lapses.  Otherwise
/// the segment that state is waiting on is resent and the timer re-armed,
/// until MAX_RETRIES expiries close the connection.
#[verifier::rlimit(100)]
#[verifier::spinoff_prover]
pub fn tcp_response_timeout(stack: &mut NetStack, handle: usize, now_ms: u64)
    requires
        old(stack).wf(),
        handle < old(stack).tcp_socks@.len(),
        now_ms + 0x10000 <= u64::MAX,
    ensures
        final(stack).wf(),
        final(stack).udp_socks@ == old(stack).udp_socks@,
        crate::stack::StackCtx::frames_extended(old(stack).ctx, final(stack).ctx),
        final(stack).tcp_socks@.len() == old(stack).tcp_socks@.len(),
        forall|j: int|
            0 <= j < old(stack).tcp_socks@.len() && j != handle ==> final(stack).tcp_socks@[j]
                == old(stack).tcp_socks@[j],
        crate::timer::no_expired_timers(old(stack).ctx.timers.pending(), now_ms)
            ==> crate::timer::no_expired_timers(final(stack).ctx.timers.pending(), now_ms),
        ({
            let s = old(stack).tcp_socks@[handle as int];
            let t = final(stack).tcp_socks@[handle as int];
            if !response_pending_state(s.state) {
                &&& final(stack).tcp_socks@ == old(stack).tcp_socks@
                &&& final(stack).ctx == old(stack).ctx
            } else if s.request_retry_count >= MAX_RETRIES {
                &&& t.state == TCPState::Closed
                &&& t.retransmit_queue@.len() == 0
                &&& t.reassembler.ooo().len() == 0
                &&& final(stack).ctx == old(stack).ctx
            } else {
                &&& t == (TCPSocket {
                    request_retry_count: t.request_retry_count,
                    response_timer_id: t.response_timer_id,
                    ..s
                })
                &&& t.request_retry_count == s.request_retry_count + 1
                &&& t.response_timer_id >= 1
                &&& final(stack).ctx.out_frames@.len() == old(stack).ctx.out_frames@.len() + 1
                &&& final(stack).ctx.out_frames@.last()@ == sock_frame_bytes(
                    s,
                    old(stack).ctx,
                    s.send_next_seq,
                    response_resend_flags(s.state),
                    Seq::<u8>::empty(),
                )
                &&& final(stack).ctx.timers.pending().last() == (PendingTimer {
                    deadline_ms: (now_ms + RESPONSE_TIMEOUT) as u64,
                    action: TimerAction::TcpResponse { socket: handle },
                    id: t.response_timer_id,
                })
            }
        }),
{
    let ghost pre = stack.tcp_socks@;
    let entry_state = stack.tcp_socks[handle].state;
    match entry_state {
        TCPState::SynSent | TCPState::SynReceived | TCPState::FinWait1 | TCPState::LastAck
            | TCPState::Closing | TCPState::CloseWait => {},
        _ => {
            return ;
        },
    }
    let sock = vec_index_mut(&mut stack.tcp_socks, handle);
    proof {
        assert(pre[handle as int].wf());
    }
    if sock.request_retry_count >= MAX_RETRIES {
        // The peer has stopped responding: abort the connection.
        sock.state = TCPState::Closed;
        sock.retransmit_queue = NetBuffer::new();
        sock.send_unacked = sock.send_next_seq;
        sock.reassembler.clear_ooo();
        proof {
            assert(stack.tcp_socks@ =~= pre.update(
                handle as int,
                stack.tcp_socks@[handle as int],
            ));
        }
        return ;
    }
    sock.request_retry_count = sock.request_retry_count + 1;
    match sock.state {
        TCPState::SynSent => {
            send_packet(&*sock, &mut stack.ctx, NetBuffer::new(), FLAG_SYN);
        },
        TCPState::SynReceived => {
            send_packet(&*sock, &mut stack.ctx, NetBuffer::new(), FLAG_SYN | FLAG_ACK);
        },
        TCPState::FinWait1 | TCPState::LastAck => {
            send_packet(&*sock, &mut stack.ctx, NetBuffer::new(), FLAG_FIN);
        },
        _ => {
            send_packet(&*sock, &mut stack.ctx, NetBuffer::new(), FLAG_ACK);
        },
    }
    set_response_timer(sock, &mut stack.ctx.timers, now_ms, handle);
    proof {
        assert(stack.tcp_socks@ =~= pre.update(handle as int, stack.tcp_socks@[handle as int]));
        if crate::timer::no_expired_timers(old(stack).ctx.timers.pending(), now_ms) {
            let ps = old(stack).ctx.timers.pending();
            let ix = crate::timer::find_timer_index(ps, pre[handle as int].response_timer_id);
            if pre[handle as int].response_timer_id != -1 && ix >= 0 {
                crate::timer::lemma_find_timer_index(ps, pre[handle as int].response_timer_id);
                crate::timer::lemma_no_expired_remove(ps, ix, now_ms);
            }
        }
    }
}

/// The 2MSL timer fired: the TimeWait connection becomes Closed and its
/// port binding is released.
pub fn tcp_time_wait_timeout(stack: &mut NetStack, handle: usize)
    requires
        old(stack).wf(),
        handle < old(stack).tcp_socks@.len(),
    ensures
        final(stack).wf(),
        final(stack).udp_socks@ == old(stack).udp_socks@,
        final(stack).ctx == old(stack).ctx,
        final(stack).tcp_socks@.len() == old(stack).tcp_socks@.len(),
        forall|j: int|
            0 <= j < old(stack).tcp_socks@.len() && j != handle ==> final(stack).tcp_socks@[j]
                == old(stack).tcp_socks@[j],
        final(stack).tcp_socks@[handle as int].state == TCPState::Closed,
        !final(stack).tcp_socks@[handle as int].bound,
{
    let ghost pre = stack.tcp_socks@;
    let sock = vec_index_mut(&mut stack.tcp_socks, handle);
    proof {
        assert(pre[handle as int].wf());
    }
    sock.state = TCPState::Closed;
    sock.bound = false;
    sock.retransmit_queue = NetBuffer::new();
    sock.send_unacked = sock.send_next_seq;
    sock.reassembler.clear_ooo();
    proof {
        assert(stack.tcp_socks@ =~= pre.update(handle as int, stack.tcp_socks@[handle as int]));
    }
}

/// The delayed-acknowledgement timer fired: send the acknowledgement that
/// was being batched, unless the connection has closed meanwhile.
pub fn tcp_delayed_ack(stack: &mut NetStack, handle: usize)
    requires
        old(stack).wf(),
        handle < old(stack).tcp_socks@.len(),
    ensures
        final(stack).wf(),
        final(stack).udp_socks@ == old(stack).udp_socks@,
        crate::stack::StackCtx::frames_extended(old(stack).ctx, final(stack).ctx),
        final(stack).tcp_socks@.len() == old(stack).tcp_socks@.len(),
        forall|j: int|
            0 <= j < old(stack).tcp_socks@.len() && j != handle ==> final(stack).tcp_socks@[j]
                == old(stack).tcp_socks@[j],
        final(stack).ctx.timers == old(stack).ctx.timers,
        ({
            let s = old(stack).tcp_socks@[handle as int];
            if s.state == TCPState::Closed {
                &&& final(stack).tcp_socks@ == old(stack).tcp_socks@
                &&& final(stack).ctx == old(stack).ctx
            } else {
                &&& final(stack).tcp_socks@[handle as int] == (TCPSocket {
                    delayed_ack_timer_id: -1i32,
                    num_delayed_acks: 0u32,
                    ..s
                })
                &&& final(stack).ctx.out_frames@.len() == old(stack).ctx.out_frames@.len() + 1
                &&& final(stack).ctx.out_frames@.last()@ == sock_frame_bytes(
                    s,
                    old(stack).ctx,
                    s.send_next_seq,
                    FLAG_ACK,
                    Seq::<u8>::empty(),
                )
            }
        }),
{
    let ghost pre = stack.tcp_socks@;
    let entry_state = stack.tcp_socks[handle].state;
    if entry_state == TCPState::Closed {
        return ;
    }
    let sock = vec_index_mut(&mut stack.tcp_socks, handle);
    proof {
        assert(pre[handle as int].wf());
    }
    send_packet(&*sock, &mut stack.ctx, NetBuffer::new(), FLAG_ACK);
    sock.delayed_ack_timer_id = -1;
    sock.num_delayed_acks = 0;
    proof {
        assert(stack.tcp_socks@ =~= pre.update(handle as int, stack.tcp_socks@[handle as int]));
    }
}

/// `base` advanced by `amount` octets, wrapping at 2^32.
pub fn wrap_add_usize(base: u32, amount: usize) -> (r: u32)
    ensures
        r == seq_add(base, amount as int),
{
    let x: u32 = (amount as u64 % 0x1_0000_0000) as u32;
    let r = base.wrapping_add(x);
    proof {
        assert(r == seq_add(base, amount as int)) by (nonlinear_arith)
            requires
                r as int == (base as int + (amount as int % 0x1_0000_0000)) % 0x1_0000_0000,
                0 <= base < 0x1_0000_0000,
                0 <= amount,
        ;
    }
    r
}

} // verus!
