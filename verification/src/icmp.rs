//! ICMP echo for v4 and v6 (RFC 792 and RFC 4443): answer pings, drop
//! everything else.

use crate::buf::NetBuffer;
use crate::ip::{
    ip_output, ipv4_frame_bytes, ipv6_frame_bytes, IPV4_BASE_HEADER_LEN, PROTO_ICMPV4,
    PROTO_ICMPV6,
};
use crate::stack::StackCtx;
use crate::util::{
    compute_buffer_ones_comp, compute_ones_comp, compute_pseudo_header_checksum,
    lemma_ones_comp_sum_bound, lemma_ones_comp_sum_concat, ones_comp_sum, pseudo_header_bytes,
    IPAddr,
};
use vstd::prelude::*;

verus! {

pub const ICMPV4_ECHO_REQUEST: u8 = 8;

pub const ICMPV4_ECHO_REPLY: u8 = 0;

pub const ICMPV6_ECHO_REQUEST: u8 = 128;

pub const ICMPV6_ECHO_REPLY: u8 = 129;

pub const ICMP_HEADER_LEN: usize = 4;

/// An ICMP message before its checksum is filled in: type, zero code,
/// zero checksum, payload.
pub open spec fn icmp_msg_pre(packet_type: u8, payload: Seq<u8>) -> Seq<u8> {
    seq![packet_type, 0u8, 0u8, 0u8] + payload
}

/// A v4 ICMP message: checksummed over itself alone.
pub open spec fn icmp_v4_msg_bytes(packet_type: u8, payload: Seq<u8>) -> Seq<u8> {
    let m0 = icmp_msg_pre(packet_type, payload);
    let ck = 0xffff - ones_comp_sum(0, m0);
    m0.update(2, (ck / 256) as u8).update(3, (ck % 256) as u8)
}

/// A v6 ICMP message: checksummed together with the pseudo-header.
pub open spec fn icmp_v6_msg_bytes(
    src: IPAddr,
    dst: IPAddr,
    packet_type: u8,
    payload: Seq<u8>,
) -> Seq<u8> {
    let m0 = icmp_msg_pre(packet_type, payload);
    let ck = 0xffff - ones_comp_sum(
        ones_comp_sum(0, pseudo_header_bytes(src, dst, m0.len() as int, PROTO_ICMPV6)),
        m0,
    );
    m0.update(2, (ck / 256) as u8).update(3, (ck % 256) as u8)
}

/// Frame `packet` as a v4 ICMP message of the given type and queue it.
pub fn icmp_output_v4(ctx: &mut StackCtx, packet: NetBuffer, packet_type: u8, dest_addr: IPAddr)
    requires
        old(ctx).wf(),
        packet.wf(),
        dest_addr is V4,
        packet@.len() + ICMP_HEADER_LEN + IPV4_BASE_HEADER_LEN <= 0xffff,
    ensures
        final(ctx).wf(),
        final(ctx).same_except_frames(old(ctx)),
        final(ctx).out_frames@.len() == old(ctx).out_frames@.len() + 1,
        forall|i: int|
            0 <= i < old(ctx).out_frames@.len() ==> final(ctx).out_frames@[i] == old(
                ctx,
            ).out_frames@[i],
        final(ctx).out_frames@.last()@ == ipv4_frame_bytes(
            icmp_v4_msg_bytes(packet_type, packet@),
            old(ctx).next_packet_id,
            PROTO_ICMPV4,
            old(ctx).local_ip_v4,
            dest_addr,
        ),
        final(ctx).next_packet_id == ((old(ctx).next_packet_id + 1) % 0x10000) as u16,
{
    let mut packet = packet;
    let ghost payload = packet@;
    let mut h: Vec<u8> = Vec::new();
    h.push(packet_type);
    h.push(0);
    h.push(0);
    h.push(0);
    proof {
        assert(h@ =~= Seq::<u8>::empty() + seq![packet_type, 0u8, 0u8, 0u8]);
        assert(h@ + payload =~= icmp_msg_pre(packet_type, payload));
    }
    let sum1 = compute_ones_comp(0, h.as_slice());
    proof {
        lemma_ones_comp_sum_bound(0, h@);
    }
    let sum2 = compute_buffer_ones_comp(sum1, &packet);
    proof {
        lemma_ones_comp_sum_concat(0, h@, payload);
        lemma_ones_comp_sum_bound(0, h@ + payload);
    }
    let ck: u16 = 0xffff - sum2;
    let hs = h.as_mut_slice();
    hs[2] = (ck / 256) as u8;
    hs[3] = (ck % 256) as u8;
    packet.prepend_from_slice(h.as_slice());
    proof {
        assert(packet@ =~= icmp_v4_msg_bytes(packet_type, payload));
    }
    ip_output(ctx, packet, PROTO_ICMPV4, dest_addr);
}

/// Frame `packet` as a v6 ICMP message of the given type and queue it.
pub fn icmp_output_v6(ctx: &mut StackCtx, packet: NetBuffer, packet_type: u8, dest_addr: IPAddr)
    requires
        old(ctx).wf(),
        packet.wf(),
        dest_addr is V6,
        packet@.len() + ICMP_HEADER_LEN + IPV4_BASE_HEADER_LEN <= 0xffff,
    ensures
        final(ctx).wf(),
        final(ctx).same_except_frames(old(ctx)),
        final(ctx).out_frames@.len() == old(ctx).out_frames@.len() + 1,
        forall|i: int|
            0 <= i < old(ctx).out_frames@.len() ==> final(ctx).out_frames@[i] == old(
                ctx,
            ).out_frames@[i],
        final(ctx).out_frames@.last()@ == ipv6_frame_bytes(
            icmp_v6_msg_bytes(old(ctx).local_ip_v6, dest_addr, packet_type, packet@),
            PROTO_ICMPV6,
            old(ctx).local_ip_v6,
            dest_addr,
        ),
        final(ctx).next_packet_id == old(ctx).next_packet_id,
{
    let mut packet = packet;
    let ghost payload = packet@;
    let msg_len: usize = packet.len() + ICMP_HEADER_LEN;
    let mut h: Vec<u8> = Vec::new();
    h.push(packet_type);
    h.push(0);
    h.push(0);
    h.push(0);
    proof {
        assert(h@ + payload =~= icmp_msg_pre(packet_type, payload));
    }
    let la = ctx.local_ip_v6;
    let ph_sum = compute_pseudo_header_checksum(la, dest_addr, msg_len, PROTO_ICMPV6);
    proof {
        lemma_ones_comp_sum_bound(
            0,
            pseudo_header_bytes(la, dest_addr, msg_len as int, PROTO_ICMPV6),
        );
    }
    let sum1 = compute_ones_comp(ph_sum, h.as_slice());
    let sum2 = compute_buffer_ones_comp(sum1, &packet);
    proof {
        lemma_ones_comp_sum_concat(ph_sum as int, h@, payload);
        lemma_ones_comp_sum_bound(ph_sum as int, h@ + payload);
    }
    let ck: u16 = 0xffff - sum2;
    let hs = h.as_mut_slice();
    hs[2] = (ck / 256) as u8;
    hs[3] = (ck % 256) as u8;
    packet.prepend_from_slice(h.as_slice());
    proof {
        assert(packet@ =~= icmp_v6_msg_bytes(la, dest_addr, packet_type, payload));
    }
    ip_output(ctx, packet, PROTO_ICMPV6, dest_addr);
}

/// What the v4 echo handler does to the shared context for the message
/// octets `p` from `source_ip`: a valid echo request adds exactly the
/// echo-reply frame; everything else leaves the context quiet.
pub open spec fn icmp_v4_input_post(
    pre: StackCtx,
    post: StackCtx,
    p: Seq<u8>,
    source_ip: IPAddr,
) -> bool {
    let valid = p.len() >= ICMP_HEADER_LEN && ones_comp_sum(0, p) == 0xffff && p[0]
        == ICMPV4_ECHO_REQUEST;
    &&& post.timers == pre.timers
    &&& post.local_ip_v4 == pre.local_ip_v4
    &&& post.local_ip_v6 == pre.local_ip_v6
    &&& if valid {
        &&& post.out_frames@.len() == pre.out_frames@.len() + 1
        &&& post.out_frames@.last()@ == ipv4_frame_bytes(
            icmp_v4_msg_bytes(ICMPV4_ECHO_REPLY, p.skip(ICMP_HEADER_LEN as int)),
            pre.next_packet_id,
            PROTO_ICMPV4,
            pre.local_ip_v4,
            source_ip,
        )
        &&& post.next_packet_id == ((pre.next_packet_id + 1) % 0x10000) as u16
    } else {
        crate::stack::StackCtx::ctx_quiet(pre, post)
    }
}

/// What the v6 echo handler does to the shared context, as
/// `icmp_v4_input_post` but checksummed with the v6 pseudo-header.
pub open spec fn icmp_v6_input_post(
    pre: StackCtx,
    post: StackCtx,
    p: Seq<u8>,
    source_ip: IPAddr,
) -> bool {
    let sum = ones_comp_sum(
        ones_comp_sum(
            0,
            pseudo_header_bytes(source_ip, pre.local_ip_v6, p.len() as int, PROTO_ICMPV6),
        ),
        p,
    );
    let valid = p.len() >= ICMP_HEADER_LEN && sum == 0xffff && p[0] == ICMPV6_ECHO_REQUEST;
    &&& post.timers == pre.timers
    &&& post.local_ip_v4 == pre.local_ip_v4
    &&& post.local_ip_v6 == pre.local_ip_v6
    &&& if valid {
        &&& post.out_frames@.len() == pre.out_frames@.len() + 1
        &&& post.out_frames@.last()@ == ipv6_frame_bytes(
            icmp_v6_msg_bytes(
                pre.local_ip_v6,
                source_ip,
                ICMPV6_ECHO_REPLY,
                p.skip(ICMP_HEADER_LEN as int),
            ),
            PROTO_ICMPV6,
            pre.local_ip_v6,
            source_ip,
        )
        &&& post.next_packet_id == pre.next_packet_id
    } else {
        crate::stack::StackCtx::ctx_quiet(pre, post)
    }
}

/// Handle a received v4 ICMP message: a valid echo request is answered
/// with an echo reply carrying the same payload; anything else is dropped.
pub fn icmp_input_v4(ctx: &mut StackCtx, packet: NetBuffer, source_ip: IPAddr)
    requires
        old(ctx).wf(),
        packet.wf(),
        source_ip is V4,
        packet@.len() + IPV4_BASE_HEADER_LEN <= 0xffff,
    ensures
        final(ctx).wf(),
        final(ctx).same_except_frames(old(ctx)),
        crate::stack::StackCtx::frames_extended(*old(ctx), *final(ctx)),
        icmp_v4_input_post(*old(ctx), *final(ctx), packet@, source_ip),
        ({
            let valid = packet@.len() >= ICMP_HEADER_LEN && ones_comp_sum(0, packet@) == 0xffff
                && packet@[0] == ICMPV4_ECHO_REQUEST;
            if valid {
                final(ctx).out_frames@.len() == old(ctx).out_frames@.len() + 1
                    && final(ctx).out_frames@.last()@ == ipv4_frame_bytes(
                    icmp_v4_msg_bytes(ICMPV4_ECHO_REPLY, packet@.skip(ICMP_HEADER_LEN as int)),
                    old(ctx).next_packet_id,
                    PROTO_ICMPV4,
                    old(ctx).local_ip_v4,
                    source_ip,
                )
            } else {
                *final(ctx) == *old(ctx)
            }
        }),
{
    let mut packet = packet;
    if packet.len() < ICMP_HEADER_LEN {
        return ;
    }
    let sum = compute_buffer_ones_comp(0, &packet);
    if sum != 0xffff {
        return ;
    }
    let header = packet.header();
    let packet_type = header[0];
    proof {
        assert(packet@.take(packet.head_len())[0] == packet@[0]);
    }
    packet.trim_head(ICMP_HEADER_LEN);
    if packet_type == ICMPV4_ECHO_REQUEST {
        let mut response = NetBuffer::new();
        let plen = packet.len();
        response.append_from_buffer(&packet, plen);
        proof {
            assert(response@ =~= packet@);
        }
        icmp_output_v4(ctx, response, ICMPV4_ECHO_REPLY, source_ip);
    }
}

/// Handle a received v6 ICMP message: a valid echo request is answered
/// with an echo reply carrying the same payload; anything else is dropped.
pub fn icmp_input_v6(ctx: &mut StackCtx, packet: NetBuffer, source_ip: IPAddr)
    requires
        old(ctx).wf(),
        packet.wf(),
        source_ip is V6,
        packet@.len() + IPV4_BASE_HEADER_LEN <= 0xffff,
    ensures
        final(ctx).wf(),
        final(ctx).same_except_frames(old(ctx)),
        crate::stack::StackCtx::frames_extended(*old(ctx), *final(ctx)),
        icmp_v6_input_post(*old(ctx), *final(ctx), packet@, source_ip),
        ({
            let sum = ones_comp_sum(
                ones_comp_sum(
                    0,
                    pseudo_header_bytes(
                        source_ip,
                        old(ctx).local_ip_v6,
                        packet@.len() as int,
                        PROTO_ICMPV6,
                    ),
                ),
                packet@,
            );
            let valid = packet@.len() >= ICMP_HEADER_LEN && sum == 0xffff && packet@[0]
                == ICMPV6_ECHO_REQUEST;
            if valid {
                final(ctx).out_frames@.len() == old(ctx).out_frames@.len() + 1
                    && final(ctx).out_frames@.last()@ == ipv6_frame_bytes(
                    icmp_v6_msg_bytes(
                        old(ctx).local_ip_v6,
                        source_ip,
                        ICMPV6_ECHO_REPLY,
                        packet@.skip(ICMP_HEADER_LEN as int),
                    ),
                    PROTO_ICMPV6,
                    old(ctx).local_ip_v6,
                    source_ip,
                )
            } else {
                *final(ctx) == *old(ctx)
            }
        }),
{
    let mut packet = packet;
    if packet.len() < ICMP_HEADER_LEN {
        return ;
    }
    let la = ctx.local_ip_v6;
    let ph_sum = compute_pseudo_header_checksum(source_ip, la, packet.len(), PROTO_ICMPV6);
    proof {
        lemma_ones_comp_sum_bound(
            0,
            pseudo_header_bytes(source_ip, la, packet@.len() as int, PROTO_ICMPV6),
        );
    }
    let sum = compute_buffer_ones_comp(ph_sum, &packet);
    if sum != 0xffff {
        return ;
    }
    let header = packet.header();
    let packet_type = header[0];
    proof {
        assert(packet@.take(packet.head_len())[0] == packet@[0]);
    }
    packet.trim_head(ICMP_HEADER_LEN);
    if packet_type == ICMPV6_ECHO_REQUEST {
        let mut response = NetBuffer::new();
        let plen = packet.len();
        response.append_from_buffer(&packet, plen);
        proof {
            assert(response@ =~= packet@);
        }
        icmp_output_v6(ctx, response, ICMPV6_ECHO_REPLY, source_ip);
    }
}

} // verus!
