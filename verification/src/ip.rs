//! IPv4 and IPv6 framing (RFC 791 and RFC 8200): encode on the way out,
//! decode and demultiplex on the way in.

use crate::buf::NetBuffer;
use crate::stack::{NetStack, StackCtx};
use crate::util::{
    be16_bytes, compute_checksum, ones_comp_sum, IPAddr,
};
use vstd::prelude::*;
use vstd::slice::slice_subrange;

verus! {

pub const PROTO_ICMPV4: u8 = 1;

pub const PROTO_ICMPV6: u8 = 58;

pub const PROTO_TCP: u8 = 6;

pub const PROTO_UDP: u8 = 17;

/// Fixed IPv4 header length; options are never emitted.
pub const IPV4_BASE_HEADER_LEN: usize = 20;

/// IPv6 header length.
pub const IPV6_HEADER_LEN: usize = 40;

pub const DEFAULT_TTL: u8 = 64;

/// The 20 IPv4 header octets before the checksum is filled in:
/// version/IHL 0x45, zero TOS, total length, identification, no
/// fragmenting, TTL 64, protocol, zero checksum, then the two addresses.
pub open spec fn ipv4_header_pre(
    total_len: int,
    ident: u16,
    protocol: u8,
    src: IPAddr,
    dst: IPAddr,
) -> Seq<u8> {
    seq![0x45u8, 0u8] + be16_bytes((total_len % 0x10000) as u16) + be16_bytes(ident) + seq![
        0u8,
        0u8,
        DEFAULT_TTL,
        protocol,
        0u8,
        0u8,
    ] + src.bytes() + dst.bytes()
}

/// The complete IPv4 header: the pre-image with its own internet checksum
/// written into octets 10 and 11.
pub open spec fn ipv4_header_bytes(
    total_len: int,
    ident: u16,
    protocol: u8,
    src: IPAddr,
    dst: IPAddr,
) -> Seq<u8> {
    let h0 = ipv4_header_pre(total_len, ident, protocol, src, dst);
    let ck = 0xffff - ones_comp_sum(0, h0);
    h0.update(10, (ck / 256) as u8).update(11, (ck % 256) as u8)
}

/// A whole IPv4 frame: header then payload.
pub open spec fn ipv4_frame_bytes(
    payload: Seq<u8>,
    ident: u16,
    protocol: u8,
    src: IPAddr,
    dst: IPAddr,
) -> Seq<u8> {
    ipv4_header_bytes(payload.len() + IPV4_BASE_HEADER_LEN, ident, protocol, src, dst) + payload
}

/// The 40 IPv6 header octets: version nibble 6, zero class and flow
/// label, payload length, next header, hop limit 64, then the addresses.
pub open spec fn ipv6_header_bytes(
    payload_len: int,
    next_header: u8,
    src: IPAddr,
    dst: IPAddr,
) -> Seq<u8> {
    seq![0x60u8, 0u8, 0u8, 0u8] + be16_bytes((payload_len % 0x10000) as u16) + seq![
        next_header,
        DEFAULT_TTL,
    ] + src.bytes() + dst.bytes()
}

/// A whole IPv6 frame: header then payload.
pub open spec fn ipv6_frame_bytes(
    payload: Seq<u8>,
    next_header: u8,
    src: IPAddr,
    dst: IPAddr,
) -> Seq<u8> {
    ipv6_header_bytes(payload.len() as int, next_header, src, dst) + payload
}

/// Handle one raw IP frame from the tunnel: check the version nibble,
/// validate the IPv4 header checksum, refuse fragments (reassembly is not
/// supported), strip the IP header and hand the payload to the protocol
/// the header names.  Anything malformed is dropped without a trace.
pub fn ip_input(stack: &mut NetStack, packet: NetBuffer, now_ms: u64)
    requires
        old(stack).wf(),
        packet.wf(),
        packet@.len() <= 0xff00,
        crate::tcp::tcp_input_budget(old(stack).tcp_socks@, packet@.len() as int),
        now_ms + 0x10000 <= u64::MAX,
    ensures
        final(stack).wf(),
        crate::stack::StackCtx::frames_extended(old(stack).ctx, final(stack).ctx),
        packet@.len() == 0 ==> stack_quiet(*old(stack), *final(stack)),
        packet@.len() >= 1 && !(packet@[0] / 16 == 4 || packet@[0] / 16 == 6)
            ==> stack_quiet(*old(stack), *final(stack)),
        packet@.len() >= 1 && packet@[0] / 16 == 4 && !ipv4_head_ok(packet@)
            ==> stack_quiet(*old(stack), *final(stack)),
        packet@.len() >= 1 && packet@[0] / 16 == 6 && packet@.len() < IPV6_HEADER_LEN
            ==> stack_quiet(*old(stack), *final(stack)),
        packet@.len() >= 1 && packet@[0] / 16 == 4 && ipv4_head_ok(packet@)
            ==> ipv4_dispatch_post(*old(stack), *final(stack), packet@, now_ms),
        packet@.len() >= IPV6_HEADER_LEN && packet@[0] / 16 == 6 ==> ipv6_dispatch_post(
            *old(stack),
            *final(stack),
            packet@,
            now_ms,
        ),
{
    let mut packet = packet;
    if packet.len() == 0 {
        return ;
    }
    let mut first: Vec<u8> = vec![0u8; 1];
    let _ = packet.copy_to_slice(first.as_mut_slice());
    proof {
        assert(first@ =~= packet@.take(1));
        assert(first@[0] == packet@[0]);
    }
    let version = first[0] / 16;
    if version == 4 {
        ip_input_v4(stack, packet, now_ms);
    } else if version == 6 {
        ip_input_v6(stack, packet, now_ms);
    }
}

/// Nothing observable happened: no socket changed, nothing was sent, no
/// timer or identification was consumed.
pub open spec fn stack_quiet(pre: NetStack, post: NetStack) -> bool {
    &&& post.tcp_socks@ == pre.tcp_socks@
    &&& post.udp_socks@ == pre.udp_socks@
    &&& post.ctx.out_frames@ == pre.ctx.out_frames@
    &&& post.ctx.timers == pre.ctx.timers
    &&& post.ctx.next_packet_id == pre.ctx.next_packet_id
    &&& post.ctx.local_ip_v4 == pre.ctx.local_ip_v4
    &&& post.ctx.local_ip_v6 == pre.ctx.local_ip_v6
}

/// The dispatch a valid IPv4 frame `p` causes: the payload behind the
/// header goes to the protocol the header names, whose own input
/// relation then holds; an unknown protocol is dropped.
pub open spec fn ipv4_dispatch_post(pre: NetStack, post: NetStack, p: Seq<u8>, now_ms: u64) -> bool {
    let ihl = (p[0] as int % 16) * 4;
    let proto = p[9];
    let payload = p.skip(ihl);
    &&& (proto == PROTO_TCP ==> exists|src: IPAddr|
        {
            &&& #[trigger] src.bytes() == p.subrange(12, 16)
            &&& src is V4
            &&& crate::tcp::tcp_input_post(pre, post, payload, src, now_ms)
        })
    &&& (proto == PROTO_UDP ==> exists|src: IPAddr|
        {
            &&& #[trigger] src.bytes() == p.subrange(12, 16)
            &&& src is V4
            &&& crate::udp::udp_input_post(pre, post, payload, src)
        })
    &&& (proto == PROTO_ICMPV4 ==> post.tcp_socks@ == pre.tcp_socks@ && post.udp_socks@
        == pre.udp_socks@ && exists|src: IPAddr|
        {
            &&& #[trigger] src.bytes() == p.subrange(12, 16)
            &&& src is V4
            &&& crate::icmp::icmp_v4_input_post(pre.ctx, post.ctx, payload, src)
        })
    &&& (!(proto == PROTO_TCP || proto == PROTO_UDP || proto == PROTO_ICMPV4) ==> stack_quiet(
        pre,
        post,
    ))
}

/// The dispatch a long-enough IPv6 frame `p` causes, as
/// `ipv4_dispatch_post` with the v6 header layout.
pub open spec fn ipv6_dispatch_post(pre: NetStack, post: NetStack, p: Seq<u8>, now_ms: u64) -> bool {
    let proto = p[6];
    let payload = p.skip(IPV6_HEADER_LEN as int);
    &&& (proto == PROTO_TCP ==> exists|src: IPAddr|
        {
            &&& #[trigger] src.bytes() == p.subrange(8, 24)
            &&& src is V6
            &&& crate::tcp::tcp_input_post(pre, post, payload, src, now_ms)
        })
    &&& (proto == PROTO_UDP ==> exists|src: IPAddr|
        {
            &&& #[trigger] src.bytes() == p.subrange(8, 24)
            &&& src is V6
            &&& crate::udp::udp_input_post(pre, post, payload, src)
        })
    &&& (proto == PROTO_ICMPV6 ==> post.tcp_socks@ == pre.tcp_socks@ && post.udp_socks@
        == pre.udp_socks@ && exists|src: IPAddr|
        {
            &&& #[trigger] src.bytes() == p.subrange(8, 24)
            &&& src is V6
            &&& crate::icmp::icmp_v6_input_post(pre.ctx, post.ctx, payload, src)
        })
    &&& (!(proto == PROTO_TCP || proto == PROTO_UDP || proto == PROTO_ICMPV6) ==> stack_quiet(
        pre,
        post,
    ))
}

/// Structural validity of a received IPv4 header: long enough, a header
/// length that fits, a checksum that sums to all ones, and no
/// fragmentation.
pub open spec fn ipv4_head_ok(p: Seq<u8>) -> bool {
    let ihl = (p[0] as int % 16) * 4;
    &&& p.len() >= IPV4_BASE_HEADER_LEN
    &&& ihl >= IPV4_BASE_HEADER_LEN
    &&& ihl <= p.len()
    &&& ones_comp_sum(0, p.take(ihl)) == 0xffff
    &&& (p[6] as int * 256 + p[7] as int) % 0x4000 == 0
}

fn ip_input_v4(stack: &mut NetStack, packet: NetBuffer, now_ms: u64)
    requires
        old(stack).wf(),
        packet.wf(),
        1 <= packet@.len() <= 0xff00,
        packet@[0] / 16 == 4,
        crate::tcp::tcp_input_budget(old(stack).tcp_socks@, packet@.len() as int),
        now_ms + 0x10000 <= u64::MAX,
    ensures
        final(stack).wf(),
        crate::stack::StackCtx::frames_extended(old(stack).ctx, final(stack).ctx),
        !ipv4_head_ok(packet@) ==> stack_quiet(*old(stack), *final(stack)),
        ipv4_head_ok(packet@) ==> ipv4_dispatch_post(*old(stack), *final(stack), packet@, now_ms),
{
    let mut packet = packet;
    let ghost p0 = packet@;
    if packet.len() < IPV4_BASE_HEADER_LEN {
        return ;
    }
    let mut first: Vec<u8> = vec![0u8; 1];
    let _ = packet.copy_to_slice(first.as_mut_slice());
    proof {
        assert(first@ =~= packet@.take(1));
        assert(first@[0] == packet@[0]);
    }
    let header_len: usize = ((first[0] % 16) as usize) * 4;
    if header_len < IPV4_BASE_HEADER_LEN || header_len > packet.len() {
        return ;
    }
    let mut header: Vec<u8> = vec![0u8; header_len];
    let _ = packet.copy_to_slice(header.as_mut_slice());
    proof {
        assert(header@ =~= packet@.take(header_len as int));
        assert(header@[6] == packet@[6]);
        assert(header@[7] == packet@[7]);
    }
    let checksum = compute_checksum(header.as_slice());
    if checksum != 0 {
        return ;
    }
    let frag_field = {
        let b0 = header[6];
        let b1 = header[7];
        (b0 as u16) * 256 + (b1 as u16)
    };
    if frag_field % 0x4000 != 0 {
        // Reassembling fragmented packets is not supported.
        return ;
    }
    let protocol = header[9];
    let source_addr = IPAddr::new_from(slice_subrange(header.as_slice(), 12, 16));
    proof {
        assert(header@.subrange(12, 16) =~= p0.subrange(12, 16));
        assert(header@[9] == p0[9]);
    }
    packet.trim_head(header_len);
    if protocol == PROTO_ICMPV4 {
        crate::icmp::icmp_input_v4(&mut stack.ctx, packet, source_addr);
        proof {
            assert(crate::icmp::icmp_v4_input_post(
                old(stack).ctx,
                stack.ctx,
                p0.skip((p0[0] as int % 16) * 4),
                source_addr,
            ));
        }
    } else if protocol == PROTO_TCP {
        crate::tcp::tcp_input(stack, packet, source_addr, now_ms);
        proof {
            assert(crate::tcp::tcp_input_post(
                *old(stack),
                *stack,
                p0.skip((p0[0] as int % 16) * 4),
                source_addr,
                now_ms,
            ));
        }
    } else if protocol == PROTO_UDP {
        crate::udp::udp_input(stack, packet, source_addr);
        proof {
            assert(crate::udp::udp_input_post(
                *old(stack),
                *stack,
                p0.skip((p0[0] as int % 16) * 4),
                source_addr,
            ));
        }
    }
}

fn ip_input_v6(stack: &mut NetStack, packet: NetBuffer, now_ms: u64)
    requires
        old(stack).wf(),
        packet.wf(),
        1 <= packet@.len() <= 0xff00,
        crate::tcp::tcp_input_budget(old(stack).tcp_socks@, packet@.len() as int),
        now_ms + 0x10000 <= u64::MAX,
    ensures
        final(stack).wf(),
        crate::stack::StackCtx::frames_extended(old(stack).ctx, final(stack).ctx),
        packet@.len() < IPV6_HEADER_LEN ==> stack_quiet(*old(stack), *final(stack)),
        packet@.len() >= IPV6_HEADER_LEN ==> ipv6_dispatch_post(
            *old(stack),
            *final(stack),
            packet@,
            now_ms,
        ),
{
    let mut packet = packet;
    let ghost p0 = packet@;
    if packet.len() < IPV6_HEADER_LEN {
        return ;
    }
    let mut header: Vec<u8> = vec![0u8; IPV6_HEADER_LEN];
    let _ = packet.copy_to_slice(header.as_mut_slice());
    let protocol = header[6];
    let source_addr = IPAddr::new_from(slice_subrange(header.as_slice(), 8, 24));
    proof {
        assert(header@ =~= p0.take(IPV6_HEADER_LEN as int));
        assert(header@.subrange(8, 24) =~= p0.subrange(8, 24));
        assert(header@[6] == p0[6]);
    }
    packet.trim_head(IPV6_HEADER_LEN);
    if protocol == PROTO_ICMPV6 {
        crate::icmp::icmp_input_v6(&mut stack.ctx, packet, source_addr);
        proof {
            assert(crate::icmp::icmp_v6_input_post(
                old(stack).ctx,
                stack.ctx,
                p0.skip(IPV6_HEADER_LEN as int),
                source_addr,
            ));
        }
    } else if protocol == PROTO_TCP {
        crate::tcp::tcp_input(stack, packet, source_addr, now_ms);
        proof {
            assert(crate::tcp::tcp_input_post(
                *old(stack),
                *stack,
                p0.skip(IPV6_HEADER_LEN as int),
                source_addr,
                now_ms,
            ));
        }
    } else if protocol == PROTO_UDP {
        crate::udp::udp_input(stack, packet, source_addr);
        proof {
            assert(crate::udp::udp_input_post(
                *old(stack),
                *stack,
                p0.skip(IPV6_HEADER_LEN as int),
                source_addr,
            ));
        }
    }
}

/// Frame `packet` for the family of `dest_addr` and queue it for the
/// tunnel.  The source address is the interface address of that family.
pub fn ip_output(ctx: &mut StackCtx, packet: NetBuffer, protocol: u8, dest_addr: IPAddr)
    requires
        old(ctx).wf(),
        packet.wf(),
        packet@.len() + IPV4_BASE_HEADER_LEN <= 0xffff,
    ensures
        final(ctx).wf(),
        final(ctx).same_except_frames(old(ctx)),
        final(ctx).out_frames@.len() == old(ctx).out_frames@.len() + 1,
        forall|i: int|
            0 <= i < old(ctx).out_frames@.len() ==> final(ctx).out_frames@[i] == old(
                ctx,
            ).out_frames@[i],
        dest_addr is V4 ==> final(ctx).out_frames@.last()@ == ipv4_frame_bytes(
            packet@,
            old(ctx).next_packet_id,
            protocol,
            old(ctx).local_ip_v4,
            dest_addr,
        ),
        dest_addr is V4 ==> final(ctx).next_packet_id == ((old(ctx).next_packet_id + 1)
            % 0x10000) as u16,
        !(dest_addr is V4) ==> final(ctx).out_frames@.last()@ == ipv6_frame_bytes(
            packet@,
            protocol,
            old(ctx).local_ip_v6,
            dest_addr,
        ),
        !(dest_addr is V4) ==> final(ctx).next_packet_id == old(ctx).next_packet_id,
{
    match dest_addr {
        IPAddr::V4(_) => ip_output_v4(ctx, packet, protocol, dest_addr),
        IPAddr::V6(_) => ip_output_v6(ctx, packet, protocol, dest_addr),
    }
}

fn ip_output_v4(ctx: &mut StackCtx, packet: NetBuffer, protocol: u8, dest_addr: IPAddr)
    requires
        old(ctx).wf(),
        packet.wf(),
        dest_addr is V4,
        packet@.len() + IPV4_BASE_HEADER_LEN <= 0xffff,
    ensures
        final(ctx).wf(),
        final(ctx).same_except_frames(old(ctx)),
        final(ctx).out_frames@.len() == old(ctx).out_frames@.len() + 1,
        forall|i: int|
            0 <= i < old(ctx).out_frames@.len() ==> final(ctx).out_frames@[i] == old(
                ctx,
            ).out_frames@[i],
        final(ctx).out_frames@.last()@ == ipv4_frame_bytes(
            packet@,
            old(ctx).next_packet_id,
            protocol,
            old(ctx).local_ip_v4,
            dest_addr,
        ),
        final(ctx).next_packet_id == ((old(ctx).next_packet_id + 1) % 0x10000) as u16,
{
    let mut packet = packet;
    let ghost orig_payload = packet@;
    let total_len: usize = packet.len() + IPV4_BASE_HEADER_LEN;
    let ident = ctx.next_packet_id;
    ctx.next_packet_id = ctx.next_packet_id.wrapping_add(1);

    let mut h: Vec<u8> = Vec::new();
    h.push(0x45);
    h.push(0);
    let tl: u16 = (total_len % 0x10000) as u16;
    h.push((tl / 256) as u8);
    h.push((tl % 256) as u8);
    h.push((ident / 256) as u8);
    h.push((ident % 256) as u8);
    h.push(0);
    h.push(0);
    h.push(DEFAULT_TTL);
    h.push(protocol);
    h.push(0);
    h.push(0);
    let la = ctx.local_ip_v4;
    h.extend_from_slice(la.as_bytes());
    h.extend_from_slice(dest_addr.as_bytes());
    proof {
        assert(h@ =~= ipv4_header_pre(
            total_len as int,
            ident,
            protocol,
            old(ctx).local_ip_v4,
            dest_addr,
        ));
    }
    let ck = compute_checksum(h.as_slice());
    let hs = h.as_mut_slice();
    hs[10] = (ck / 256) as u8;
    hs[11] = (ck % 256) as u8;
    proof {
        assert(h@ =~= ipv4_header_bytes(
            total_len as int,
            ident,
            protocol,
            old(ctx).local_ip_v4,
            dest_addr,
        ));
    }
    packet.prepend_from_slice(h.as_slice());
    proof {
        assert(packet@ =~= ipv4_frame_bytes(
            orig_payload,
            old(ctx).next_packet_id,
            protocol,
            old(ctx).local_ip_v4,
            dest_addr,
        ));
    }
    ctx.out_frames.push(packet);
    ctx.metrics.packets_sent.inc();
}

fn ip_output_v6(ctx: &mut StackCtx, packet: NetBuffer, protocol: u8, dest_addr: IPAddr)
    requires
        old(ctx).wf(),
        packet.wf(),
        dest_addr is V6,
        packet@.len() + IPV6_HEADER_LEN <= usize::MAX,
    ensures
        final(ctx).wf(),
        final(ctx).same_except_frames(old(ctx)),
        final(ctx).out_frames@.len() == old(ctx).out_frames@.len() + 1,
        forall|i: int|
            0 <= i < old(ctx).out_frames@.len() ==> final(ctx).out_frames@[i] == old(
                ctx,
            ).out_frames@[i],
        final(ctx).out_frames@.last()@ == ipv6_frame_bytes(
            packet@,
            protocol,
            old(ctx).local_ip_v6,
            dest_addr,
        ),
        final(ctx).next_packet_id == old(ctx).next_packet_id,
{
    let mut packet = packet;
    let ghost orig_payload = packet@;
    let payload_len = packet.len();
    let mut h: Vec<u8> = Vec::new();
    h.push(0x60);
    h.push(0);
    h.push(0);
    h.push(0);
    let pl: u16 = (payload_len % 0x10000) as u16;
    h.push((pl / 256) as u8);
    h.push((pl % 256) as u8);
    h.push(protocol);
    h.push(DEFAULT_TTL);
    let la = ctx.local_ip_v6;
    h.extend_from_slice(la.as_bytes());
    h.extend_from_slice(dest_addr.as_bytes());
    proof {
        assert(h@ =~= ipv6_header_bytes(
            payload_len as int,
            protocol,
            old(ctx).local_ip_v6,
            dest_addr,
        ));
    }
    packet.prepend_from_slice(h.as_slice());
    proof {
        assert(packet@ =~= ipv6_frame_bytes(
            orig_payload,
            protocol,
            old(ctx).local_ip_v6,
            dest_addr,
        ));
    }
    ctx.out_frames.push(packet);
    ctx.metrics.packets_sent.inc();
}

} // verus!
