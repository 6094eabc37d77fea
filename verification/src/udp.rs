//! UDP (RFC 768): port demultiplexing, per-socket receive queues, and
//! datagram send with the pseudo-header checksum.

use crate::buf::NetBuffer;
use crate::ip::{ip_output, ipv4_frame_bytes, ipv6_frame_bytes, IPV4_BASE_HEADER_LEN, PROTO_UDP};
use crate::stack::NetStack;
use crate::util::{
    be16_bytes, be16_val, compute_buffer_ones_comp, compute_ones_comp,
    compute_pseudo_header_checksum, lemma_ones_comp_sum_bound, lemma_ones_comp_sum_concat,
    ones_comp_sum, pseudo_header_bytes, IPAddr, NetError,
};
use vstd::prelude::*;
use vstd::std_specs::vec::vec_index_mut;

verus! {

pub const UDP_HEADER_LEN: usize = 8;

/// A received datagram waiting to be read.
pub struct RxDatagram {
    pub source_ip: IPAddr,
    pub source_port: u16,
    pub payload: NetBuffer,
}

/// The protocol state of one UDP socket.
pub struct UDPSocketState {
    /// Local port the socket is bound to.
    pub port: u16,
    /// Datagrams received and not yet delivered, oldest first.
    pub receive_queue: Vec<RxDatagram>,
}

/// One UDP socket in the stack's table.
pub struct UDPSocket {
    pub state: UDPSocketState,
    /// Whether the socket is registered for demultiplexing.
    pub bound: bool,
}

impl UDPSocket {
    pub open spec fn wf(&self) -> bool {
        forall|i: int|
            0 <= i < self.state.receive_queue@.len() ==> (#[trigger] self.state.receive_queue@[i]).payload.wf()
    }
}

/// True when some bound UDP socket uses `port`.
pub open spec fn udp_port_used(socks: Seq<UDPSocket>, port: u16) -> bool {
    exists|i: int| 0 <= i < socks.len() && (#[trigger] socks[i]).bound && socks[i].state.port == port
}

/// Handle of the bound UDP socket on `port`, if any.
pub fn find_udp_socket(socks: &Vec<UDPSocket>, port: u16) -> (r: Option<usize>)
    ensures
        match r {
            Some(i) => i < socks@.len() && socks@[i as int].bound && socks@[i as int].state.port
                == port,
            None => !udp_port_used(socks@, port),
        },
{
    let n = socks.len();
    let mut i: usize = 0;
    while i < n
        invariant
            n == socks@.len(),
            i <= n,
            forall|j: int|
                0 <= j < i ==> !((#[trigger] socks@[j]).bound && socks@[j].state.port == port),
        decreases n - i,
    {
        if socks[i].bound && socks[i].state.port == port {
            return Some(i);
        }
        i = i + 1;
    }
    None
}

/// Open a UDP socket bound to `port`, or report that the port is taken.
/// The result is the socket's handle.
pub fn udp_open(stack: &mut NetStack, port: u16) -> (r: Result<usize, NetError>)
    requires
        old(stack).wf(),
    ensures
        final(stack).wf(),
        final(stack).ctx == old(stack).ctx,
        final(stack).tcp_socks@ == old(stack).tcp_socks@,
        udp_port_used(old(stack).udp_socks@, port) ==> {
            &&& r == Result::<usize, NetError>::Err(NetError::PortInUse)
            &&& final(stack).udp_socks@ == old(stack).udp_socks@
        },
        !udp_port_used(old(stack).udp_socks@, port) ==> {
            &&& r == Result::<usize, NetError>::Ok(old(stack).udp_socks@.len() as usize)
            &&& final(stack).udp_socks@.len() == old(stack).udp_socks@.len() + 1
            &&& final(stack).udp_socks@.last().bound
            &&& final(stack).udp_socks@.last().state.port == port
            &&& final(stack).udp_socks@.last().state.receive_queue@.len() == 0
            &&& forall|i: int|
                0 <= i < old(stack).udp_socks@.len() ==> final(stack).udp_socks@[i] == old(
                    stack,
                ).udp_socks@[i]
        },
{
    let n = stack.udp_socks.len();
    if find_udp_socket(&stack.udp_socks, port).is_some() {
        return Err(NetError::PortInUse);
    }
    let sock = UDPSocket {
        state: UDPSocketState { port, receive_queue: Vec::new() },
        bound: true,
    };
    stack.udp_socks.push(sock);
    Ok(n)
}

/// Deliver the oldest queued datagram on the socket: copy up to
/// `data.len()` octets of its payload, record its source, and return the
/// octet count.  Returns `-1` when nothing is queued yet; the shell waits
/// and retries.
pub fn udp_recv(
    stack: &mut NetStack,
    handle: usize,
    data: &mut [u8],
    out_addr: &mut IPAddr,
    out_port: &mut u16,
) -> (r: i32)
    requires
        old(stack).wf(),
        handle < old(stack).udp_socks@.len(),
        old(data)@.len() <= 0x7fffffff,
    ensures
        final(stack).wf(),
        final(stack).ctx == old(stack).ctx,
        final(stack).tcp_socks@ == old(stack).tcp_socks@,
        final(stack).udp_socks@.len() == old(stack).udp_socks@.len(),
        forall|i: int|
            0 <= i < old(stack).udp_socks@.len() && i != handle ==> final(stack).udp_socks@[i]
                == old(stack).udp_socks@[i],
        ({
            let q = old(stack).udp_socks@[handle as int].state.receive_queue@;
            if q.len() == 0 {
                &&& r == -1
                &&& final(stack).udp_socks@ == old(stack).udp_socks@
                &&& final(data)@ == old(data)@
                &&& *final(out_addr) == *old(out_addr)
                &&& *final(out_port) == *old(out_port)
            } else {
                let entry = q[0];
                let copied = if entry.payload@.len() < old(data)@.len() {
                    entry.payload@.len() as int
                } else {
                    old(data)@.len() as int
                };
                &&& r == copied
                &&& final(data)@ == entry.payload@.take(copied) + old(data)@.skip(copied)
                &&& *final(out_addr) == entry.source_ip
                &&& *final(out_port) == entry.source_port
                &&& final(stack).udp_socks@[handle as int].state.receive_queue@ == q.drop_first()
                &&& final(stack).udp_socks@[handle as int].state.port == old(
                    stack,
                ).udp_socks@[handle as int].state.port
                &&& final(stack).udp_socks@[handle as int].bound == old(
                    stack,
                ).udp_socks@[handle as int].bound
            }
        }),
{
    let ghost pre = stack.udp_socks@;
    let sock = vec_index_mut(&mut stack.udp_socks, handle);
    if sock.state.receive_queue.len() == 0 {
        return -1;
    }
    proof {
        assert(pre[handle as int].wf());
        assert(pre[handle as int].state.receive_queue@[0].payload.wf());
    }
    let entry = sock.state.receive_queue.remove(0);
    proof {
        assert(sock.state.receive_queue@ =~= pre[handle as int].state.receive_queue@.drop_first());
    }
    *out_addr = entry.source_ip;
    *out_port = entry.source_port;
    let copied = entry.payload.copy_to_slice(data);
    copied as i32
}

/// The complete UDP datagram for the wire: source and destination ports,
/// length, and the checksum over the pseudo-header and the whole datagram.
pub open spec fn udp_datagram_bytes(
    src_ip: IPAddr,
    dest_ip: IPAddr,
    source_port: u16,
    dest_port: u16,
    payload: Seq<u8>,
) -> Seq<u8> {
    let len = payload.len() + UDP_HEADER_LEN;
    let h0 = be16_bytes(source_port) + be16_bytes(dest_port) + be16_bytes((len % 0x10000) as u16)
        + seq![0u8, 0u8];
    let sum = ones_comp_sum(
        ones_comp_sum(0, pseudo_header_bytes(src_ip, dest_ip, len as int, PROTO_UDP)),
        h0 + payload,
    );
    let ck = 0xffff - sum;
    h0.update(6, (ck / 256) as u8).update(7, (ck % 256) as u8) + payload
}

/// Send `data` as one datagram from the socket's port to the given
/// destination; the framed packet joins the outbound queue.
pub fn udp_send(
    stack: &mut NetStack,
    handle: usize,
    dest_addr: IPAddr,
    dest_port: u16,
    data: &[u8],
) -> (r: Result<(), NetError>)
    requires
        old(stack).wf(),
        handle < old(stack).udp_socks@.len(),
        data@.len() + UDP_HEADER_LEN + IPV4_BASE_HEADER_LEN <= 0xffff,
    ensures
        final(stack).wf(),
        r is Ok,
        final(stack).tcp_socks@ == old(stack).tcp_socks@,
        final(stack).udp_socks@ == old(stack).udp_socks@,
        final(stack).ctx.same_except_frames(&old(stack).ctx),
        final(stack).ctx.out_frames@.len() == old(stack).ctx.out_frames@.len() + 1,
        forall|i: int|
            0 <= i < old(stack).ctx.out_frames@.len() ==> final(stack).ctx.out_frames@[i] == old(
                stack,
            ).ctx.out_frames@[i],
        ({
            let sport = old(stack).udp_socks@[handle as int].state.port;
            let seg = udp_datagram_bytes(
                if dest_addr is V4 {
                    old(stack).ctx.local_ip_v4
                } else {
                    old(stack).ctx.local_ip_v6
                },
                dest_addr,
                sport,
                dest_port,
                data@,
            );
            if dest_addr is V4 {
                final(stack).ctx.out_frames@.last()@ == ipv4_frame_bytes(
                    seg,
                    old(stack).ctx.next_packet_id,
                    PROTO_UDP,
                    old(stack).ctx.local_ip_v4,
                    dest_addr,
                )
            } else {
                final(stack).ctx.out_frames@.last()@ == ipv6_frame_bytes(
                    seg,
                    PROTO_UDP,
                    old(stack).ctx.local_ip_v6,
                    dest_addr,
                )
            }
        }),
{
    let source_port = stack.udp_socks[handle].state.port;
    let mut packet = NetBuffer::new();
    packet.append_from_slice(data);
    proof {
        assert(packet@ =~= data@);
    }
    udp_output(&mut stack.ctx, packet, dest_addr, source_port, dest_port);
    Ok(())
}

/// Frame `packet` as a UDP datagram and hand it to the IP layer.
fn udp_output(
    ctx: &mut crate::stack::StackCtx,
    packet: NetBuffer,
    dest_ip: IPAddr,
    source_port: u16,
    dest_port: u16,
)
    requires
        old(ctx).wf(),
        packet.wf(),
        packet@.len() + UDP_HEADER_LEN + IPV4_BASE_HEADER_LEN <= 0xffff,
    ensures
        final(ctx).wf(),
        final(ctx).same_except_frames(old(ctx)),
        final(ctx).out_frames@.len() == old(ctx).out_frames@.len() + 1,
        forall|i: int|
            0 <= i < old(ctx).out_frames@.len() ==> final(ctx).out_frames@[i] == old(
                ctx,
            ).out_frames@[i],
        ({
            let seg = udp_datagram_bytes(
                if dest_ip is V4 {
                    old(ctx).local_ip_v4
                } else {
                    old(ctx).local_ip_v6
                },
                dest_ip,
                source_port,
                dest_port,
                packet@,
            );
            if dest_ip is V4 {
                final(ctx).out_frames@.last()@ == ipv4_frame_bytes(
                    seg,
                    old(ctx).next_packet_id,
                    PROTO_UDP,
                    old(ctx).local_ip_v4,
                    dest_ip,
                )
            } else {
                final(ctx).out_frames@.last()@ == ipv6_frame_bytes(
                    seg,
                    PROTO_UDP,
                    old(ctx).local_ip_v6,
                    dest_ip,
                )
            }
        }),
{
    let mut packet = packet;
    let ghost payload = packet@;
    let length: usize = packet.len() + UDP_HEADER_LEN;
    let mut h: Vec<u8> = Vec::new();
    h.push((source_port / 256) as u8);
    h.push((source_port % 256) as u8);
    h.push((dest_port / 256) as u8);
    h.push((dest_port % 256) as u8);
    let lv: u16 = (length % 0x10000) as u16;
    h.push((lv / 256) as u8);
    h.push((lv % 256) as u8);
    h.push(0);
    h.push(0);
    let ghost h0 = be16_bytes(source_port) + be16_bytes(dest_port) + be16_bytes(
        (length as int % 0x10000) as u16,
    ) + seq![0u8, 0u8];
    proof {
        assert(h@ =~= h0);
    }
    let src_ip = match dest_ip {
        IPAddr::V4(_) => ctx.local_ip_v4,
        IPAddr::V6(_) => ctx.local_ip_v6,
    };
    let ph_sum = compute_pseudo_header_checksum(src_ip, dest_ip, length, PROTO_UDP);
    proof {
        lemma_ones_comp_sum_bound(
            0,
            pseudo_header_bytes(src_ip, dest_ip, length as int, PROTO_UDP),
        );
    }
    let sum1 = compute_ones_comp(ph_sum, h.as_slice());
    let sum2 = compute_buffer_ones_comp(sum1, &packet);
    proof {
        lemma_ones_comp_sum_concat(ph_sum as int, h0, payload);
        lemma_ones_comp_sum_bound(ph_sum as int, h0 + payload);
    }
    let ck: u16 = 0xffff - sum2;
    let hs = h.as_mut_slice();
    hs[6] = (ck / 256) as u8;
    hs[7] = (ck % 256) as u8;
    packet.prepend_from_slice(h.as_slice());
    proof {
        assert(packet@ =~= udp_datagram_bytes(
            src_ip,
            dest_ip,
            source_port,
            dest_port,
            payload,
        ));
    }
    ip_output(ctx, packet, PROTO_UDP, dest_ip);
}

/// What `udp_input` does, as a relation between the stack before and
/// after, for the datagram octets `p` arriving from `source_addr`: a
/// datagram too short for a header or for an unbound port is dropped,
/// anything else joins the receive queue of the socket on its port.
/// Nothing is sent and no timer is touched.
pub open spec fn udp_input_post(
    pre: NetStack,
    post: NetStack,
    p: Seq<u8>,
    source_addr: IPAddr,
) -> bool {
    &&& crate::stack::StackCtx::ctx_quiet(pre.ctx, post.ctx)
    &&& post.tcp_socks@ == pre.tcp_socks@
    &&& post.udp_socks@.len() == pre.udp_socks@.len()
    &&& (p.len() < UDP_HEADER_LEN ==> post.udp_socks@ == pre.udp_socks@)
    &&& (p.len() >= UDP_HEADER_LEN ==> {
        let sport = be16_val(p) as u16;
        let dport = be16_val(p.skip(2)) as u16;
        ||| (post.udp_socks@ == pre.udp_socks@ && !udp_port_used(pre.udp_socks@, dport))
        ||| (exists|i: int|
            {
                let q0 = pre.udp_socks@[i].state.receive_queue@;
                let q1 = post.udp_socks@[i].state.receive_queue@;
                &&& 0 <= i < pre.udp_socks@.len()
                &&& (#[trigger] pre.udp_socks@[i]).bound
                &&& pre.udp_socks@[i].state.port == dport
                &&& q1.len() == q0.len() + 1
                &&& q1.take(q0.len() as int) == q0
                &&& q1.last().source_ip == source_addr
                &&& q1.last().source_port == sport
                &&& q1.last().payload@ == p.skip(UDP_HEADER_LEN as int)
                &&& forall|j: int|
                    0 <= j < pre.udp_socks@.len() && j != i ==> post.udp_socks@[j]
                        == pre.udp_socks@[j]
            })
    })
}

/// Deliver a received UDP datagram: parse the ports, strip the header,
/// and queue the payload on the socket bound to the destination port; a
/// datagram for an unbound port, or one too short for a header, is
/// dropped.
pub fn udp_input(stack: &mut NetStack, packet: NetBuffer, source_addr: IPAddr)
    requires
        old(stack).wf(),
        packet.wf(),
    ensures
        final(stack).wf(),
        final(stack).ctx == old(stack).ctx,
        udp_input_post(*old(stack), *final(stack), packet@, source_addr),
{
    let mut packet = packet;
    if packet.len() < UDP_HEADER_LEN {
        return ;
    }
    let mut hdr: Vec<u8> = vec![0u8; UDP_HEADER_LEN];
    let got = packet.copy_to_slice(hdr.as_mut_slice());
    proof {
        assert(hdr@ =~= packet@.take(UDP_HEADER_LEN as int));
        assert(hdr@[0] == packet@[0]);
        assert(hdr@[1] == packet@[1]);
        assert(hdr@.skip(2)[0] == packet@[2]);
        assert(hdr@.skip(2)[1] == packet@[3]);
        assert(packet@.skip(2)[0] == packet@[2]);
        assert(packet@.skip(2)[1] == packet@[3]);
    }
    let source_port = crate::util::get_be16(hdr.as_slice());
    let dest_port = {
        let b2 = hdr[2];
        let b3 = hdr[3];
        (b2 as u16) * 256 + (b3 as u16)
    };
    packet.trim_head(UDP_HEADER_LEN);

    match find_udp_socket(&stack.udp_socks, dest_port) {
        Some(i) => {
            let ghost pre = stack.udp_socks@;
            let sock = vec_index_mut(&mut stack.udp_socks, i);
            sock.state.receive_queue.push(
                RxDatagram { source_ip: source_addr, source_port, payload: packet },
            );
            proof {
                let q0 = pre[i as int].state.receive_queue@;
                let q1 = stack.udp_socks@[i as int].state.receive_queue@;
                assert(q1.take(q0.len() as int) =~= q0);
            }
        },
        None => {},
    }
}

} // verus!
