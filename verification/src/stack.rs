//! The stack's shared context: timers, the outbound frame queue, local
//! addresses, the IPv4 identification counter and the metrics counters.
//!
//! Socket tables and the full `NetStack` live here as well; the driving
//! shell owns one `NetStack`, feeds frames and clock ticks in, and drains
//! the outbound queue to the tunnel device.

use crate::buf::NetBuffer;
use crate::tcp::TCPSocket;
use crate::timer::TimerList;
use crate::udp::UDPSocket;
use crate::util::{IPAddr, Metrics};
use vstd::prelude::*;

verus! {

/// Mutable state shared by every protocol layer: the timer list, the
/// queue of fully framed outgoing packets, the interface addresses, the
/// IPv4 identification counter and the metrics.
pub struct StackCtx {
    pub timers: TimerList,
    pub out_frames: Vec<NetBuffer>,
    pub local_ip_v4: IPAddr,
    pub local_ip_v6: IPAddr,
    pub next_packet_id: u16,
    pub metrics: Metrics,
}

impl StackCtx {
    pub open spec fn wf(&self) -> bool {
        &&& self.timers.wf()
        &&& self.local_ip_v4 is V4
        &&& self.local_ip_v6 is V6
        &&& forall|i: int|
            0 <= i < self.out_frames@.len() ==> (#[trigger] self.out_frames@[i]).wf()
    }

    /// The timer list, local addresses, and the counters an output path
    /// does not touch, as they were; used by contracts of functions that
    /// only add outbound frames.
    pub open spec fn same_except_frames(&self, other: &StackCtx) -> bool {
        &&& self.timers == other.timers
        &&& self.local_ip_v4 == other.local_ip_v4
        &&& self.local_ip_v6 == other.local_ip_v6
        &&& self.metrics.packets_retransmitted == other.metrics.packets_retransmitted
        &&& self.metrics.packets_received == other.metrics.packets_received
    }

    /// Nothing observable changed: no frame queued, no timer touched, no
    /// identification consumed.  (Counters may tick.)
    pub open spec fn ctx_quiet(pre: StackCtx, post: StackCtx) -> bool {
        &&& post.out_frames@ == pre.out_frames@
        &&& post.timers == pre.timers
        &&& post.next_packet_id == pre.next_packet_id
        &&& post.local_ip_v4 == pre.local_ip_v4
        &&& post.local_ip_v6 == pre.local_ip_v6
    }

    /// The outbound queue of `post` extends that of `pre`, and the
    /// interface addresses are unchanged; timers may differ.
    pub open spec fn frames_extended(pre: StackCtx, post: StackCtx) -> bool {
        &&& post.local_ip_v4 == pre.local_ip_v4
        &&& post.local_ip_v6 == pre.local_ip_v6
        &&& post.out_frames@.len() >= pre.out_frames@.len()
        &&& forall|i: int|
            0 <= i < pre.out_frames@.len() ==> post.out_frames@[i] == pre.out_frames@[i]
    }

    /// A context with no pending timers and no queued frames.
    pub fn new(local_ip_v4: IPAddr, local_ip_v6: IPAddr) -> (r: StackCtx)
        requires
            local_ip_v4 is V4,
            local_ip_v6 is V6,
        ensures
            r.wf(),
            r.out_frames@.len() == 0,
            r.timers.pending().len() == 0,
            r.local_ip_v4 == local_ip_v4,
            r.local_ip_v6 == local_ip_v6,
    {
        StackCtx {
            timers: TimerList::new(),
            out_frames: Vec::new(),
            local_ip_v4,
            local_ip_v6,
            next_packet_id: 0,
            metrics: Metrics::new(),
        }
    }
}

/// The whole stack: shared context plus the TCP and UDP socket tables.
/// Socket handles are indices into the tables; slots are never reused, so
/// a handle stays valid for the life of the stack.
pub struct NetStack {
    pub ctx: StackCtx,
    pub tcp_socks: Vec<TCPSocket>,
    pub udp_socks: Vec<UDPSocket>,
}

impl NetStack {
    pub open spec fn wf(&self) -> bool {
        &&& self.ctx.wf()
        &&& forall|i: int| 0 <= i < self.tcp_socks@.len() ==> (#[trigger] self.tcp_socks@[i]).wf()
        &&& forall|i: int| 0 <= i < self.udp_socks@.len() ==> (#[trigger] self.udp_socks@[i]).wf()
    }

    /// A stack with the given interface addresses and no sockets.
    pub fn new(local_ip_v4: IPAddr, local_ip_v6: IPAddr) -> (r: NetStack)
        requires
            local_ip_v4 is V4,
            local_ip_v6 is V6,
        ensures
            r.wf(),
            r.tcp_socks@.len() == 0,
            r.udp_socks@.len() == 0,
            r.ctx.out_frames@.len() == 0,
            r.ctx.timers.pending().len() == 0,
            r.ctx.local_ip_v4 == local_ip_v4,
            r.ctx.local_ip_v6 == local_ip_v6,
    {
        NetStack {
            ctx: StackCtx::new(local_ip_v4, local_ip_v6),
            tcp_socks: Vec::new(),
            udp_socks: Vec::new(),
        }
    }

    /// Take every frame queued for the tunnel, oldest first, leaving the
    /// queue empty.  The driving shell calls this after each input or tick
    /// and writes the frames out.
    pub fn take_outbound(&mut self) -> (r: Vec<NetBuffer>)
        requires
            old(self).wf(),
        ensures
            final(self).wf(),
            r@ == old(self).ctx.out_frames@,
            final(self).ctx.out_frames@.len() == 0,
            final(self).ctx.timers == old(self).ctx.timers,
            final(self).ctx.local_ip_v4 == old(self).ctx.local_ip_v4,
            final(self).ctx.local_ip_v6 == old(self).ctx.local_ip_v6,
            final(self).ctx.next_packet_id == old(self).ctx.next_packet_id,
            final(self).tcp_socks@ == old(self).tcp_socks@,
            final(self).udp_socks@ == old(self).udp_socks@,
    {
        let mut out: Vec<NetBuffer> = Vec::new();
        core::mem::swap(&mut out, &mut self.ctx.out_frames);
        out
    }
}

/// Fire every timer that has expired by `now_ms`, dispatching each one's
/// action to the TCP engine.  Afterwards no expired timer is pending:
/// every fired one was removed and acted on, and everything armed while
/// firing (retransmit and response retries, TimeWait) expires in the
/// future.  A tick on which nothing has expired changes nothing.
pub fn timer_tick(stack: &mut NetStack, now_ms: u64)
    requires
        old(stack).wf(),
        now_ms + 0x10000 <= u64::MAX,
    ensures
        final(stack).wf(),
        final(stack).udp_socks@ == old(stack).udp_socks@,
        StackCtx::frames_extended(old(stack).ctx, final(stack).ctx),
        final(stack).tcp_socks@.len() == old(stack).tcp_socks@.len(),
        crate::timer::no_expired_timers(final(stack).ctx.timers.pending(), now_ms),
        old(stack).ctx.timers.pending().filter(
            |p: crate::timer::PendingTimer| p.deadline_ms <= now_ms,
        ).len() == 0 ==> {
            &&& final(stack).tcp_socks@ == old(stack).tcp_socks@
            &&& final(stack).ctx.out_frames@ == old(stack).ctx.out_frames@
            &&& final(stack).ctx.timers.pending() == old(stack).ctx.timers.pending()
            &&& final(stack).ctx.next_packet_id == old(stack).ctx.next_packet_id
        },
{
    let fired = crate::timer::take_expired(&mut stack.ctx.timers, now_ms);
    proof {
        crate::timer::lemma_filter_unexpired(old(stack).ctx.timers.pending(), now_ms);
        if old(stack).ctx.timers.pending().filter(
            |p: crate::timer::PendingTimer| p.deadline_ms <= now_ms,
        ).len() == 0 {
            crate::timer::lemma_filter_none_expired(old(stack).ctx.timers.pending(), now_ms);
        }
    }
    let n = fired.len();
    let mut i: usize = 0;
    while i < n
        invariant
            stack.wf(),
            n == fired@.len(),
            i <= n,
            now_ms + 0x10000 <= u64::MAX,
            stack.udp_socks@ == old(stack).udp_socks@,
            StackCtx::frames_extended(old(stack).ctx, stack.ctx),
            stack.tcp_socks@.len() == old(stack).tcp_socks@.len(),
            crate::timer::no_expired_timers(stack.ctx.timers.pending(), now_ms),
            old(stack).ctx.timers.pending().filter(
                |p: crate::timer::PendingTimer| p.deadline_ms <= now_ms,
            ).len() == 0 ==> {
                &&& stack.tcp_socks@ == old(stack).tcp_socks@
                &&& stack.ctx.out_frames@ == old(stack).ctx.out_frames@
                &&& stack.ctx.timers.pending() == old(stack).ctx.timers.pending()
                &&& stack.ctx.next_packet_id == old(stack).ctx.next_packet_id
                &&& n == 0
            },
        decreases n - i,
    {
        let timer = fired[i];
        match timer.action {
            crate::timer::TimerAction::TcpRetransmit { socket } => {
                if socket < stack.tcp_socks.len() {
                    crate::tcp::tcp_retransmit(stack, socket, now_ms);
                }
            },
            crate::timer::TimerAction::TcpDelayedAck { socket } => {
                if socket < stack.tcp_socks.len() {
                    crate::tcp::tcp_delayed_ack(stack, socket);
                }
            },
            crate::timer::TimerAction::TcpResponse { socket } => {
                if socket < stack.tcp_socks.len() {
                    crate::tcp::tcp_response_timeout(stack, socket, now_ms);
                }
            },
            crate::timer::TimerAction::TcpTimeWait { socket } => {
                if socket < stack.tcp_socks.len() {
                    crate::tcp::tcp_time_wait_timeout(stack, socket);
                }
            },
        }
        i = i + 1;
    }
}

} // verus!
