//! One-shot timer list with cancellation.
//!
//! Timers are data, not callbacks: each pending timer carries a
//! `TimerAction` naming the work to do when it fires.  The driving shell
//! ticks the list with the current time, collects the expired actions
//! through the stack, and performs them; this keeps the list itself, and
//! every decision made from it, inside the verified library.

use vstd::prelude::*;

verus! {

/// What to do when a timer fires; each action names the TCP socket it
/// belongs to by its stack-wide index.
#[derive(Clone, Copy, Debug, PartialEq, Eq, Structural)]
pub enum TimerAction {
    /// Resend the head of the socket's retransmit queue.
    TcpRetransmit { socket: usize },
    /// Send the acknowledgement that was being delayed.
    TcpDelayedAck { socket: usize },
    /// Retry the socket's outstanding handshake or shutdown segment.
    TcpResponse { socket: usize },
    /// Finish the TimeWait state and release the socket's port binding.
    TcpTimeWait { socket: usize },
}

/// A pending one-shot timer.
#[derive(Clone, Copy, Debug, PartialEq, Eq, Structural)]
pub struct PendingTimer {
    /// Absolute expiry time, in milliseconds.
    pub deadline_ms: u64,
    /// Work to perform on expiry.
    pub action: TimerAction,
    /// Positive handle for cancellation; `-1` elsewhere means "no timer".
    pub id: i32,
}

/// The set of pending timers, in the order they were set.
pub struct TimerList {
    pending: Vec<PendingTimer>,
    next_id: i32,
}

/// Index of the first timer with the given id, or `-1` when none has it.
pub open spec fn find_timer_index(ps: Seq<PendingTimer>, id: i32) -> int
    decreases ps.len(),
{
    if ps.len() == 0 {
        -1
    } else if ps[0].id == id {
        0
    } else {
        let r = find_timer_index(ps.drop_first(), id);
        if r < 0 {
            -1
        } else {
            r + 1
        }
    }
}

pub proof fn lemma_find_timer_index(ps: Seq<PendingTimer>, id: i32)
    ensures
        find_timer_index(ps, id) < 0 ==> forall|j: int|
            0 <= j < ps.len() ==> (#[trigger] ps[j]).id != id,
        find_timer_index(ps, id) >= 0 ==> {
            &&& find_timer_index(ps, id) < ps.len()
            &&& ps[find_timer_index(ps, id)].id == id
            &&& forall|j: int| 0 <= j < find_timer_index(ps, id) ==> (#[trigger] ps[j]).id != id
        },
    decreases ps.len(),
{
    if ps.len() > 0 && ps[0].id != id {
        lemma_find_timer_index(ps.drop_first(), id);
        assert(forall|j: int|
            1 <= j < ps.len() ==> (#[trigger] ps[j]) == ps.drop_first()[j - 1]);
    }
}

impl TimerList {
    /// The pending timers, oldest first.
    pub closed spec fn pending(&self) -> Seq<PendingTimer> {
        self.pending@
    }

    pub closed spec fn wf(&self) -> bool {
        self.next_id >= 1
    }

    /// An empty timer list.
    pub fn new() -> (r: TimerList)
        ensures
            r.wf(),
            r.pending() == Seq::<PendingTimer>::empty(),
    {
        TimerList { pending: Vec::new(), next_id: 1 }
    }
}

/// Arm a one-shot timer that expires `timeout_ms` after `now_ms` and then
/// asks for `action`.  Returns the positive id that `cancel_timer` takes.
pub fn set_timer(
    timers: &mut TimerList,
    now_ms: u64,
    timeout_ms: u32,
    action: TimerAction,
) -> (id: i32)
    requires
        old(timers).wf(),
        now_ms + timeout_ms <= u64::MAX,
    ensures
        final(timers).wf(),
        id >= 1,
        final(timers).pending() == old(timers).pending().push(
            PendingTimer { deadline_ms: (now_ms + timeout_ms) as u64, action, id },
        ),
{
    let id = timers.next_id;
    timers.next_id = if timers.next_id == i32::MAX {
        1
    } else {
        timers.next_id + 1
    };
    timers.pending.push(PendingTimer { deadline_ms: now_ms + timeout_ms as u64, action, id });
    id
}

/// Cancel the pending timer with the given id.  Returns true when it was
/// still pending (and is now removed), false when it had already fired or
/// never existed.
pub fn cancel_timer(timers: &mut TimerList, timer_id: i32) -> (r: bool)
    requires
        old(timers).wf(),
    ensures
        final(timers).wf(),
        ({
            let ps = old(timers).pending();
            let ix = find_timer_index(ps, timer_id);
            if ix < 0 {
                r == false && final(timers).pending() == ps
            } else {
                r == true && final(timers).pending() == ps.remove(ix)
            }
        }),
{
    let ghost ps = timers.pending@;
    proof {
        lemma_find_timer_index(ps, timer_id);
    }
    let mut i: usize = 0;
    while i < timers.pending.len()
        invariant
            timers.pending@ == ps,
            ps == old(timers).pending(),
            timers.wf(),
            i <= ps.len(),
            forall|j: int| 0 <= j < i ==> (#[trigger] ps[j]).id != timer_id,
        decreases ps.len() - i,
    {
        if timers.pending[i].id == timer_id {
            timers.pending.remove(i);
            proof {
                lemma_find_timer_index(ps, timer_id);
                let ix = find_timer_index(ps, timer_id);
                if ix < 0 {
                    assert(ps[i as int].id != timer_id);
                } else if ix < i as int {
                    assert(ps[ix].id != timer_id);
                } else if ix > i as int {
                    assert(ps[i as int].id != timer_id);
                }
                assert(ix == i as int);
            }
            return true;
        }
        i = i + 1;
    }
    false
}

/// No pending timer has expired: every deadline is after `now_ms`.
pub open spec fn no_expired_timers(pending: Seq<PendingTimer>, now_ms: u64) -> bool {
    forall|j: int| 0 <= j < pending.len() ==> (#[trigger] pending[j]).deadline_ms > now_ms
}

/// Filtering on a predicate keeps only elements that satisfy it.
pub proof fn lemma_filter_unexpired(s: Seq<PendingTimer>, now_ms: u64)
    ensures
        no_expired_timers(s.filter(|p: PendingTimer| p.deadline_ms > now_ms), now_ms),
    decreases s.len(),
{
    reveal_with_fuel(Seq::filter, 2);
    if s.len() > 0 {
        lemma_filter_unexpired(s.drop_last(), now_ms);
        assert(s.filter(|p: PendingTimer| p.deadline_ms > now_ms) == if s.last().deadline_ms
            > now_ms {
            s.drop_last().filter(|p: PendingTimer| p.deadline_ms > now_ms).push(s.last())
        } else {
            s.drop_last().filter(|p: PendingTimer| p.deadline_ms > now_ms)
        });
    }
}

/// When no timer has expired, the unexpired filter keeps everything.
pub proof fn lemma_filter_none_expired(s: Seq<PendingTimer>, now_ms: u64)
    requires
        s.filter(|p: PendingTimer| p.deadline_ms <= now_ms).len() == 0,
    ensures
        s.filter(|p: PendingTimer| p.deadline_ms > now_ms) == s,
    decreases s.len(),
{
    reveal_with_fuel(Seq::filter, 2);
    if s.len() > 0 {
        assert(s.filter(|p: PendingTimer| p.deadline_ms <= now_ms) == if s.last().deadline_ms
            <= now_ms {
            s.drop_last().filter(|p: PendingTimer| p.deadline_ms <= now_ms).push(s.last())
        } else {
            s.drop_last().filter(|p: PendingTimer| p.deadline_ms <= now_ms)
        });
        lemma_filter_none_expired(s.drop_last(), now_ms);
        assert(s.filter(|p: PendingTimer| p.deadline_ms > now_ms) == s.drop_last().filter(
            |p: PendingTimer| p.deadline_ms > now_ms,
        ).push(s.last()));
        assert(s.drop_last().push(s.last()) =~= s);
    }
}

/// Removing an element keeps the rest unexpired.
pub proof fn lemma_no_expired_remove(s: Seq<PendingTimer>, ix: int, now_ms: u64)
    requires
        no_expired_timers(s, now_ms),
        0 <= ix < s.len(),
    ensures
        no_expired_timers(s.remove(ix), now_ms),
{
    s.remove_ensures(ix);
    assert forall|j: int| 0 <= j < s.remove(ix).len() implies (#[trigger] s.remove(
        ix,
    )[j]).deadline_ms > now_ms by {
        if j < ix {
            assert(s.remove(ix)[j] == s[j]);
        } else {
            assert(s.remove(ix)[j] == s[j + 1]);
        }
    }
}

/// Remove and return every timer whose deadline is at or before `now_ms`,
/// oldest first; later timers stay pending in order.
pub fn take_expired(timers: &mut TimerList, now_ms: u64) -> (fired: Vec<PendingTimer>)
    requires
        old(timers).wf(),
    ensures
        final(timers).wf(),
        final(timers).pending() == old(timers).pending().filter(
            |p: PendingTimer| p.deadline_ms > now_ms,
        ),
        fired@ == old(timers).pending().filter(|p: PendingTimer| p.deadline_ms <= now_ms),
{
    let ghost ps = timers.pending@;
    let mut kept: Vec<PendingTimer> = Vec::new();
    let mut fired: Vec<PendingTimer> = Vec::new();
    let mut i: usize = 0;
    proof {
        assert(ps.take(0) =~= Seq::<PendingTimer>::empty());
        reveal_with_fuel(Seq::filter, 1);
    }
    while i < timers.pending.len()
        invariant
            timers.pending@ == ps,
            timers.wf(),
            i <= ps.len(),
            kept@ == ps.take(i as int).filter(|p: PendingTimer| p.deadline_ms > now_ms),
            fired@ == ps.take(i as int).filter(|p: PendingTimer| p.deadline_ms <= now_ms),
        decreases ps.len() - i,
    {
        let p = timers.pending[i];
        proof {
            assert(ps.take(i as int + 1).drop_last() =~= ps.take(i as int));
            assert(ps.take(i as int + 1).last() == ps[i as int]);
            reveal_with_fuel(Seq::filter, 2);
        }
        if p.deadline_ms <= now_ms {
            fired.push(p);
        } else {
            kept.push(p);
        }
        i = i + 1;
    }
    proof {
        assert(ps.take(ps.len() as int) =~= ps);
    }
    timers.pending = kept;
    fired
}

} // verus!
