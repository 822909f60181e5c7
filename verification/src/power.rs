//! Actuator commands on their way to the motor drivers: each requested
//! command waits until its delivery time (request time plus latency), and
//! the latest command that has come due is the one applied.
use vstd::prelude::*;
use std::collections::VecDeque;

verus! {

/// How many commands may wait for delivery at once.
pub const QUEUE_CAPACITY: usize = 10000;

/// The number of leading entries of `q` that are due at time `t`.
pub open spec fn due_count<C>(q: Seq<(u64, C)>, t: u64) -> nat
    decreases q.len(),
{
    if q.len() == 0 || q[0].0 > t {
        0
    } else {
        1 + due_count(q.drop_first(), t)
    }
}

proof fn lemma_due_count_bound<C>(q: Seq<(u64, C)>, t: u64)
    ensures
        due_count(q, t) <= q.len(),
        forall|i: int| 0 <= i < due_count(q, t) ==> (#[trigger] q[i]).0 <= t,
        due_count(q, t) < q.len() ==> q[due_count(q, t) as int].0 > t,
    decreases q.len(),
{
    if q.len() > 0 && q[0].0 <= t {
        lemma_due_count_bound(q.drop_first(), t);
        assert forall|i: int| 0 <= i < due_count(q, t) implies (#[trigger] q[i]).0 <= t by {
            if i > 0 {
                assert(q[i] == q.drop_first()[i - 1]);
            }
        }
        if due_count(q, t) < q.len() {
            assert(q[due_count(q, t) as int] == q.drop_first()[due_count(q.drop_first(), t) as int]);
        }
    }
}

/// Commands waiting for delivery, each with the time at which it is due,
/// oldest first.
#[derive(Debug)]
pub struct CommandQueue<C> {
    pending: VecDeque<(u64, C)>,
}

impl<C> CommandQueue<C> {
    /// The waiting commands, oldest first.
    pub closed spec fn pending(&self) -> Seq<(u64, C)> {
        self.pending@
    }

    /// An empty queue.
    pub fn new() -> (q: Self)
        ensures
            q.pending().len() == 0,
    {
        CommandQueue { pending: VecDeque::new() }
    }

    /// Queues `command`, requested at `t_us`, for delivery `latency_us`
    /// later. Refused when the queue is full or the delivery time does not
    /// fit in 64 bits.
    pub fn request(&mut self, t_us: u64, latency_us: u64, command: C) -> (r: Result<(), String>)
        ensures
            old(self).pending().len() >= QUEUE_CAPACITY ==> (r matches Err(e) && e@
                == "actuator queue capacity exceeded"@) && final(self).pending() == old(self).pending(),
            old(self).pending().len() < QUEUE_CAPACITY && t_us + latency_us > u64::MAX ==> (r matches Err(
                e,
            ) && e@ == "command timestamp overflow"@) && final(self).pending() == old(self).pending(),
            old(self).pending().len() < QUEUE_CAPACITY && t_us + latency_us <= u64::MAX ==> r is Ok
                && final(self).pending() == old(self).pending().push(((t_us + latency_us) as u64, command)),
    {
        if self.pending.len() >= QUEUE_CAPACITY {
            return Err("actuator queue capacity exceeded".to_owned());
        }
        match t_us.checked_add(latency_us) {
            None => Err("command timestamp overflow".to_owned()),
            Some(due) => {
                self.pending.push_back((due, command));
                Ok(())
            },
        }
    }

    /// Delivers every leading command due at `t_us`: each replaces `applied`
    /// in turn, so the last of them stays applied.
    pub fn deliver(&mut self, t_us: u64, applied: &mut (u64, C))
        ensures
            ({
                let k = due_count(old(self).pending(), t_us);
                &&& final(self).pending() == old(self).pending().skip(k as int)
                &&& *final(applied) == if k > 0 {
                    old(self).pending()[k - 1]
                } else {
                    *old(applied)
                }
            }),
            final(self).pending().len() > 0 ==> final(self).pending()[0].0 > t_us,
    {
        let ghost q0 = self.pending@;
        proof {
            lemma_due_count_bound(q0, t_us);
            assert(q0.skip(0) =~= q0);
        }
        let ghost k0 = due_count(q0, t_us);
        let total = self.pending.len();
        let mut n: usize = 0;
        while self.pending.len() > 0 && self.pending[0].0 <= t_us
            invariant
                n <= k0,
                k0 == due_count(q0, t_us),
                k0 <= q0.len(),
                q0.len() == total,
                forall|i: int| 0 <= i < k0 ==> (#[trigger] q0[i]).0 <= t_us,
                k0 < q0.len() ==> q0[k0 as int].0 > t_us,
                self.pending@ == q0.skip(n as int),
                *applied == if n > 0 { q0[n - 1] } else { *old(applied) },
            decreases self.pending@.len(),
        {
            proof {
                if n < q0.len() {
                    assert(q0.skip(n as int)[0] == q0[n as int]);
                }
            }
            assert(n < k0);
            match self.pending.pop_front() {
                Some(entry) => {
                    *applied = entry;
                },
                None => {},
            }
            assert(q0.skip(n as int).subrange(1, q0.skip(n as int).len() as int) =~= q0.skip(n + 1));
            n = n + 1;
        }
        proof {
            if n < k0 {
                assert(q0.skip(n as int)[0] == q0[n as int]);
            }
        }
    }
}

impl<C> Default for CommandQueue<C> {
    fn default() -> (q: Self)
        ensures
            q.pending().len() == 0,
    {
        Self::new()
    }
}

/// The fault record of the powertrain: the first fault stops the run and
/// is never replaced, and each fault is logged with its time.
#[derive(Debug, Clone)]
pub struct FaultLog {
    events: Vec<(u64, String)>,
    fault: Option<String>,
}

impl FaultLog {
    /// The logged events, oldest first, as times and texts.
    pub closed spec fn logged(&self) -> Seq<(u64, Seq<char>)> {
        self.events@.map_values(|e: (u64, String)| (e.0, e.1@))
    }

    /// The fault, if any, as text.
    pub closed spec fn fault_text(&self) -> Option<Seq<char>> {
        match self.fault {
            Some(f) => Some(f@),
            None => None,
        }
    }

    /// A log without faults.
    pub fn new() -> (r: Self)
        ensures
            r.logged().len() == 0,
            r.fault_text() is None,
    {
        FaultLog { events: Vec::new(), fault: None }
    }

    /// Records a fault at `t_us`, unless a fault was already recorded.
    pub fn trip(&mut self, t_us: u64, reason: &str)
        ensures
            (final(self).fault_text(), final(self).logged()) == trip_step(
                old(self).fault_text(),
                old(self).logged(),
                t_us,
                reason@,
            ),
    {
        if self.fault.is_none() {
            let ghost before = self.logged();
            self.events.push((t_us, reason.to_owned()));
            self.fault = Some(reason.to_owned());
            assert(self.logged() =~= before.push((t_us, reason@)));
        }
    }

    /// The recorded fault, if any.
    pub fn fault(&self) -> (r: Option<&String>)
        ensures
            r is None <==> self.fault_text() is None,
            r matches Some(f) ==> self.fault_text() == Some(f@),
    {
        self.fault.as_ref()
    }

    /// The logged events, oldest first.
    pub fn events(&self) -> (r: &[(u64, String)])
        ensures
            r@.map_values(|e: (u64, String)| (e.0, e.1@)) == self.logged(),
    {
        self.events.as_slice()
    }
}

/// The fault and log after a trip at time `t` for `reason`.
pub open spec fn trip_step(
    fault: Option<Seq<char>>,
    log: Seq<(u64, Seq<char>)>,
    t: u64,
    reason: Seq<char>,
) -> (Option<Seq<char>>, Seq<(u64, Seq<char>)>) {
    if fault is None {
        (Some(reason), log.push((t, reason)))
    } else {
        (fault, log)
    }
}

/// The fault and log after a sequence of trips.
pub open spec fn trips(
    fault: Option<Seq<char>>,
    log: Seq<(u64, Seq<char>)>,
    ts: Seq<(u64, Seq<char>)>,
) -> (Option<Seq<char>>, Seq<(u64, Seq<char>)>)
    decreases ts.len(),
{
    if ts.len() == 0 {
        (fault, log)
    } else {
        let (f, l) = trip_step(fault, log, ts[0].0, ts[0].1);
        trips(f, l, ts.drop_first())
    }
}

/// A fault is sticky: whatever trips follow, the first fault stays the
/// fault and the log keeps exactly the one entry for it.
pub proof fn lemma_fault_is_sticky(fault: Option<Seq<char>>, log: Seq<(u64, Seq<char>)>, ts: Seq<(u64, Seq<char>)>)
    requires
        ts.len() > 0,
    ensures
        fault is Some ==> trips(fault, log, ts) == (fault, log),
        fault is None ==> trips(fault, log, ts) == (Some(ts[0].1), log.push(ts[0])),
    decreases ts.len(),
{
    let (f, l) = trip_step(fault, log, ts[0].0, ts[0].1);
    assert((ts[0].0, ts[0].1) == ts[0]);
    if ts.len() > 1 {
        lemma_fault_is_sticky(f, l, ts.drop_first());
    } else {
        assert(trips(f, l, ts.drop_first()) == (f, l));
    }
}

/// Delivery never reorders commands and never applies one before it is
/// due: what is applied is due, and what remains waiting is a suffix of
/// the queue whose first entry is not yet due.
pub proof fn lemma_delivery_respects_due_times<C>(q: Seq<(u64, C)>, t: u64)
    ensures
        due_count(q, t) <= q.len(),
        due_count(q, t) > 0 ==> q[due_count(q, t) - 1].0 <= t,
        q.skip(due_count(q, t) as int).len() > 0 ==> q.skip(due_count(q, t) as int)[0].0 > t,
{
    lemma_due_count_bound(q, t);
    if q.skip(due_count(q, t) as int).len() > 0 {
        assert(q.skip(due_count(q, t) as int)[0] == q[due_count(q, t) as int]);
    }
}

} // verus!
