use vstd::prelude::*;
use std::collections::VecDeque;
use crate::kernel::process::{ProcessTable, ProcessState, ProcessView, with_state};

verus! {

/// Round-robin scheduler state.
pub struct Scheduler {
    pub ready_queue: VecDeque<u32>,
    pub blocked: Vec<u32>,
    pub current: Option<u32>,
    pub time_quantum: u32,
    pub tick: u64,
    pub current_quantum: u32,
}

/// Abstract value of the scheduler.
#[verifier::ext_equal]
pub struct SchedulerView {
    pub ready: Seq<u32>,
    pub blocked: Seq<u32>,
    pub current: Option<u32>,
    pub time_quantum: u32,
    pub tick: u64,
    pub current_quantum: u32,
}

/// `s` without any occurrence of `x`, order kept.
pub open spec fn without(s: Seq<u32>, x: u32) -> Seq<u32>
    decreases s.len(),
{
    if s.len() == 0 {
        s
    } else {
        let r = without(s.drop_last(), x);
        if s.last() == x {
            r
        } else {
            r.push(s.last())
        }
    }
}

/// `without` removes exactly the occurrences of `x`.
pub proof fn lemma_without(s: Seq<u32>, x: u32)
    ensures
        !without(s, x).contains(x),
        forall|y: u32| y != x ==> (without(s, x).contains(y) <==> s.contains(y)),
    decreases s.len(),
{
    if s.len() > 0 {
        lemma_without(s.drop_last(), x);
        let r = without(s.drop_last(), x);
        assert forall|y: u32| y != x implies (without(s, x).contains(y) <==> s.contains(y)) by {
            if s.contains(y) {
                let i = choose|i: int| 0 <= i < s.len() && s[i] == y;
                if i < s.len() - 1 {
                    assert(s.drop_last()[i] == y);
                    assert(s.drop_last().contains(y));
                    assert(r.contains(y));
                    let k = choose|k: int| 0 <= k < r.len() && r[k] == y;
                    assert(without(s, x)[k] == y);
                } else {
                    assert(without(s, x).last() == y);
                }
            }
            if without(s, x).contains(y) {
                let i = choose|i: int| 0 <= i < without(s, x).len() && without(s, x)[i] == y;
                if s.last() != x && i == r.len() {
                } else {
                    assert(r[i] == y);
                    assert(r.contains(y));
                    assert(s.drop_last().contains(y));
                    let j = choose|j: int| 0 <= j < s.drop_last().len() && s.drop_last()[j] == y;
                    assert(s[j] == y);
                }
            }
        }
        if without(s, x).contains(x) {
            let i = choose|i: int| 0 <= i < without(s, x).len() && without(s, x)[i] == x;
            if s.last() != x && i == r.len() {
            } else {
                assert(r[i] == x);
            }
        }
    }
}

/// The running process's share of a tick: it is charged a tick of CPU time, and, once its
/// quantum is used up, it goes back (if still running) to the end of the ready queue.
pub open spec fn charge_current(s: SchedulerView, m: Map<u32, ProcessView>) -> (SchedulerView, Map<u32, ProcessView>) {
    match s.current {
        None => (s, m),
        Some(pid) => {
            let running = m.contains_key(pid) && m[pid].state == ProcessState::Running;
            let m1 = if running { m.insert(pid, ProcessView { cpu_time: (m[pid].cpu_time + 1) as u64, ..m[pid] }) } else { m };
            let q = (s.current_quantum + 1) as u32;
            if q >= s.time_quantum {
                (
                    SchedulerView {
                        ready: if running { s.ready.push(pid) } else { s.ready },
                        current: None,
                        current_quantum: 0,
                        ..s
                    },
                    if running { with_state(m1, pid, ProcessState::Ready) } else { m1 },
                )
            } else {
                (SchedulerView { current_quantum: q, ..s }, m1)
            }
        },
    }
}

/// With no process running, the head of the ready queue (if any) is made to run.
pub open spec fn pick_next(s: SchedulerView, m: Map<u32, ProcessView>) -> (SchedulerView, Map<u32, ProcessView>) {
    if s.current is None && s.ready.len() > 0 {
        let next = s.ready[0];
        (
            SchedulerView { ready: s.ready.drop_first(), current: Some(next), current_quantum: 0, ..s },
            with_state(m, next, ProcessState::Running),
        )
    } else {
        (s, m)
    }
}

/// One clock tick of the scheduler.
pub open spec fn tick_spec(s: SchedulerView, m: Map<u32, ProcessView>) -> (SchedulerView, Map<u32, ProcessView>) {
    let s0 = SchedulerView { tick: (s.tick + 1) as u64, ..s };
    let (s1, m1) = charge_current(s0, m);
    pick_next(s1, m1)
}

/// The counters that one tick increments do not overflow.
pub open spec fn tick_in_range(s: SchedulerView, m: Map<u32, ProcessView>) -> bool {
    &&& s.tick < u64::MAX
    &&& s.current matches Some(pid) ==> {
        &&& s.current_quantum < u32::MAX
        &&& m.contains_key(pid) ==> m[pid].cpu_time < u64::MAX
    }
}

impl Scheduler {
    pub open spec fn view(&self) -> SchedulerView {
        SchedulerView {
            ready: self.ready_queue@,
            blocked: self.blocked@,
            current: self.current,
            time_quantum: self.time_quantum,
            tick: self.tick,
            current_quantum: self.current_quantum,
        }
    }

    /// An idle scheduler with the given time quantum.
    pub fn new(time_quantum: u32) -> (s: Self)
        ensures
            s@ == (SchedulerView {
                ready: Seq::empty(),
                blocked: Seq::empty(),
                current: None,
                time_quantum,
                tick: 0,
                current_quantum: 0,
            }),
    {
        Scheduler {
            ready_queue: VecDeque::new(),
            blocked: Vec::new(),
            current: None,
            time_quantum,
            tick: 0,
            current_quantum: 0,
        }
    }

    /// Advances the scheduler by one tick: charges the running process, preempts it when its
    /// quantum is used up, and dispatches the head of the ready queue when the CPU is idle.
    pub fn tick(&mut self, proc_table: &mut ProcessTable)
        requires
            tick_in_range(old(self)@, old(proc_table)@),
        ensures
            (final(self)@, final(proc_table)@) == tick_spec(old(self)@, old(proc_table)@),
            final(proc_table).next_pid() == old(proc_table).next_pid(),
            old(proc_table).wf() ==> final(proc_table).wf(),
    {
        self.tick = self.tick + 1;
        let ghost s0 = self@;
        let ghost m0 = proc_table@;
        if let Some(pid) = self.current {
            let mut running = false;
            if let Some(p) = proc_table.get_mut(pid) {
                if p.state == ProcessState::Running {
                    p.cpu_time = p.cpu_time + 1;
                    running = true;
                }
            }
            proof {
                assert(running == (m0.contains_key(pid) && m0[pid].state == ProcessState::Running));
                if running {
                    assert(proc_table@ =~= m0.insert(pid, ProcessView { cpu_time: (m0[pid].cpu_time + 1) as u64, ..m0[pid] }));
                } else {
                    assert(proc_table@ =~= m0);
                }
            }
            self.current_quantum = self.current_quantum + 1;
            if self.current_quantum >= self.time_quantum {
                if let Some(p) = proc_table.get_mut(pid) {
                    if p.state == ProcessState::Running {
                        p.state = ProcessState::Ready;
                        self.ready_queue.push_back(pid);
                    }
                }
                self.current = None;
                self.current_quantum = 0;
            }
            proof {
                let (s1, m1) = charge_current(s0, m0);
                assert(self@ =~= s1);
                assert(proc_table@ =~= m1);
            }
        }
        let ghost s1 = self@;
        let ghost m1 = proc_table@;
        if self.current.is_none() {
            if let Some(next_pid) = self.ready_queue.pop_front() {
                self.current = Some(next_pid);
                self.current_quantum = 0;
                proc_table.set_state(next_pid, ProcessState::Running);
            }
        }
        proof {
            let (s2, m2) = pick_next(s1, m1);
            assert(self@ =~= s2);
            assert(proc_table@ =~= m2);
        }
    }

    /// Appends `pid` to the ready queue.
    pub fn add_process(&mut self, pid: u32)
        ensures
            final(self)@ == (SchedulerView { ready: old(self)@.ready.push(pid), ..old(self)@ }),
    {
        self.ready_queue.push_back(pid);
    }

    /// Removes every occurrence of `pid` from the ready queue.
    fn remove_ready(&mut self, pid: u32)
        ensures
            final(self)@ == (SchedulerView { ready: without(old(self)@.ready, pid), ..old(self)@ }),
    {
        let mut q: VecDeque<u32> = VecDeque::new();
        let mut i: usize = 0;
        while i < self.ready_queue.len()
            invariant
                i <= self.ready_queue@.len(),
                self@ == old(self)@,
                q@ == without(self.ready_queue@.take(i as int), pid),
            decreases self.ready_queue@.len() - i,
        {
            let x = self.ready_queue[i];
            proof {
                assert(self.ready_queue@.take(i + 1).drop_last() =~= self.ready_queue@.take(i as int));
            }
            if x != pid {
                q.push_back(x);
            }
            i = i + 1;
        }
        proof {
            assert(self.ready_queue@.take(self.ready_queue@.len() as int) =~= self.ready_queue@);
        }
        self.ready_queue = q;
    }

    /// Removes every occurrence of `pid` from the blocked list.
    fn remove_blocked(&mut self, pid: u32)
        ensures
            final(self)@ == (SchedulerView { blocked: without(old(self)@.blocked, pid), ..old(self)@ }),
    {
        let b = vec_without(&self.blocked, pid);
        self.blocked = b;
    }

    /// Blocks `pid`: it stops running (or leaves the ready queue), joins the blocked list,
    /// and its state becomes `Blocked`.
    pub fn block_process(&mut self, pid: u32, proc_table: &mut ProcessTable)
        ensures
            final(self)@ == (if old(self)@.current == Some(pid) {
                SchedulerView { current: None, current_quantum: 0, blocked: old(self)@.blocked.push(pid), ..old(self)@ }
            } else {
                SchedulerView { ready: without(old(self)@.ready, pid), blocked: old(self)@.blocked.push(pid), ..old(self)@ }
            }),
            final(proc_table)@ == with_state(old(proc_table)@, pid, ProcessState::Blocked),
            final(proc_table).next_pid() == old(proc_table).next_pid(),
            old(proc_table).wf() ==> final(proc_table).wf(),
    {
        if self.current == Some(pid) {
            self.current = None;
            self.current_quantum = 0;
        } else {
            self.remove_ready(pid);
        }
        self.blocked.push(pid);
        proc_table.set_state(pid, ProcessState::Blocked);
    }

    /// Unblocks `pid`: it leaves the blocked list, joins the ready queue, and becomes `Ready`.
    pub fn unblock_process(&mut self, pid: u32, proc_table: &mut ProcessTable)
        ensures
            final(self)@ == (SchedulerView {
                blocked: without(old(self)@.blocked, pid),
                ready: old(self)@.ready.push(pid),
                ..old(self)@
            }),
            final(proc_table)@ == with_state(old(proc_table)@, pid, ProcessState::Ready),
            final(proc_table).next_pid() == old(proc_table).next_pid(),
            old(proc_table).wf() ==> final(proc_table).wf(),
    {
        self.remove_blocked(pid);
        self.ready_queue.push_back(pid);
        proc_table.set_state(pid, ProcessState::Ready);
    }

    /// Terminates `pid`: it stops running, leaves the ready queue and the blocked list,
    /// and its state becomes `Terminated`.
    pub fn kill_process(&mut self, pid: u32, proc_table: &mut ProcessTable)
        ensures
            final(self)@ == kill_spec(old(self)@, pid),
            final(proc_table)@ == with_state(old(proc_table)@, pid, ProcessState::Terminated),
            final(proc_table).next_pid() == old(proc_table).next_pid(),
            old(proc_table).wf() ==> final(proc_table).wf(),
            final(self).current != Some(pid),
            !final(self)@.ready.contains(pid),
            !final(self)@.blocked.contains(pid),
    {
        if self.current == Some(pid) {
            self.current = None;
            self.current_quantum = 0;
        }
        self.remove_ready(pid);
        self.remove_blocked(pid);
        proc_table.set_state(pid, ProcessState::Terminated);
        proof {
            lemma_without(old(self)@.ready, pid);
            lemma_without(old(self)@.blocked, pid);
        }
    }
}

/// The scheduler after terminating `pid`.
pub open spec fn kill_spec(s: SchedulerView, pid: u32) -> SchedulerView {
    let s1 = if s.current == Some(pid) { SchedulerView { current: None, current_quantum: 0, ..s } } else { s };
    SchedulerView { ready: without(s1.ready, pid), blocked: without(s1.blocked, pid), ..s1 }
}

/// A copy of `v` without any occurrence of `x`, order kept.
pub fn vec_without(v: &Vec<u32>, x: u32) -> (r: Vec<u32>)
    ensures
        r@ == without(v@, x),
{
    let mut r: Vec<u32> = Vec::new();
    let mut i: usize = 0;
    while i < v.len()
        invariant
            i <= v@.len(),
            r@ == without(v@.take(i as int), x),
        decreases v@.len() - i,
    {
        proof {
            assert(v@.take(i + 1).drop_last() =~= v@.take(i as int));
        }
        if v[i] != x {
            r.push(v[i]);
        }
        i = i + 1;
    }
    proof {
        assert(v@.take(v@.len() as int) =~= v@);
    }
    r
}

/// A tick keeps the current process running: when the current process (if it is in the
/// table) is in state `Running` before a tick, then after it the current process (if any and
/// in the table) is `Running`; in particular a process dispatched onto an idle CPU is
/// `Running`. A current process that keeps the CPU through the tick is charged one tick of
/// CPU time and stays current unless its quantum is used up.
pub proof fn law_tick_runs_current(s: SchedulerView, m: Map<u32, ProcessView>)
    requires
        tick_in_range(s, m),
        forall|c: u32| s.current == Some(c) && m.contains_key(c) ==> m[c].state == ProcessState::Running,
    ensures
        ({
            let (s2, m2) = tick_spec(s, m);
            &&& forall|c: u32| s2.current == Some(c) && m2.contains_key(c) ==> m2[c].state == ProcessState::Running
            &&& forall|c: u32| s.current == Some(c) && m.contains_key(c) ==> {
                &&& m2.contains_key(c)
                &&& m2[c].cpu_time == m[c].cpu_time + 1
            }
            &&& s.current is None && s.ready.len() > 0 ==> s2.current == Some(s.ready[0])
            &&& forall|c: u32| s.current == Some(c) && s.current_quantum + 1 < s.time_quantum ==> s2.current == Some(c)
        }),
{
}

} // verus!
