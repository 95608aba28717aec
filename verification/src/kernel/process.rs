use vstd::prelude::*;
use std::collections::HashMap;
use std::collections::VecDeque;

verus! {

broadcast use vstd::std_specs::hash::group_hash_axioms;

/// Lifecycle state of a process.
#[derive(Clone, Copy, Debug, PartialEq, Eq, Structural)]
pub enum ProcessState {
    New,
    Ready,
    Running,
    Blocked,
    Terminated,
}

/// Number of states a process remembers in its history.
pub const HISTORY_LEN: usize = 40;

impl ProcessState {
    /// The display name of a state.
    pub open spec fn label_spec(self) -> Seq<char> {
        match self {
            ProcessState::New => "New"@,
            ProcessState::Ready => "Ready"@,
            ProcessState::Running => "Running"@,
            ProcessState::Blocked => "Blocked"@,
            ProcessState::Terminated => "Terminated"@,
        }
    }

    /// The display name of this state, as printed in process listings.
    pub fn label(&self) -> (s: String)
        ensures
            s@ == self.label_spec(),
    {
        match self {
            ProcessState::New => String::from_str("New"),
            ProcessState::Ready => String::from_str("Ready"),
            ProcessState::Running => String::from_str("Running"),
            ProcessState::Blocked => String::from_str("Blocked"),
            ProcessState::Terminated => String::from_str("Terminated"),
        }
    }
}

/// Process control block.
#[derive(Clone, Debug)]
pub struct Process {
    pub pid: u32,
    pub name: String,
    pub state: ProcessState,
    pub priority: u8,
    pub cpu_time: u64,
    pub memory_pages: Vec<u32>,
    pub created_at: u64,
    pub state_history: VecDeque<ProcessState>,
}

/// Abstract value of a process control block.
#[verifier::ext_equal]
pub struct ProcessView {
    pub pid: u32,
    pub name: Seq<char>,
    pub state: ProcessState,
    pub priority: u8,
    pub cpu_time: u64,
    pub memory_pages: Seq<u32>,
    pub created_at: u64,
    pub state_history: Seq<ProcessState>,
}

/// The history after recording `s`: appended, keeping at most the last `HISTORY_LEN` entries.
pub open spec fn record_history(h: Seq<ProcessState>, s: ProcessState) -> Seq<ProcessState> {
    if h.len() + 1 > HISTORY_LEN {
        h.push(s).drop_first()
    } else {
        h.push(s)
    }
}

/// The process `p` with its current state recorded in its history.
pub open spec fn record_view(p: ProcessView) -> ProcessView {
    ProcessView { state_history: record_history(p.state_history, p.state), ..p }
}

/// A freshly created process control block, created at tick `created_at`.
pub open spec fn fresh_process(pid: u32, name: Seq<char>, priority: u8, created_at: u64) -> ProcessView {
    ProcessView {
        pid,
        name,
        state: ProcessState::New,
        priority,
        cpu_time: 0,
        memory_pages: Seq::empty(),
        created_at,
        state_history: seq![ProcessState::New],
    }
}

/// `m` with the state of `pid` set to `st`, if `pid` is present.
pub open spec fn with_state(m: Map<u32, ProcessView>, pid: u32, st: ProcessState) -> Map<u32, ProcessView> {
    if m.contains_key(pid) {
        m.insert(pid, ProcessView { state: st, ..m[pid] })
    } else {
        m
    }
}

/// The processes of `m` with a pid below `n`, in increasing pid order.
pub open spec fn listed_below(m: Map<u32, ProcessView>, n: nat) -> Seq<ProcessView>
    decreases n,
{
    if n == 0 {
        Seq::empty()
    } else {
        let rest = listed_below(m, (n - 1) as nat);
        if m.contains_key((n - 1) as u32) {
            rest.push(m[(n - 1) as u32])
        } else {
            rest
        }
    }
}

impl Process {
    pub open spec fn view(&self) -> ProcessView {
        ProcessView {
            pid: self.pid,
            name: self.name@,
            state: self.state,
            priority: self.priority,
            cpu_time: self.cpu_time,
            memory_pages: self.memory_pages@,
            created_at: self.created_at,
            state_history: self.state_history@,
        }
    }

    /// Appends the current state to the history, dropping the oldest entry
    /// once more than `HISTORY_LEN` are kept.
    pub fn record_state(&mut self)
        ensures
            final(self)@ == record_view(old(self)@),
            old(self)@.state_history.len() <= HISTORY_LEN ==> final(self)@.state_history.len() <= HISTORY_LEN,
            final(self)@.state_history.last() == old(self)@.state,
    {
        self.state_history.push_back(self.state);
        if self.state_history.len() > HISTORY_LEN {
            self.state_history.pop_front();
        }
    }

    /// A copy of this control block with the same abstract value.
    pub fn duplicate(&self) -> (r: Process)
        ensures
            r@ == self@,
    {
        let mut pages: Vec<u32> = Vec::new();
        let mut i: usize = 0;
        while i < self.memory_pages.len()
            invariant
                i <= self.memory_pages@.len(),
                pages@ == self.memory_pages@.take(i as int),
            decreases self.memory_pages@.len() - i,
        {
            pages.push(self.memory_pages[i]);
            proof {
                assert(self.memory_pages@.take(i + 1) =~= self.memory_pages@.take(i as int).push(self.memory_pages@[i as int]));
            }
            i = i + 1;
        }
        let mut hist: VecDeque<ProcessState> = VecDeque::new();
        let mut j: usize = 0;
        while j < self.state_history.len()
            invariant
                j <= self.state_history@.len(),
                hist@ == self.state_history@.take(j as int),
            decreases self.state_history@.len() - j,
        {
            hist.push_back(self.state_history[j]);
            proof {
                assert(self.state_history@.take(j + 1) =~= self.state_history@.take(j as int).push(self.state_history@[j as int]));
            }
            j = j + 1;
        }
        proof {
            assert(pages@ =~= self.memory_pages@);
            assert(hist@ =~= self.state_history@);
        }
        Process {
            pid: self.pid,
            name: self.name.clone(),
            state: self.state,
            priority: self.priority,
            cpu_time: self.cpu_time,
            memory_pages: pages,
            created_at: self.created_at,
            state_history: hist,
        }
    }
}

/// All processes, keyed by pid.
pub struct ProcessTable {
    pub processes: HashMap<u32, Process>,
    next_pid: u32,
}

impl ProcessTable {
    /// The processes as a map from pid to their abstract value.
    pub closed spec fn view(&self) -> Map<u32, ProcessView> {
        self.processes@.map_values(|p: Process| p@)
    }

    /// The pid the next created process receives.
    pub closed spec fn next_pid(&self) -> u32 {
        self.next_pid
    }

    /// The pid that the next created process receives.
    pub fn upcoming_pid(&self) -> (pid: u32)
        ensures
            pid == self.next_pid(),
    {
        self.next_pid
    }

    /// Every entry is stored under its own pid, and every pid is below the next one to hand out.
    pub open spec fn wf(&self) -> bool {
        forall|k: u32| #[trigger] self@.contains_key(k) ==> k < self.next_pid() && self@[k].pid == k
    }

    /// An empty table; the first process created gets pid 0.
    pub fn new() -> (t: Self)
        ensures
            t@ == Map::<u32, ProcessView>::empty(),
            t.next_pid() == 0,
            t.wf(),
    {
        let t = ProcessTable { processes: HashMap::new(), next_pid: 0 };
        proof {
            assert(t@ =~= Map::<u32, ProcessView>::empty());
        }
        t
    }

    /// Creates a process in state `New` with the next pid, and returns that pid; its
    /// creation time is left at 0 (see `create_at`).
    pub fn create(&mut self, name: &str, priority: u8) -> (pid: u32)
        requires
            old(self).next_pid() < u32::MAX,
        ensures
            pid == old(self).next_pid(),
            final(self).next_pid() == pid + 1,
            final(self)@ == old(self)@.insert(pid, fresh_process(pid, name@, priority, 0)),
            old(self).wf() ==> final(self).wf(),
            old(self).wf() ==> !old(self)@.contains_key(pid),
            old(self).wf() ==> forall|k: u32| #[trigger] old(self)@.contains_key(k) ==> k < pid,
    {
        self.create_at(name, priority, 0)
    }

    /// Creates a process in state `New` with the next pid, created at tick `created_at`, and
    /// returns that pid.
    pub fn create_at(&mut self, name: &str, priority: u8, created_at: u64) -> (pid: u32)
        requires
            old(self).next_pid() < u32::MAX,
        ensures
            pid == old(self).next_pid(),
            final(self).next_pid() == pid + 1,
            final(self)@ == old(self)@.insert(pid, fresh_process(pid, name@, priority, created_at)),
            old(self).wf() ==> final(self).wf(),
            old(self).wf() ==> !old(self)@.contains_key(pid),
            old(self).wf() ==> forall|k: u32| #[trigger] old(self)@.contains_key(k) ==> k < pid,
    {
        let pid = self.next_pid;
        self.next_pid = self.next_pid + 1;
        let mut state_history: VecDeque<ProcessState> = VecDeque::new();
        state_history.push_back(ProcessState::New);
        let p = Process {
            pid,
            name: name.to_owned(),
            state: ProcessState::New,
            priority,
            cpu_time: 0,
            memory_pages: Vec::new(),
            created_at,
            state_history,
        };
        proof {
            assert(p@ =~= fresh_process(pid, name@, priority, created_at));
        }
        self.processes.insert(pid, p);
        proof {
            assert(self@ =~= old(self)@.insert(pid, fresh_process(pid, name@, priority, created_at)));
        }
        pid
    }

    /// The process with pid `pid`, if any.
    pub fn get(&self, pid: u32) -> (r: Option<&Process>)
        ensures
            match r {
                Some(p) => self@.contains_key(pid) && p@ == self@[pid],
                None => !self@.contains_key(pid),
            },
    {
        self.processes.get(&pid)
    }

    /// Sets the state of process `pid`; nothing happens if there is none.
    pub fn set_state(&mut self, pid: u32, state: ProcessState)
        ensures
            final(self)@ == with_state(old(self)@, pid, state),
            final(self).next_pid() == old(self).next_pid(),
            old(self).wf() ==> final(self).wf(),
    {
        if let Some(mut p) = self.processes.remove(&pid) {
            p.state = state;
            self.processes.insert(pid, p);
            proof {
                assert(self@ =~= with_state(old(self)@, pid, state));
            }
        } else {
            proof {
                assert(self@ =~= old(self)@);
            }
        }
    }

    /// Removes process `pid` from the table.
    pub fn remove(&mut self, pid: u32)
        ensures
            final(self)@ == old(self)@.remove(pid),
            final(self).next_pid() == old(self).next_pid(),
            old(self).wf() ==> final(self).wf(),
    {
        self.processes.remove(&pid);
        proof {
            assert(self@ =~= old(self)@.remove(pid));
        }
    }

    /// The process with pid `pid`, mutably; the table afterwards holds what the caller leaves in it.
    pub fn get_mut(&mut self, pid: u32) -> (r: Option<&mut Process>)
        ensures
            final(self).next_pid() == old(self).next_pid(),
            match r {
                Some(p) => {
                    &&& old(self)@.contains_key(pid)
                    &&& (*p)@ == old(self)@[pid]
                    &&& final(self)@ == old(self)@.insert(pid, (*final(p))@)
                },
                None => !old(self)@.contains_key(pid) && final(self)@ == old(self)@,
            },
    {
        let r = entry_mut(&mut self.processes, pid);
        r
    }

    /// Records the current state of every process into its history.
    pub fn record_all_states(&mut self)
        requires
            old(self).wf(),
        ensures
            final(self)@ == old(self)@.map_values(|p: ProcessView| record_view(p)),
            final(self).next_pid() == old(self).next_pid(),
            final(self).wf(),
    {
        let n = self.next_pid;
        let mut k: u32 = 0;
        while k < n
            invariant
                k <= n,
                n == self.next_pid(),
                n == old(self).next_pid(),
                self@.dom() == old(self)@.dom(),
                forall|j: u32| #[trigger] self@.contains_key(j) && j < k ==> self@[j] == record_view(old(self)@[j]),
                forall|j: u32| #[trigger] self@.contains_key(j) && j >= k ==> self@[j] == old(self)@[j],
                self.wf(),
            decreases n - k,
        {
            let ghost prev = self@;
            if let Some(mut p) = self.processes.remove(&k) {
                p.record_state();
                self.processes.insert(k, p);
                proof {
                    assert(self@ =~= prev.insert(k, record_view(prev[k])));
                }
            } else {
                proof {
                    assert(self@ =~= prev);
                }
            }
            k = k + 1;
        }
        proof {
            assert(self@ =~= old(self)@.map_values(|p: ProcessView| record_view(p)));
        }
    }

    /// All processes, ordered by pid.
    pub fn list(&self) -> (r: Vec<Process>)
        requires
            self.wf(),
        ensures
            views(r@) == listed_below(self@, self.next_pid() as nat),
            forall|i: int, j: int| 0 <= i < j < r@.len() ==> r@[i].pid < r@[j].pid,
            forall|k: u32| #[trigger] self@.contains_key(k) ==> exists|i: int| 0 <= i < r@.len() && r@[i]@ == self@[k],
            forall|i: int| 0 <= i < r@.len() ==> self@.contains_key(#[trigger] r@[i].pid) && r@[i]@ == self@[r@[i].pid],
    {
        let n = self.next_pid;
        let mut out: Vec<Process> = Vec::new();
        let mut k: u32 = 0;
        while k < n
            invariant
                k <= n,
                n == self.next_pid(),
                self.wf(),
                views(out@) == listed_below(self@, k as nat),
                forall|i: int| 0 <= i < out@.len() ==> self@.contains_key(#[trigger] out@[i].pid) && out@[i]@ == self@[out@[i].pid] && out@[i].pid < k,
                forall|i: int, j: int| 0 <= i < j < out@.len() ==> out@[i].pid < out@[j].pid,
                forall|q: u32| #[trigger] self@.contains_key(q) && q < k ==> exists|i: int| 0 <= i < out@.len() && out@[i]@ == self@[q],
            decreases n - k,
        {
            if let Some(p) = self.processes.get(&k) {
                let c = p.duplicate();
                let ghost prev = out@;
                out.push(c);
                proof {
                    assert(views(out@) =~= views(prev).push(c@));
                    assert(out@[out@.len() - 1]@ == self@[k]);
                    assert forall|q: u32| #[trigger] self@.contains_key(q) && q < k + 1 implies exists|i: int| 0 <= i < out@.len() && out@[i]@ == self@[q] by {
                        if q < k {
                            let i = choose|i: int| 0 <= i < prev.len() && prev[i]@ == self@[q];
                            assert(out@[i] == prev[i]);
                        } else {
                            assert(out@[out@.len() - 1]@ == self@[q]);
                        }
                    }
                }
            } else {
                proof {
                    assert(!self@.contains_key(k));
                }
            }
            k = k + 1;
        }
        out
    }
}

/// The abstract values of a sequence of control blocks.
pub open spec fn views(v: Seq<Process>) -> Seq<ProcessView> {
    v.map_values(|p: Process| p@)
}

/// `HashMap::get_mut`. Trusted: hands out the entry stored under `k` (or `None` when
/// there is none), and the map afterwards holds, under `k`, the value the caller left there.
#[verifier::external_body]
fn entry_mut(m: &mut HashMap<u32, Process>, k: u32) -> (r: Option<&mut Process>)
    ensures
        match r {
            Some(p) => old(m)@.contains_key(k) && *p == old(m)@[k] && final(m)@ == old(m)@.insert(k, *final(p)),
            None => !old(m)@.contains_key(k) && final(m)@ == old(m)@,
        },
{
    m.get_mut(&k)
}


} // verus!
