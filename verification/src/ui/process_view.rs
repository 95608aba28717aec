use vstd::prelude::*;
use crate::kernel::{Kernel, KernelView};
use crate::kernel::process::{ProcessState, ProcessView, listed_below, views};
use crate::kernel::memory::{MemoryManager, PageInfo, PageOwner, NUM_PAGES};
use crate::text::{chars_of, dec, push_dec, string_of};

verus! {

/// Width of the state history chart, in ticks.
pub const GANTT_WIDTH: usize = 40;

/// The running process as the scheduler box shows it: name, pid, quantum used and quantum
/// length; `idle`, `-`, 0 and 1 when none runs.
pub open spec fn running_info_spec(k: KernelView) -> (Seq<char>, Seq<char>, u32, u32) {
    match k.scheduler.current {
        Some(pid) => if k.processes.contains_key(pid) {
            (
                k.processes[pid].name,
                dec(k.processes[pid].pid as nat),
                k.scheduler.current_quantum,
                k.scheduler.time_quantum,
            )
        } else {
            ("idle"@, "-"@, 0, 1)
        },
        None => ("idle"@, "-"@, 0, 1),
    }
}

/// The ready queue's processes, in queue order, as pid and name; pids with no process are
/// left out.
pub open spec fn ready_entries_spec(ready: Seq<u32>, m: Map<u32, ProcessView>) -> Seq<(u32, Seq<char>)>
    decreases ready.len(),
{
    if ready.len() == 0 {
        Seq::empty()
    } else {
        let prev = ready_entries_spec(ready.drop_last(), m);
        let pid = ready.last();
        if m.contains_key(pid) { prev.push((pid, m[pid].name)) } else { prev }
    }
}

/// The chart row of a state history: one cell per recorded state, then empty cells up to
/// `GANTT_WIDTH`.
pub open spec fn gantt_row_spec(h: Seq<ProcessState>) -> Seq<Option<ProcessState>> {
    let n: int = if h.len() < GANTT_WIDTH { GANTT_WIDTH as int } else { h.len() as int };
    Seq::new(n as nat, |i: int| if i < h.len() { Some(h[i]) } else { None })
}

/// The glyph that stands for a state in the chart.
pub open spec fn glyph_spec(s: ProcessState) -> char {
    match s {
        ProcessState::Running => '█',
        ProcessState::Ready => '▓',
        ProcessState::Blocked => '▒',
        ProcessState::Terminated => '░',
        ProcessState::New => '·',
    }
}

/// The glyph of a state in the chart.
pub fn glyph(s: ProcessState) -> (c: char)
    ensures
        c == glyph_spec(s),
{
    match s {
        ProcessState::Running => '█',
        ProcessState::Ready => '▓',
        ProcessState::Blocked => '▒',
        ProcessState::Terminated => '░',
        ProcessState::New => '·',
    }
}

/// The running process: name, pid, quantum used and quantum length.
pub fn running_info(kernel: &Kernel) -> (r: (String, String, u32, u32))
    ensures
        (r.0@, r.1@, r.2, r.3) == running_info_spec(kernel@),
{
    match kernel.scheduler.current {
        Some(pid) => match kernel.processes.get(pid) {
            Some(p) => {
                let mut v: Vec<char> = Vec::new();
                push_dec(&mut v, p.pid as u64);
                (p.name.clone(), string_of(v.as_slice()), kernel.scheduler.current_quantum, kernel.scheduler.time_quantum)
            },
            None => (String::from_str("idle"), String::from_str("-"), 0, 1),
        },
        None => (String::from_str("idle"), String::from_str("-"), 0, 1),
    }
}

/// The ready queue as pid and name, in queue order.
pub fn ready_entries(kernel: &Kernel) -> (r: Vec<(u32, String)>)
    ensures
        r@.len() == ready_entries_spec(kernel@.scheduler.ready, kernel@.processes).len(),
        forall|i: int| 0 <= i < r@.len() ==> {
            let want = ready_entries_spec(kernel@.scheduler.ready, kernel@.processes)[i];
            &&& (#[trigger] r@[i]).0 == want.0
            &&& r@[i].1@ == want.1
        },
{
    let ghost q = kernel@.scheduler.ready;
    let ghost m = kernel@.processes;
    let mut out: Vec<(u32, String)> = Vec::new();
    let mut i: usize = 0;
    let n = kernel.scheduler.ready_queue.len();
    while i < n
        invariant
            i <= n,
            n == q.len(),
            q == kernel@.scheduler.ready,
            m == kernel@.processes,
            out@.len() == ready_entries_spec(q.take(i as int), m).len(),
            forall|j: int| 0 <= j < out@.len() ==> {
                let want = ready_entries_spec(q.take(i as int), m)[j];
                &&& (#[trigger] out@[j]).0 == want.0
                &&& out@[j].1@ == want.1
            },
        decreases n - i,
    {
        let pid = kernel.scheduler.ready_queue[i];
        proof {
            assert(q.take(i + 1).drop_last() =~= q.take(i as int));
            assert(q.take(i + 1).last() == q[i as int]);
        }
        match kernel.processes.get(pid) {
            Some(p) => {
                out.push((pid, p.name.clone()));
            },
            None => {},
        }
        i = i + 1;
    }
    proof {
        assert(q.take(n as int) =~= q);
    }
    out
}

/// The chart row of a process: its recorded states, then empty cells up to `GANTT_WIDTH`.
pub fn gantt_row(p: &crate::kernel::process::Process) -> (r: Vec<Option<ProcessState>>)
    ensures
        r@ == gantt_row_spec(p@.state_history),
{
    let ghost h = p@.state_history;
    let n = p.state_history.len();
    let mut out: Vec<Option<ProcessState>> = Vec::new();
    let mut i: usize = 0;
    while i < n
        invariant
            i <= n,
            n == h.len(),
            h == p@.state_history,
            out@ =~= gantt_row_spec(h).take(i as int),
        decreases n - i,
    {
        out.push(Some(p.state_history[i]));
        i = i + 1;
    }
    while out.len() < GANTT_WIDTH
        invariant
            n <= out@.len(),
            n == h.len(),
            out@.len() <= gantt_row_spec(h).len(),
            out@ =~= gantt_row_spec(h).take(out@.len() as int),
        decreases GANTT_WIDTH - out@.len(),
    {
        out.push(None);
    }
    out
}

/// Number of pages owned by process `pid`.
pub open spec fn pages_owned(pages: Seq<PageInfo>, pid: u32) -> nat
    decreases pages.len(),
{
    if pages.len() == 0 {
        0
    } else {
        pages_owned(pages.drop_last(), pid) + if pages.last().owner == PageOwner::Process(pid) { 1nat } else { 0nat }
    }
}

/// A row of the process table.
pub struct ProcessRow {
    pub pid: u32,
    pub name: String,
    pub state: ProcessState,
    pub priority: u8,
    pub cpu_time: u64,
    pub memory_kb: usize,
}

/// The number of pages that process `pid` owns.
fn owned_pages(memory: &MemoryManager, pid: u32) -> (n: usize)
    ensures
        n == pages_owned(memory@, pid),
        n <= memory@.len(),
{
    let len = memory.pages.len();
    let mut n: usize = 0;
    let mut k: usize = 0;
    while k < len
        invariant
            k <= len,
            len == memory@.len(),
            n == pages_owned(memory@.take(k as int), pid),
            n <= k,
        decreases len - k,
    {
        proof {
            assert(memory@.take(k + 1).drop_last() =~= memory@.take(k as int));
        }
        if memory.pages[k].owner == PageOwner::Process(pid) {
            n = n + 1;
        }
        k = k + 1;
    }
    proof {
        assert(memory@.take(len as int) =~= memory@);
    }
    n
}

/// The process table: one row per process in pid order, with its pid, name, state,
/// priority, CPU time, and the memory it owns (4 KB per page).
pub fn process_rows(kernel: &Kernel) -> (rows: Vec<ProcessRow>)
    requires
        kernel.wf(),
    ensures
        rows@.len() == listed_below(kernel@.processes, kernel@.next_pid as nat).len(),
        forall|i: int| 0 <= i < rows@.len() ==> {
            let p = listed_below(kernel@.processes, kernel@.next_pid as nat)[i];
            &&& (#[trigger] rows@[i]).pid == p.pid
            &&& rows@[i].name@ == p.name
            &&& rows@[i].state == p.state
            &&& rows@[i].priority == p.priority
            &&& rows@[i].cpu_time == p.cpu_time
            &&& rows@[i].memory_kb == 4 * pages_owned(kernel@.memory, p.pid)
        },
{
    let list = kernel.processes.list();
    let ghost want = listed_below(kernel@.processes, kernel@.next_pid as nat);
    let mut rows: Vec<ProcessRow> = Vec::new();
    let mut i: usize = 0;
    while i < list.len()
        invariant
            i <= list@.len(),
            views(list@) == want,
            want == listed_below(kernel@.processes, kernel@.next_pid as nat),
            kernel@.memory.len() == NUM_PAGES,
            rows@.len() == i,
            forall|j: int| 0 <= j < i ==> {
                let p = want[j];
                &&& (#[trigger] rows@[j]).pid == p.pid
                &&& rows@[j].name@ == p.name
                &&& rows@[j].state == p.state
                &&& rows@[j].priority == p.priority
                &&& rows@[j].cpu_time == p.cpu_time
                &&& rows@[j].memory_kb == 4 * pages_owned(kernel@.memory, p.pid)
            },
        decreases list@.len() - i,
    {
        let p = &list[i];
        assert(want[i as int] == p@);
        let n = owned_pages(&kernel.memory, p.pid);
        rows.push(ProcessRow {
            pid: p.pid,
            name: p.name.clone(),
            state: p.state,
            priority: p.priority,
            cpu_time: p.cpu_time,
            memory_kb: n * 4,
        });
        i = i + 1;
    }
    rows
}

/// The processes shown in the state-history chart: all but the kernel (pid 0), in order.
pub open spec fn user_processes(ps: Seq<ProcessView>) -> Seq<ProcessView>
    decreases ps.len(),
{
    if ps.len() == 0 {
        Seq::empty()
    } else if ps.last().pid == 0 {
        user_processes(ps.drop_last())
    } else {
        user_processes(ps.drop_last()).push(ps.last())
    }
}

/// A row of the state-history chart: a process's name and its cells.
pub struct GanttRow {
    pub name: String,
    pub cells: Vec<Option<ProcessState>>,
}

/// The state-history chart: a row for each process but the kernel (pid 0), in pid order,
/// and whether the chart notes that there are no user processes (at most one process
/// exists).
pub fn gantt_chart(kernel: &Kernel) -> (r: (Vec<GanttRow>, bool))
    requires
        kernel.wf(),
    ensures
        ({
            let all = listed_below(kernel@.processes, kernel@.next_pid as nat);
            let shown = user_processes(all);
            &&& r.0@.len() == shown.len()
            &&& forall|j: int| 0 <= j < shown.len() ==> {
                &&& (#[trigger] r.0@[j]).name@ == shown[j].name
                &&& r.0@[j].cells@ == gantt_row_spec(shown[j].state_history)
            }
            &&& r.1 == (all.len() <= 1)
        }),
{
    let list = kernel.processes.list();
    let ghost all = views(list@);
    let mut rows: Vec<GanttRow> = Vec::new();
    let mut i: usize = 0;
    while i < list.len()
        invariant
            i <= list@.len(),
            all == views(list@),
            rows@.len() == user_processes(all.take(i as int)).len(),
            forall|j: int| 0 <= j < rows@.len() ==> {
                let shown = user_processes(all.take(i as int));
                &&& (#[trigger] rows@[j]).name@ == shown[j].name
                &&& rows@[j].cells@ == gantt_row_spec(shown[j].state_history)
            },
        decreases list@.len() - i,
    {
        let p = &list[i];
        proof {
            assert(all.take(i + 1).drop_last() =~= all.take(i as int));
            assert(all.take(i + 1).last() == p@);
        }
        if p.pid != 0 {
            let cells = gantt_row(p);
            rows.push(GanttRow { name: p.name.clone(), cells });
        }
        i = i + 1;
    }
    proof {
        assert(all.take(list@.len() as int) =~= all);
    }
    (rows, list.len() <= 1)
}

} // verus!
