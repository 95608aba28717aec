pub mod memory;
pub mod process;
pub mod scheduler;
pub mod io;
pub mod fs;
pub mod syscall;
pub mod tree;

use vstd::prelude::*;
use memory::{MemoryManager, PageOwner, PageInfo, assign_range, release_owner, first_fit, run_is_free, count_kind};
use process::{ProcessTable, ProcessState, ProcessView, with_state, fresh_process, listed_below};
use scheduler::{Scheduler, SchedulerView, kill_spec, tick_spec, tick_in_range};
use fs::{FileSystem, InodeView};
use io::{IoSubsystem, IoEvent};
use crate::text::{chars_of, push_all, push_str, push_dec, string_of, dec, join};
pub use syscall::{Syscall, SyscallResult, SyscallView, ResultView};

verus! {

/// Static kernel settings.
pub struct KernelConfig {
    pub tick_rate_ms: u64,
    pub version: String,
}

/// The whole simulated machine: memory, processes, scheduler, file system and I/O.
pub struct Kernel {
    pub memory: MemoryManager,
    pub processes: ProcessTable,
    pub scheduler: Scheduler,
    pub fs: FileSystem,
    pub io: IoSubsystem,
    pub tick: u64,
    pub boot_messages: Vec<String>,
    pub config: KernelConfig,
}

/// Abstract value of the kernel.
#[verifier::ext_equal]
pub struct KernelView {
    pub memory: Seq<PageInfo>,
    pub processes: Map<u32, ProcessView>,
    pub next_pid: u32,
    pub scheduler: SchedulerView,
    pub inodes: Map<u32, InodeView>,
    pub next_inode: u32,
    pub events: Seq<IoEvent>,
    pub output: Seq<Seq<char>>,
    pub tick: u64,
    pub boot_messages: Seq<Seq<char>>,
    pub tick_rate_ms: u64,
    pub version: Seq<char>,
}

/// Pages each forked process receives.
pub const FORK_PAGES: usize = 4;

/// Owner recorded for pages handed out by `Malloc`.
pub const MALLOC_OWNER: u32 = 999;

/// Bytes per page.
pub const PAGE_SIZE: usize = 4096;

/// Priority of processes started by `Exec`.
pub const EXEC_PRIORITY: u8 = 5;

// ---------------------------------------------------------------------------
// Boot state

/// Page owners at boot: kernel pages, then 4 pages for pid 0, 2 for pid 1, 2 for pid 2.
pub open spec fn boot_pages() -> Seq<PageInfo> {
    Seq::new(
        256,
        |i: int|
            PageInfo {
                owner: if i < 16 {
                    PageOwner::Kernel
                } else if i < 20 {
                    PageOwner::Process(0)
                } else if i < 22 {
                    PageOwner::Process(1)
                } else if i < 24 {
                    PageOwner::Process(2)
                } else {
                    PageOwner::Free
                },
            },
    )
}

/// A process as it stands right after boot.
pub open spec fn boot_process(pid: u32, name: Seq<char>, state: ProcessState, priority: u8, page: u32) -> ProcessView {
    ProcessView { state, memory_pages: seq![page], ..fresh_process(pid, name, priority, 0) }
}

/// Processes at boot: `kernel` running, `init` and `shell` ready.
pub open spec fn boot_processes() -> Map<u32, ProcessView> {
    map![
        0u32 => boot_process(0, "kernel"@, ProcessState::Running, 10, 16),
        1u32 => boot_process(1, "init"@, ProcessState::Ready, 8, 20),
        2u32 => boot_process(2, "shell"@, ProcessState::Ready, 5, 22),
    ]
}

/// The boot log.
pub open spec fn boot_log() -> Seq<Seq<char>> {
    seq![
        "[BOOT] rust-minios v0.1.0 starting..."@,
        "[MEM]  Initializing memory manager: 256 pages x 4KB = 1MB"@,
        "[MEM]  Kernel reserved: pages 0-15 (64KB)"@,
        "[FS]   Mounting virtual filesystem..."@,
        "[FS]   Created: /kernel /home /tmp /dev"@,
        "[SCHED] Initializing round-robin scheduler (quantum=10)"@,
        "[PROC] Created process: kernel (PID=0)"@,
        "[PROC] Created process: init (PID=1)"@,
        "[PROC] Created process: shell (PID=2)"@,
        "[IO]   IO subsystem ready"@,
        "[BOOT] System ready. Type 'help' for commands."@,
    ]
}

/// The machine right after boot.
pub open spec fn boot_kernel() -> KernelView {
    KernelView {
        memory: boot_pages(),
        processes: boot_processes(),
        next_pid: 3,
        scheduler: SchedulerView {
            ready: seq![1u32, 2],
            blocked: Seq::empty(),
            current: Some(0),
            time_quantum: 10,
            tick: 0,
            current_quantum: 0,
        },
        inodes: fs::boot_tree(),
        next_inode: 8,
        events: Seq::empty(),
        output: Seq::empty(),
        tick: 0,
        boot_messages: boot_log(),
        tick_rate_ms: 100,
        version: "0.1.0"@,
    }
}

/// With only kernel pages and pages up to `s` taken, and `s .. s + count` free, first fit is `s`.
proof fn lemma_first_fit_at(pages: Seq<PageInfo>, count: int, s: int)
    requires
        count > 0,
        run_is_free(pages, s, count),
        forall|t: int| 0 <= t < s ==> (#[trigger] pages[t]).owner != PageOwner::Free,
    ensures
        first_fit(pages, count) == Some(s),
{
    assert forall|t: int| 0 <= t < s implies !run_is_free(pages, t, count) by {
        assert(pages[t].owner != PageOwner::Free);
    }
    memory::lemma_first_fit_unique(pages, count, s);
}

// ---------------------------------------------------------------------------
// System calls

/// The machine after creating a process `name` with the next pid at the current tick,
/// making it ready and appending it to the ready queue.
pub open spec fn spawn(k: KernelView, name: Seq<char>, priority: u8) -> KernelView {
    let pid = k.next_pid;
    KernelView {
        processes: with_state(k.processes.insert(pid, fresh_process(pid, name, priority, k.tick)), pid, ProcessState::Ready),
        next_pid: (pid + 1) as u32,
        scheduler: SchedulerView { ready: k.scheduler.ready.push(pid), ..k.scheduler },
        ..k
    }
}

/// The machine after giving process `pid` the first-fit run of `count` pages, if one exists;
/// the process then records the run's first page as its memory.
pub open spec fn give_pages(k: KernelView, pid: u32, count: int) -> KernelView {
    match first_fit(k.memory, count) {
        Some(s) => KernelView {
            memory: assign_range(k.memory, s, s + count, PageOwner::Process(pid)),
            processes: if k.processes.contains_key(pid) {
                k.processes.insert(pid, ProcessView { memory_pages: seq![s as u32], ..k.processes[pid] })
            } else {
                k.processes
            },
            ..k
        },
        None => k,
    }
}

/// The machine after terminating `pid` and freeing its pages.
pub open spec fn terminate(k: KernelView, pid: u32) -> KernelView {
    KernelView {
        scheduler: kill_spec(k.scheduler, pid),
        processes: with_state(k.processes, pid, ProcessState::Terminated),
        memory: release_owner(k.memory, pid),
        ..k
    }
}

/// Pages a `Malloc` of `size` bytes asks for: the size rounded up to whole pages, at least one.
pub open spec fn malloc_pages(size: usize) -> int {
    let n = (size + 4095) / 4096;
    if n < 1 { 1 } else { n }
}

/// `size` bytes rounded up to whole pages (the quotient rounded up, computed without overflow).
fn pages_for(size: usize) -> (n: usize)
    ensures
        n == (size + 4095) / 4096,
{
    let q = size / 4096;
    if size % 4096 != 0 { q + 1 } else { q }
}

/// One line of the process listing.
pub open spec fn process_line(p: ProcessView) -> Seq<char> {
    "PID="@ + dec(p.pid as nat) + " NAME="@ + p.name + " STATE="@ + p.state.label_spec() + " PRI="@
        + dec(p.priority as nat) + " CPU="@ + dec(p.cpu_time as nat) + "\n"@
}

/// The process listing: one line per process.
pub open spec fn process_listing(ps: Seq<ProcessView>) -> Seq<char>
    decreases ps.len(),
{
    if ps.len() == 0 {
        Seq::empty()
    } else {
        process_listing(ps.drop_last()) + process_line(ps.last())
    }
}

/// The memory statistics line, in KB.
pub open spec fn mem_stats_text(pages: Seq<PageInfo>) -> Seq<char> {
    "Total: "@ + dec(pages.len() * 4) + "KB | Kernel: "@ + dec(count_kind(pages, 1) * 4) + "KB | Process: "@
        + dec(count_kind(pages, 2) * 4) + "KB | Free: "@ + dec(count_kind(pages, 0) * 4) + "KB | Reserved: "@
        + dec(count_kind(pages, 3) * 4) + "KB"@
}

/// The counters and sizes a system call works with stay in range.
pub open spec fn syscall_in_range(k: KernelView, s: SyscallView) -> bool {
    match s {
        SyscallView::Fork { .. } => k.next_pid < u32::MAX,
        SyscallView::Exec { .. } => k.next_pid < u32::MAX,
        SyscallView::Free { ptr } => ptr < usize::MAX,
        SyscallView::Create { path } => fs::create_ok(k.inodes, path) ==> k.next_inode < u32::MAX,
        SyscallView::CreateDir { path } => fs::create_ok(k.inodes, path) ==> k.next_inode < u32::MAX,
        _ => true,
    }
}

/// The machine after a system call.
pub open spec fn dispatch_state(k: KernelView, s: SyscallView) -> KernelView {
    match s {
        SyscallView::Fork { name, priority } => give_pages(spawn(k, name, priority), k.next_pid, FORK_PAGES as int),
        SyscallView::Exit { pid } => terminate(k, pid),
        SyscallView::Kill { pid } => terminate(k, pid),
        SyscallView::Exec { name } => spawn(k, name, EXEC_PRIORITY),
        SyscallView::Malloc { size } => match first_fit(k.memory, malloc_pages(size)) {
            Some(st) => KernelView {
                memory: assign_range(k.memory, st, st + malloc_pages(size), PageOwner::Process(MALLOC_OWNER)),
                ..k
            },
            None => k,
        },
        SyscallView::Free { ptr } => KernelView {
            memory: assign_range(k.memory, ptr as int, if ptr + 1 <= k.memory.len() { ptr + 1 } else { k.memory.len() as int }, PageOwner::Free),
            ..k
        },
        SyscallView::Write { path, content } => KernelView { inodes: fs::write_spec(k.inodes, path, content), ..k },
        SyscallView::Create { path } => if fs::create_ok(k.inodes, path) {
            KernelView {
                inodes: fs::create_spec(k.inodes, k.next_inode, path, fs::InodeType::File, k.tick),
                next_inode: (k.next_inode + 1) as u32,
                ..k
            }
        } else {
            k
        },
        SyscallView::CreateDir { path } => if fs::create_ok(k.inodes, path) {
            KernelView {
                inodes: fs::create_spec(k.inodes, k.next_inode, path, fs::InodeType::Directory, k.tick),
                next_inode: (k.next_inode + 1) as u32,
                ..k
            }
        } else {
            k
        },
        SyscallView::Delete { path } => KernelView { inodes: fs::delete_spec(k.inodes, path), ..k },
        _ => k,
    }
}

/// What a system call returns.
pub open spec fn dispatch_result(k: KernelView, s: SyscallView) -> ResultView {
    match s {
        SyscallView::Fork { .. } => ResultView::Value(k.next_pid as i64),
        SyscallView::Exit { .. } => ResultView::Success,
        SyscallView::Kill { .. } => ResultView::Success,
        SyscallView::Exec { .. } => ResultView::Value(k.next_pid as i64),
        SyscallView::GetPid => ResultView::Value(
            match k.scheduler.current {
                Some(p) => p as i64,
                None => 0,
            },
        ),
        SyscallView::ListProcesses => ResultView::Str(process_listing(listed_below(k.processes, k.next_pid as nat))),
        SyscallView::Malloc { size } => match first_fit(k.memory, malloc_pages(size)) {
            Some(st) => ResultView::Value(st as i64),
            None => ResultView::Error("Out of memory"@),
        },
        SyscallView::Free { .. } => ResultView::Success,
        SyscallView::MemStats => ResultView::Str(mem_stats_text(k.memory)),
        SyscallView::Open { path } => if fs::resolve_spec(k.inodes, path) is Some {
            ResultView::Success
        } else {
            ResultView::Error("No such file: "@ + path)
        },
        SyscallView::Read { path } => match fs::read_spec(k.inodes, path) {
            Some(text) => ResultView::Str(text),
            None => ResultView::Error("Cannot read: "@ + path),
        },
        SyscallView::Write { path, .. } => if fs::write_ok(k.inodes, path) {
            ResultView::Success
        } else {
            ResultView::Error("Cannot write: "@ + path)
        },
        SyscallView::Create { path } => if fs::create_ok(k.inodes, path) {
            ResultView::Success
        } else {
            ResultView::Error("Cannot create: "@ + path)
        },
        SyscallView::CreateDir { path } => if fs::create_ok(k.inodes, path) {
            ResultView::Success
        } else {
            ResultView::Error("Cannot create dir: "@ + path)
        },
        SyscallView::Delete { path } => if fs::delete_ok(k.inodes, path) {
            ResultView::Success
        } else {
            ResultView::Error("Cannot delete: "@ + path)
        },
        SyscallView::ListDir { path } => ResultView::Str(join(fs::list_dir_spec(k.inodes, path), "\n"@)),
        SyscallView::GetTree => ResultView::Str(fs::tree_node(k.inodes, 0, Seq::empty(), true)),
    }
}

/// `prefix` followed by `text`, as a `String`.
fn message(prefix: &str, text: &str) -> (s: String)
    ensures
        s@ == prefix@ + text@,
{
    let mut v: Vec<char> = Vec::new();
    push_str(&mut v, prefix);
    push_str(&mut v, text);
    proof {
        assert(v@ =~= prefix@ + text@);
    }
    string_of(v.as_slice())
}

impl Kernel {
    pub open spec fn view(&self) -> KernelView {
        KernelView {
            memory: self.memory@,
            processes: self.processes@,
            next_pid: self.processes.next_pid(),
            scheduler: self.scheduler@,
            inodes: self.fs@,
            next_inode: self.fs.next_inode,
            events: self.io.event_queue@,
            output: crate::text::texts_of(self.io.output_buffer@),
            tick: self.tick,
            boot_messages: crate::text::texts_of(self.boot_messages@),
            tick_rate_ms: self.config.tick_rate_ms,
            version: self.config.version@,
        }
    }

    /// The memory has its fixed number of pages, and the process table and the file system
    /// are well formed.
    pub open spec fn wf(&self) -> bool {
        &&& self.memory@.len() == memory::NUM_PAGES
        &&& self.processes.wf()
        &&& self.fs.wf()
    }

    /// Boots the machine: memory with the kernel pages reserved, the file system tree, and the
    /// processes `kernel` (pid 0, running, 4 pages), `init` (pid 1, ready, 2 pages) and `shell`
    /// (pid 2, ready, 2 pages), with a scheduler quantum of 10 ticks.
    pub fn new() -> (k: Self)
        ensures
            k@ == boot_kernel(),
            k.wf(),
    {
        let mut memory = MemoryManager::new();
        let mut processes = ProcessTable::new();
        let mut scheduler = Scheduler::new(10);
        let fs = FileSystem::new();
        let io = IoSubsystem::new();

        let kernel_pid = processes.create("kernel", 10);
        processes.set_state(kernel_pid, ProcessState::Running);
        scheduler.current = Some(kernel_pid);
        let ghost pages0 = memory@;
        proof {
            lemma_first_fit_at(pages0, 4, 16);
        }
        if let Some(start) = memory.allocate_pages(PageOwner::Process(kernel_pid), 4) {
            if let Some(p) = processes.get_mut(kernel_pid) {
                p.memory_pages = vec![start as u32];
            }
        }
        let ghost pages1 = memory@;
        proof {
            lemma_first_fit_at(pages1, 2, 20);
        }

        let init_pid = processes.create("init", 8);
        processes.set_state(init_pid, ProcessState::Ready);
        scheduler.add_process(init_pid);
        if let Some(start) = memory.allocate_pages(PageOwner::Process(init_pid), 2) {
            if let Some(p) = processes.get_mut(init_pid) {
                p.memory_pages = vec![start as u32];
            }
        }
        let ghost pages2 = memory@;
        proof {
            lemma_first_fit_at(pages2, 2, 22);
        }

        let shell_pid = processes.create("shell", 5);
        processes.set_state(shell_pid, ProcessState::Ready);
        scheduler.add_process(shell_pid);
        if let Some(start) = memory.allocate_pages(PageOwner::Process(shell_pid), 2) {
            if let Some(p) = processes.get_mut(shell_pid) {
                p.memory_pages = vec![start as u32];
            }
        }

        let boot_messages = vec![
            String::from_str("[BOOT] rust-minios v0.1.0 starting..."),
            String::from_str("[MEM]  Initializing memory manager: 256 pages x 4KB = 1MB"),
            String::from_str("[MEM]  Kernel reserved: pages 0-15 (64KB)"),
            String::from_str("[FS]   Mounting virtual filesystem..."),
            String::from_str("[FS]   Created: /kernel /home /tmp /dev"),
            String::from_str("[SCHED] Initializing round-robin scheduler (quantum=10)"),
            String::from_str("[PROC] Created process: kernel (PID=0)"),
            String::from_str("[PROC] Created process: init (PID=1)"),
            String::from_str("[PROC] Created process: shell (PID=2)"),
            String::from_str("[IO]   IO subsystem ready"),
            String::from_str("[BOOT] System ready. Type 'help' for commands."),
        ];

        let k = Kernel {
            memory,
            processes,
            scheduler,
            fs,
            io,
            tick: 0,
            boot_messages,
            config: KernelConfig { tick_rate_ms: 100, version: String::from_str("0.1.0") },
        };
        proof {
            assert(k@.memory =~= boot_pages());
            assert(k@.processes =~~= boot_processes());
            assert(k@.scheduler =~~= boot_kernel().scheduler);
            assert(k@.boot_messages =~= boot_log());
            assert(k@.output =~= Seq::<Seq<char>>::empty());
            assert(k@ =~~= boot_kernel());
        }
        k
    }

    /// Whether a system call keeps the machine's counters in range: a new process needs a
    /// pid, a new inode a number, and a freed page a successor.
    pub fn can_dispatch(&self, syscall: &Syscall) -> (b: bool)
        ensures
            b == syscall_in_range(self@, syscall@),
    {
        match syscall {
            Syscall::Fork { .. } => self.processes.upcoming_pid() < u32::MAX,
            Syscall::Exec { .. } => self.processes.upcoming_pid() < u32::MAX,
            Syscall::Free { ptr } => *ptr < usize::MAX,
            Syscall::Create { path } => !self.fs.can_create(path.as_str()) || self.fs.next_inode < u32::MAX,
            Syscall::CreateDir { path } => !self.fs.can_create(path.as_str()) || self.fs.next_inode < u32::MAX,
            _ => true,
        }
    }

    /// Whether the clocks, the quantum counter and the running process's CPU time can all
    /// advance by one tick.
    pub fn can_tick(&self) -> (b: bool)
        ensures
            b == (self@.tick < u64::MAX && tick_in_range(self@.scheduler, self@.processes)),
    {
        if self.tick == u64::MAX || self.scheduler.tick == u64::MAX {
            return false;
        }
        match self.scheduler.current {
            Some(pid) => {
                if self.scheduler.current_quantum == u32::MAX {
                    return false;
                }
                match self.processes.get(pid) {
                    Some(p) => p.cpu_time < u64::MAX,
                    None => true,
                }
            },
            None => true,
        }
    }

    /// Advances the clock by one tick and lets the scheduler run.
    pub fn tick(&mut self)
        requires
            old(self).tick < u64::MAX,
            tick_in_range(old(self)@.scheduler, old(self)@.processes),
        ensures
            final(self)@ == (KernelView {
                tick: (old(self)@.tick + 1) as u64,
                scheduler: tick_spec(old(self)@.scheduler, old(self)@.processes).0,
                processes: tick_spec(old(self)@.scheduler, old(self)@.processes).1,
                ..old(self)@
            }),
            old(self).wf() ==> final(self).wf(),
    {
        self.tick = self.tick + 1;
        self.scheduler.tick(&mut self.processes);
    }

    /// Creates a ready process named `name` and queues it; returns its pid.
    fn spawn_process(&mut self, name: &str, priority: u8) -> (pid: u32)
        requires
            old(self).wf(),
            old(self)@.next_pid < u32::MAX,
        ensures
            pid == old(self)@.next_pid,
            final(self)@ == spawn(old(self)@, name@, priority),
            final(self).wf(),
    {
        let pid = self.processes.create_at(name, priority, self.tick);
        self.scheduler.add_process(pid);
        self.processes.set_state(pid, ProcessState::Ready);
        proof {
            assert(self@ =~~= spawn(old(self)@, name@, priority));
        }
        pid
    }

    /// Gives `pid` a first-fit run of `count` pages, recording its first page in the process.
    fn give_pages_to(&mut self, pid: u32, count: usize)
        requires
            old(self).wf(),
        ensures
            final(self)@ == give_pages(old(self)@, pid, count as int),
            final(self).wf(),
    {
        let ghost k0 = old(self)@;
        if let Some(start) = self.memory.allocate_pages(PageOwner::Process(pid), count) {
            let ghost procs0 = self.processes@;
            proof {
                assert(first_fit(k0.memory, count as int) == Some(start as int));
            }
            if let Some(p) = self.processes.get_mut(pid) {
                p.memory_pages = vec![start as u32];
            }
            proof {
                let kk = give_pages(k0, pid, count as int);
                assert(self@.memory == kk.memory);
                assert(self@.processes =~~= kk.processes);
                assert(self@ =~~= kk);
            }
        } else {
            proof {
                assert(self@ =~~= give_pages(old(self)@, pid, count as int));
            }
        }
    }

    /// Terminates `pid` and frees its pages.
    fn terminate_process(&mut self, pid: u32)
        requires
            old(self).wf(),
        ensures
            final(self)@ == terminate(old(self)@, pid),
            final(self).wf(),
    {
        self.scheduler.kill_process(pid, &mut self.processes);
        self.memory.free_process_pages(pid);
        proof {
            assert(self@ =~~= terminate(old(self)@, pid));
        }
    }

    /// The process listing, one `PID=.. NAME=.. STATE=.. PRI=.. CPU=..` line per process, by pid.
    fn list_processes_text(&self) -> (s: String)
        requires
            self.wf(),
        ensures
            s@ == process_listing(listed_below(self@.processes, self@.next_pid as nat)),
    {
        let procs = self.processes.list();
        let mut out: Vec<char> = Vec::new();
        let mut i: usize = 0;
        while i < procs.len()
            invariant
                i <= procs@.len(),
                process::views(procs@) == listed_below(self@.processes, self@.next_pid as nat),
                out@ == process_listing(process::views(procs@).take(i as int)),
            decreases procs@.len() - i,
        {
            let p = &procs[i];
            let ghost prev = out@;
            push_str(&mut out, "PID=");
            push_dec(&mut out, p.pid as u64);
            push_str(&mut out, " NAME=");
            let name = chars_of(p.name.as_str());
            push_all(&mut out, name.as_slice());
            push_str(&mut out, " STATE=");
            let label = p.state.label();
            let lc = chars_of(label.as_str());
            push_all(&mut out, lc.as_slice());
            push_str(&mut out, " PRI=");
            push_dec(&mut out, p.priority as u64);
            push_str(&mut out, " CPU=");
            push_dec(&mut out, p.cpu_time);
            push_str(&mut out, "\n");
            proof {
                let vs = process::views(procs@);
                assert(vs.take(i + 1).drop_last() =~= vs.take(i as int));
                assert(vs.take(i + 1).last() == p@);
                assert(out@ =~= prev + process_line(p@));
            }
            i = i + 1;
        }
        proof {
            assert(process::views(procs@).take(procs@.len() as int) =~= process::views(procs@));
        }
        string_of(out.as_slice())
    }

    /// The memory statistics line.
    fn mem_stats_line(&self) -> (s: String)
        requires
            self@.memory.len() == memory::NUM_PAGES,
        ensures
            s@ == mem_stats_text(self@.memory),
    {
        let stats = self.memory.get_stats();
        proof {
            memory::lemma_count_kinds_total(self@.memory);
        }
        let mut out: Vec<char> = Vec::new();
        push_str(&mut out, "Total: ");
        push_dec(&mut out, (stats.total * 4) as u64);
        push_str(&mut out, "KB | Kernel: ");
        push_dec(&mut out, (stats.used_kernel * 4) as u64);
        push_str(&mut out, "KB | Process: ");
        push_dec(&mut out, (stats.used_process * 4) as u64);
        push_str(&mut out, "KB | Free: ");
        push_dec(&mut out, (stats.free * 4) as u64);
        push_str(&mut out, "KB | Reserved: ");
        push_dec(&mut out, (stats.reserved * 4) as u64);
        push_str(&mut out, "KB");
        proof {
            assert(out@ =~= mem_stats_text(self@.memory));
        }
        string_of(out.as_slice())
    }

    /// Carries out a system call and returns its result; see `dispatch_state` and
    /// `dispatch_result` for what each call does.
    #[verifier::spinoff_prover]
    #[verifier::rlimit(60)]
    pub fn dispatch(&mut self, syscall: Syscall) -> (r: SyscallResult)
        requires
            old(self).wf(),
            syscall_in_range(old(self)@, syscall@),
        ensures
            final(self)@ == dispatch_state(old(self)@, syscall@),
            r@ == dispatch_result(old(self)@, syscall@),
            final(self).wf(),
    {
        match syscall {
            Syscall::Fork { name, priority } => {
                let pid = self.spawn_process(name.as_str(), priority);
                self.give_pages_to(pid, FORK_PAGES);
                SyscallResult::Value(pid as i64)
            },
            Syscall::Exit { pid } => {
                self.terminate_process(pid);
                SyscallResult::Success
            },
            Syscall::Kill { pid } => {
                self.terminate_process(pid);
                SyscallResult::Success
            },
            Syscall::Exec { name } => {
                let pid = self.spawn_process(name.as_str(), EXEC_PRIORITY);
                SyscallResult::Value(pid as i64)
            },
            Syscall::GetPid => {
                let pid = match self.scheduler.current {
                    Some(p) => p,
                    None => 0,
                };
                SyscallResult::Value(pid as i64)
            },
            Syscall::ListProcesses => SyscallResult::Str(self.list_processes_text()),
            Syscall::Malloc { size } => {
                let pages_needed = pages_for(size);
                let pages_needed = if pages_needed < 1 { 1 } else { pages_needed };
                match self.memory.allocate_pages(PageOwner::Process(MALLOC_OWNER), pages_needed) {
                    Some(start) => {
                        proof {
                            assert(self@ =~~= dispatch_state(old(self)@, syscall@));
                        }
                        SyscallResult::Value(start as i64)
                    },
                    None => SyscallResult::Error(String::from_str("Out of memory")),
                }
            },
            Syscall::Free { ptr } => {
                self.memory.free_pages(ptr, 1);
                proof {
                    assert(self@ =~~= dispatch_state(old(self)@, syscall@));
                }
                SyscallResult::Success
            },
            Syscall::MemStats => SyscallResult::Str(self.mem_stats_line()),
            Syscall::Open { path } => {
                match self.fs.resolve_path(path.as_str()) {
                    Some(_) => SyscallResult::Success,
                    None => SyscallResult::Error(message("No such file: ", path.as_str())),
                }
            },
            Syscall::Read { path } => {
                match self.fs.read_file(path.as_str()) {
                    Some(content) => SyscallResult::Str(content),
                    None => SyscallResult::Error(message("Cannot read: ", path.as_str())),
                }
            },
            Syscall::Write { path, content } => {
                if self.fs.write_file(path.as_str(), content.as_str()) {
                    SyscallResult::Success
                } else {
                    SyscallResult::Error(message("Cannot write: ", path.as_str()))
                }
            },
            Syscall::Create { path } => {
                if self.fs.create_file_at(path.as_str(), self.tick) {
                    SyscallResult::Success
                } else {
                    SyscallResult::Error(message("Cannot create: ", path.as_str()))
                }
            },
            Syscall::CreateDir { path } => {
                if self.fs.create_dir_at(path.as_str(), self.tick) {
                    SyscallResult::Success
                } else {
                    SyscallResult::Error(message("Cannot create dir: ", path.as_str()))
                }
            },
            Syscall::Delete { path } => {
                if self.fs.delete(path.as_str()) {
                    SyscallResult::Success
                } else {
                    SyscallResult::Error(message("Cannot delete: ", path.as_str()))
                }
            },
            Syscall::ListDir { path } => {
                let entries = self.fs.list_dir(path.as_str());
                SyscallResult::Str(crate::text::join_strings(&entries, "\n"))
            },
            Syscall::GetTree => SyscallResult::Str(self.fs.get_tree()),
        }
    }
}

// ---------------------------------------------------------------------------
// Laws

/// Killing a process releases everything it held: none of its pages stay allocated, it is
/// neither running, ready nor blocked, and (when it exists) its state is `Terminated`.
pub proof fn law_kill_releases(k: KernelView, pid: u32)
    ensures
        ({
            let k2 = dispatch_state(k, SyscallView::Kill { pid });
            &&& forall|i: int| 0 <= i < k2.memory.len() ==> (#[trigger] k2.memory[i]).owner != PageOwner::Process(pid)
            &&& k2.scheduler.current != Some(pid)
            &&& !k2.scheduler.ready.contains(pid)
            &&& !k2.scheduler.blocked.contains(pid)
            &&& k.processes.contains_key(pid) ==> k2.processes[pid].state == ProcessState::Terminated
            &&& k2.processes.dom() == k.processes.dom()
        }),
{
    let k2 = dispatch_state(k, SyscallView::Kill { pid });
    scheduler::lemma_without(k.scheduler.ready, pid);
    scheduler::lemma_without(k.scheduler.blocked, pid);
    let s1 = if k.scheduler.current == Some(pid) {
        SchedulerView { current: None, current_quantum: 0, ..k.scheduler }
    } else {
        k.scheduler
    };
    assert(s1.ready == k.scheduler.ready);
    assert(k2.processes.dom() =~= k.processes.dom());
}

/// `malloc` of `size` bytes asks for whole 4096-byte pages: at least one, enough for the
/// bytes, and no more than that.
pub proof fn law_malloc_page_count(size: usize)
    ensures
        malloc_pages(size) >= 1,
        malloc_pages(size) * 4096 >= size,
        malloc_pages(size) == 1 || (malloc_pages(size) - 1) * 4096 < size,
{
    let n = (size + 4095) / 4096;
    assert(n * 4096 <= size + 4095 && size + 4095 < n * 4096 + 4096) by (nonlinear_arith)
        requires
            n == (size + 4095) / 4096,
    ;
}

/// `malloc` takes the lowest run of free pages of the size it asks for (first fit): it
/// returns the run's first page and gives exactly those pages to the allocating owner (999),
/// changing nothing else; when no such run exists it fails with "Out of memory" and changes
/// nothing. (Page numbers are returned as `i64`, so the memory has at most `i64::MAX` pages.)
pub proof fn law_malloc_first_fit(k: KernelView, size: usize)
    requires
        k.memory.len() <= i64::MAX,
    ensures
        ({
            let s = SyscallView::Malloc { size };
            let n = malloc_pages(size);
            let k2 = dispatch_state(k, s);
            match dispatch_result(k, s) {
                ResultView::Value(st) => {
                    &&& run_is_free(k.memory, st as int, n)
                    &&& forall|t: int| 0 <= t < st ==> !run_is_free(k.memory, t, n)
                    &&& k2.memory.len() == k.memory.len()
                    &&& forall|i: int| 0 <= i < k.memory.len() ==> (#[trigger] k2.memory[i]).owner == if st <= i < st + n {
                        PageOwner::Process(999)
                    } else {
                        k.memory[i].owner
                    }
                    &&& k2 == KernelView { memory: k2.memory, ..k }
                },
                ResultView::Error(e) => {
                    &&& e == "Out of memory"@
                    &&& forall|t: int| !run_is_free(k.memory, t, n)
                    &&& k2 == k
                },
                _ => false,
            }
        }),
{
    law_malloc_page_count(size);
    memory::lemma_first_fit_result(k.memory, malloc_pages(size));
    match memory::first_fit(k.memory, malloc_pages(size)) {
        Some(st) => {
            assert(st + malloc_pages(size) <= k.memory.len());
        },
        None => {},
    }
}

/// `free` of page `ptr` makes that one page free (when it exists), leaves every other page
/// and the rest of the machine as it was, and succeeds.
pub proof fn law_free_one_page(k: KernelView, ptr: usize)
    requires
        ptr < usize::MAX,
    ensures
        ({
            let k2 = dispatch_state(k, SyscallView::Free { ptr });
            &&& dispatch_result(k, SyscallView::Free { ptr }) == ResultView::Success
            &&& k2.memory.len() == k.memory.len()
            &&& forall|i: int| 0 <= i < k.memory.len() ==> (#[trigger] k2.memory[i]).owner == if i == ptr {
                PageOwner::Free
            } else {
                k.memory[i].owner
            }
            &&& k2 == KernelView { memory: k2.memory, ..k }
        }),
{
}

/// A process exiting leaves the machine as killing it does, so it too releases everything
/// it held (see `law_kill_releases`).
pub proof fn law_exit_is_kill(k: KernelView, pid: u32)
    ensures
        dispatch_state(k, SyscallView::Exit { pid }) == dispatch_state(k, SyscallView::Kill { pid }),
{
}

/// A forked process gets a pid no process had, the name and priority asked for, no CPU time
/// yet, records the current tick as its creation
/// time, is ready and queued last, and the next fork gets the pid after it.
pub proof fn law_fork_fresh_pid(k: KernelView, name: Seq<char>, priority: u8)
    requires
        forall|q: u32| #[trigger] k.processes.contains_key(q) ==> q < k.next_pid,
        k.next_pid < u32::MAX,
    ensures
        ({
            let s = SyscallView::Fork { name, priority };
            let k2 = dispatch_state(k, s);
            let pid = k.next_pid;
            &&& dispatch_result(k, s) == ResultView::Value(pid as i64)
            &&& !k.processes.contains_key(pid)
            &&& k2.processes.contains_key(pid)
            &&& k2.processes[pid].state == ProcessState::Ready
            &&& k2.processes[pid].pid == pid
            &&& k2.processes[pid].name == name
            &&& k2.processes[pid].priority == priority
            &&& k2.processes[pid].cpu_time == 0
            &&& k2.processes[pid].created_at == k.tick
            &&& k2.scheduler.ready.last() == pid
            &&& k2.next_pid == pid + 1
            &&& forall|q: u32| #[trigger] k.processes.contains_key(q) ==> k2.processes[q] == k.processes[q]
        }),
{
}

/// An executed program becomes a ready process with the next pid, the given name and
/// priority 5, and no CPU time yet.
pub proof fn law_exec_spawns(k: KernelView, name: Seq<char>)
    requires
        forall|q: u32| #[trigger] k.processes.contains_key(q) ==> q < k.next_pid,
        k.next_pid < u32::MAX,
    ensures
        ({
            let s = SyscallView::Exec { name };
            let k2 = dispatch_state(k, s);
            let pid = k.next_pid;
            &&& dispatch_result(k, s) == ResultView::Value(pid as i64)
            &&& k2.processes.contains_key(pid)
            &&& k2.processes[pid].state == ProcessState::Ready
            &&& k2.processes[pid].name == name
            &&& k2.processes[pid].priority == 5
            &&& k2.processes[pid].cpu_time == 0
            &&& k2.scheduler.ready.last() == pid
            &&& k2.next_pid == pid + 1
        }),
{
}

/// Round robin: when the running process uses up its quantum while others are ready, the
/// head of the ready queue runs next and the preempted process goes to the back of the queue.
pub proof fn law_round_robin(s: SchedulerView, m: Map<u32, ProcessView>, pid: u32)
    requires
        tick_in_range(s, m),
        s.current == Some(pid),
        m.contains_key(pid),
        m[pid].state == ProcessState::Running,
        s.current_quantum + 1 >= s.time_quantum,
        s.ready.len() > 0,
    ensures
        ({
            let (s2, m2) = tick_spec(s, m);
            &&& s2.current == Some(s.ready[0])
            &&& s2.current_quantum == 0
            &&& s2.ready == s.ready.drop_first().push(pid)
            &&& m2[s.ready[0]].state == ProcessState::Running || !m.contains_key(s.ready[0])
            &&& s.ready[0] != pid ==> m2[pid].state == ProcessState::Ready
            &&& m2[pid].cpu_time == m[pid].cpu_time + 1
        }),
{
    let s0 = SchedulerView { tick: (s.tick + 1) as u64, ..s };
    let (s1, m1) = scheduler::charge_current(s0, m);
    let m1a = m.insert(pid, ProcessView { cpu_time: (m[pid].cpu_time + 1) as u64, ..m[pid] });
    assert(m1 =~= with_state(m1a, pid, ProcessState::Ready));
    assert(s1.ready == s.ready.push(pid));
    assert(s1.current is None);
    assert(m1.contains_key(pid));
    assert(m1[pid].cpu_time == m[pid].cpu_time + 1);
    let (s2, m2) = tick_spec(s, m);
    assert(s1.ready[0] == s.ready[0]);
    assert(s.ready.push(pid).drop_first() =~= s.ready.drop_first().push(pid));
    assert(s2.ready == s.ready.drop_first().push(pid));
}

/// A refused system call changes nothing: whenever the answer is an error, the machine is
/// as it was.
pub proof fn law_refused_call_changes_nothing(k: KernelView, s: SyscallView)
    ensures
        dispatch_result(k, s) is Error ==> dispatch_state(k, s) == k,
{
    if dispatch_result(k, s) is Error {
        match s {
            SyscallView::Write { path, content } => {
                assert(dispatch_state(k, s) =~= k);
            },
            SyscallView::Delete { path } => {
                assert(dispatch_state(k, s) =~= k);
            },
            _ => {},
        }
    }
}

} // verus!
