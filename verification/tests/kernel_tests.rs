use rust_minios::kernel::fs::{FileSystem, InodeType};
use rust_minios::kernel::io::{IoEvent, IoSubsystem, SpecialKey};
use rust_minios::kernel::memory::{MemoryManager, PageOwner};
use rust_minios::kernel::process::{ProcessState, ProcessTable};
use rust_minios::kernel::scheduler::Scheduler;
use rust_minios::kernel::{Kernel, Syscall, SyscallResult};

fn text(r: SyscallResult) -> String {
    match r {
        SyscallResult::Str(s) => s,
        _ => panic!("expected a text result"),
    }
}

fn value(r: SyscallResult) -> i64 {
    match r {
        SyscallResult::Value(v) => v,
        _ => panic!("expected a value result"),
    }
}

fn error(r: SyscallResult) -> String {
    match r {
        SyscallResult::Error(e) => e,
        _ => panic!("expected an error"),
    }
}

fn is_success(r: &SyscallResult) -> bool {
    matches!(r, SyscallResult::Success)
}

// ---------------------------------------------------------------------------
// Memory

#[test]
fn memory_boot_reserves_kernel_pages() {
    let m = MemoryManager::new();
    assert_eq!(m.pages.len(), 256);
    for i in 0..16 {
        assert_eq!(m.pages[i].owner, PageOwner::Kernel);
    }
    for i in 16..256 {
        assert_eq!(m.pages[i].owner, PageOwner::Free);
    }
    let st = m.get_stats();
    assert_eq!(st.total, 256);
    assert_eq!(st.used_kernel, 16);
    assert_eq!(st.used_process, 0);
    assert_eq!(st.free, 240);
    assert_eq!(st.reserved, 0);
}

#[test]
fn memory_first_fit_and_free() {
    let mut m = MemoryManager::new();
    assert_eq!(m.allocate_pages(PageOwner::Process(1), 4), Some(16));
    assert_eq!(m.allocate_pages(PageOwner::Process(2), 2), Some(20));
    m.free_pages(16, 4);
    // the hole at 16 is the first that fits
    assert_eq!(m.allocate_pages(PageOwner::Process(3), 3), Some(16));
    // a run of 2 does not fit in the single page left at 19
    assert_eq!(m.allocate_pages(PageOwner::Process(4), 2), Some(22));
    let st = m.get_stats();
    assert_eq!(st.used_process, 7);
    assert_eq!(st.free, 256 - 16 - 7);
}

#[test]
fn memory_out_of_pages() {
    let mut m = MemoryManager::new();
    assert_eq!(m.allocate_pages(PageOwner::Process(1), 241), None);
    assert_eq!(m.allocate_pages(PageOwner::Process(1), 240), Some(16));
    assert_eq!(m.allocate_pages(PageOwner::Process(2), 1), None);
    assert_eq!(m.get_stats().free, 0);
}

#[test]
fn memory_zero_pages() {
    let mut m = MemoryManager::new();
    assert_eq!(m.allocate_pages(PageOwner::Process(1), 0), None);
}

#[test]
fn memory_free_process_pages_releases_only_that_process() {
    let mut m = MemoryManager::new();
    m.allocate_pages(PageOwner::Process(7), 3);
    m.allocate_pages(PageOwner::Process(8), 2);
    m.allocate_pages(PageOwner::Process(7), 1);
    m.free_process_pages(7);
    let st = m.get_stats();
    assert_eq!(st.used_process, 2);
    assert_eq!(m.pages[19].owner, PageOwner::Process(8));
    assert_eq!(m.pages[16].owner, PageOwner::Free);
    assert_eq!(m.pages[21].owner, PageOwner::Free);
}

#[test]
fn memory_free_then_allocate_same_run() {
    let mut m = MemoryManager::new();
    let a = m.allocate_pages(PageOwner::Process(1), 5).unwrap();
    m.free_pages(a, 5);
    assert_eq!(m.get_stats().free, 240);
    assert_eq!(m.allocate_pages(PageOwner::Process(2), 5), Some(a));
}

// ---------------------------------------------------------------------------
// Processes and scheduling

#[test]
fn process_table_assigns_pids_in_order() {
    let mut t = ProcessTable::new();
    assert_eq!(t.create("a", 1), 0);
    assert_eq!(t.create("b", 2), 1);
    let p = t.get(1).unwrap();
    assert_eq!(p.name, "b");
    assert_eq!(p.state, ProcessState::New);
    assert_eq!(p.priority, 2);
    assert_eq!(p.state_history.len(), 1);
    t.set_state(0, ProcessState::Blocked);
    assert_eq!(t.get(0).unwrap().state, ProcessState::Blocked);
    let l = t.list();
    assert_eq!(l.len(), 2);
    assert_eq!(l[0].pid, 0);
    assert_eq!(l[1].pid, 1);
    t.remove(0);
    assert!(t.get(0).is_none());
    assert_eq!(t.list().len(), 1);
}

#[test]
fn process_history_keeps_last_forty() {
    let mut t = ProcessTable::new();
    let pid = t.create("p", 1);
    t.set_state(pid, ProcessState::Running);
    for _ in 0..50 {
        t.record_all_states();
    }
    let p = t.get(pid).unwrap();
    assert_eq!(p.state_history.len(), 40);
    assert!(p.state_history.iter().all(|s| *s == ProcessState::Running));
    let q = t.get_mut(pid).unwrap();
    q.state = ProcessState::Blocked;
    q.record_state();
    assert_eq!(q.state_history.len(), 40);
    assert_eq!(*q.state_history.back().unwrap(), ProcessState::Blocked);
}

#[test]
fn state_labels() {
    assert_eq!(ProcessState::New.label(), "New");
    assert_eq!(ProcessState::Ready.label(), "Ready");
    assert_eq!(ProcessState::Running.label(), "Running");
    assert_eq!(ProcessState::Blocked.label(), "Blocked");
    assert_eq!(ProcessState::Terminated.label(), "Terminated");
}

#[test]
fn scheduler_round_robin_after_quantum() {
    let mut k = Kernel::new();
    assert_eq!(k.scheduler.current, Some(0));
    for _ in 0..9 {
        k.tick();
    }
    assert_eq!(k.scheduler.current, Some(0));
    assert_eq!(k.scheduler.current_quantum, 9);
    k.tick();
    assert_eq!(k.tick, 10);
    assert_eq!(k.scheduler.current, Some(1));
    assert_eq!(k.scheduler.current_quantum, 0);
    assert_eq!(k.scheduler.ready_queue.iter().copied().collect::<Vec<u32>>(), vec![2, 0]);
    assert_eq!(k.processes.get(0).unwrap().state, ProcessState::Ready);
    assert_eq!(k.processes.get(0).unwrap().cpu_time, 10);
    assert_eq!(k.processes.get(1).unwrap().state, ProcessState::Running);
    for _ in 0..10 {
        k.tick();
    }
    assert_eq!(k.scheduler.current, Some(2));
    assert_eq!(k.processes.get(1).unwrap().cpu_time, 10);
}

#[test]
fn scheduler_block_unblock_kill() {
    let mut t = ProcessTable::new();
    let a = t.create("a", 1);
    let b = t.create("b", 1);
    let c = t.create("c", 1);
    let mut s = Scheduler::new(3);
    s.add_process(a);
    s.add_process(b);
    s.add_process(c);
    s.tick(&mut t);
    assert_eq!(s.current, Some(a));
    s.block_process(b, &mut t);
    assert_eq!(s.ready_queue.iter().copied().collect::<Vec<u32>>(), vec![c]);
    assert_eq!(s.blocked, vec![b]);
    assert_eq!(t.get(b).unwrap().state, ProcessState::Blocked);
    s.block_process(a, &mut t);
    assert_eq!(s.current, None);
    assert_eq!(s.current_quantum, 0);
    s.unblock_process(b, &mut t);
    assert_eq!(s.blocked, vec![a]);
    assert_eq!(s.ready_queue.iter().copied().collect::<Vec<u32>>(), vec![c, b]);
    assert_eq!(t.get(b).unwrap().state, ProcessState::Ready);
    s.kill_process(c, &mut t);
    assert_eq!(s.ready_queue.iter().copied().collect::<Vec<u32>>(), vec![b]);
    assert_eq!(t.get(c).unwrap().state, ProcessState::Terminated);
    s.tick(&mut t);
    assert_eq!(s.current, Some(b));
}

// ---------------------------------------------------------------------------
// File system

#[test]
fn fs_boot_tree() {
    let fs = FileSystem::new();
    assert_eq!(fs.next_inode, 8);
    assert_eq!(fs.resolve_path("/"), Some(0));
    assert_eq!(fs.resolve_path("/kernel"), Some(1));
    assert_eq!(fs.resolve_path("/home"), Some(2));
    assert_eq!(fs.resolve_path("/tmp"), Some(3));
    assert_eq!(fs.resolve_path("/dev"), Some(4));
    assert_eq!(fs.resolve_path("/home/readme.txt"), Some(5));
    assert_eq!(fs.resolve_path("/home/hello.txt"), Some(6));
    assert_eq!(fs.resolve_path("/home/demo.sh"), Some(7));
    assert_eq!(fs.resolve_path("/home/missing"), None);
    assert_eq!(fs.inodes.get(&5).unwrap().inode_type, InodeType::File);
    assert_eq!(fs.inodes.get(&5).unwrap().parent, Some(2));
    assert_eq!(fs.list_dir("/"), vec!["kernel/", "home/", "tmp/", "dev/"]);
    assert_eq!(fs.list_dir("/home"), vec!["readme.txt", "hello.txt", "demo.sh"]);
    assert_eq!(fs.list_dir("/home/hello.txt"), Vec::<String>::new());
    assert_eq!(fs.read_file("/home/hello.txt"), Some("Hello, World!\n".to_string()));
    assert_eq!(
        fs.read_file("/home/readme.txt"),
        Some("Welcome to rust-minios!\nA micro OS simulator built in Rust.\n".to_string())
    );
    assert_eq!(fs.read_file("/home"), None);
    assert_eq!(fs.inodes.get(&6).unwrap().size, 14);
}

#[test]
fn fs_tree_drawing() {
    let fs = FileSystem::new();
    assert_eq!(
        fs.get_tree(),
        "/\n├── kernel/\n├── home/\n│   ├── readme.txt\n│   ├── hello.txt\n│   └── demo.sh\n├── tmp/\n└── dev/\n"
    );
}

#[test]
fn fs_nested_tree_drawing() {
    let mut fs = FileSystem::new();
    assert!(fs.create_dir("/dev/a"));
    assert!(fs.create_file("/dev/a/x"));
    assert!(fs.create_dir("/kernel/b"));
    assert_eq!(
        fs.get_tree(),
        "/\n├── kernel/\n│   └── b/\n├── home/\n│   ├── readme.txt\n│   ├── hello.txt\n│   └── demo.sh\n├── tmp/\n└── dev/\n    └── a/\n        └── x\n"
    );
}

#[test]
fn fs_path_forms() {
    let fs = FileSystem::new();
    assert_eq!(fs.resolve_path("home/hello.txt"), Some(6));
    assert_eq!(fs.resolve_path("/home/"), Some(2));
    assert_eq!(fs.resolve_path("//home//hello.txt"), Some(6));
    assert_eq!(fs.resolve_path(""), Some(0));
}

#[test]
fn fs_write_then_read() {
    let mut fs = FileSystem::new();
    assert!(fs.write_file("/home/hello.txt", "changed"));
    assert_eq!(fs.read_file("/home/hello.txt"), Some("changed".to_string()));
    assert_eq!(fs.inodes.get(&6).unwrap().size, 7);
    // the other files stay
    assert_eq!(
        fs.read_file("/home/readme.txt"),
        Some("Welcome to rust-minios!\nA micro OS simulator built in Rust.\n".to_string())
    );
    assert!(!fs.write_file("/home", "x"));
    assert!(!fs.write_file("/home/none.txt", "x"));
}

#[test]
fn fs_write_utf8_size_in_bytes() {
    let mut fs = FileSystem::new();
    assert!(fs.write_file("/home/hello.txt", "héllo"));
    assert_eq!(fs.inodes.get(&6).unwrap().size, 6);
    assert_eq!(fs.read_file("/home/hello.txt"), Some("héllo".to_string()));
}

#[test]
fn fs_create_and_delete() {
    let mut fs = FileSystem::new();
    assert!(fs.create_file("/tmp/a.txt"));
    assert_eq!(fs.resolve_path("/tmp/a.txt"), Some(8));
    assert_eq!(fs.read_file("/tmp/a.txt"), Some(String::new()));
    assert!(!fs.create_file("/tmp/a.txt"));
    assert!(!fs.create_file("/nowhere/a.txt"));
    assert!(fs.create_dir("/tmp/d"));
    assert!(!fs.create_dir("/tmp/d"));
    assert_eq!(fs.list_dir("/tmp"), vec!["a.txt", "d/"]);
    assert!(fs.delete("/tmp/a.txt"));
    assert_eq!(fs.resolve_path("/tmp/a.txt"), None);
    assert_eq!(fs.list_dir("/tmp"), vec!["d/"]);
    assert!(!fs.delete("/tmp/a.txt"));
    assert!(!fs.delete("/"));
}

// ---------------------------------------------------------------------------
// I/O

#[test]
fn io_events_first_in_first_out() {
    let mut io = IoSubsystem::new();
    assert_eq!(io.pop_event(), None);
    io.push_event(IoEvent::KeyPress('a'));
    io.push_event(IoEvent::KeySpecial(SpecialKey::Enter));
    io.push_event(IoEvent::DeviceReady(3));
    assert_eq!(io.pop_event(), Some(IoEvent::KeyPress('a')));
    assert_eq!(io.pop_event(), Some(IoEvent::KeySpecial(SpecialKey::Enter)));
    assert_eq!(io.pop_event(), Some(IoEvent::DeviceReady(3)));
    assert_eq!(io.pop_event(), None);
}

#[test]
fn io_output_drains_in_order() {
    let mut io = IoSubsystem::new();
    io.write_output("one");
    io.write_output("two");
    assert_eq!(io.drain_output(), vec!["one".to_string(), "two".to_string()]);
    assert!(io.drain_output().is_empty());
}

// ---------------------------------------------------------------------------
// Kernel and system calls

#[test]
fn kernel_boot_state() {
    let k = Kernel::new();
    assert_eq!(k.tick, 0);
    assert_eq!(k.config.tick_rate_ms, 100);
    assert_eq!(k.config.version, "0.1.0");
    assert_eq!(k.boot_messages.len(), 11);
    assert_eq!(k.boot_messages[0], "[BOOT] rust-minios v0.1.0 starting...");
    assert_eq!(k.boot_messages[10], "[BOOT] System ready. Type 'help' for commands.");
    let l = k.processes.list();
    assert_eq!(l.len(), 3);
    assert_eq!((l[0].name.as_str(), l[0].state, l[0].priority), ("kernel", ProcessState::Running, 10));
    assert_eq!((l[1].name.as_str(), l[1].state, l[1].priority), ("init", ProcessState::Ready, 8));
    assert_eq!((l[2].name.as_str(), l[2].state, l[2].priority), ("shell", ProcessState::Ready, 5));
    assert_eq!(l[0].memory_pages, vec![16]);
    assert_eq!(l[1].memory_pages, vec![20]);
    assert_eq!(l[2].memory_pages, vec![22]);
    assert_eq!(k.scheduler.current, Some(0));
    assert_eq!(k.scheduler.ready_queue.iter().copied().collect::<Vec<u32>>(), vec![1, 2]);
    let st = k.memory.get_stats();
    assert_eq!(st.used_process, 8);
    assert_eq!(st.free, 232);
}

#[test]
fn syscall_fork_and_kill() {
    let mut k = Kernel::new();
    let pid = value(k.dispatch(Syscall::Fork { name: "worker".to_string(), priority: 3 }));
    assert_eq!(pid, 3);
    let p = k.processes.get(3).unwrap();
    assert_eq!(p.name, "worker");
    assert_eq!(p.state, ProcessState::Ready);
    assert_eq!(p.memory_pages, vec![24]);
    assert_eq!(k.memory.pages[27].owner, PageOwner::Process(3));
    assert_eq!(k.scheduler.ready_queue.iter().copied().collect::<Vec<u32>>(), vec![1, 2, 3]);
    assert!(is_success(&k.dispatch(Syscall::Kill { pid: 3 })));
    assert_eq!(k.processes.get(3).unwrap().state, ProcessState::Terminated);
    assert_eq!(k.scheduler.ready_queue.iter().copied().collect::<Vec<u32>>(), vec![1, 2]);
    assert_eq!(k.memory.pages[24].owner, PageOwner::Free);
    assert_eq!(k.memory.get_stats().used_process, 8);
}

#[test]
fn syscall_exit_running_process() {
    let mut k = Kernel::new();
    assert!(is_success(&k.dispatch(Syscall::Exit { pid: 0 })));
    assert_eq!(k.scheduler.current, None);
    assert_eq!(k.processes.get(0).unwrap().state, ProcessState::Terminated);
    assert_eq!(k.memory.pages[16].owner, PageOwner::Free);
    k.tick();
    assert_eq!(k.scheduler.current, Some(1));
}

#[test]
fn syscall_exec_and_getpid() {
    let mut k = Kernel::new();
    assert_eq!(value(k.dispatch(Syscall::GetPid)), 0);
    let pid = value(k.dispatch(Syscall::Exec { name: "job".to_string() }));
    assert_eq!(pid, 3);
    let p = k.processes.get(3).unwrap();
    assert_eq!(p.priority, 5);
    assert!(p.memory_pages.is_empty());
    assert_eq!(k.memory.get_stats().used_process, 8);
}

#[test]
fn syscall_list_processes() {
    let mut k = Kernel::new();
    assert_eq!(
        text(k.dispatch(Syscall::ListProcesses)),
        "PID=0 NAME=kernel STATE=Running PRI=10 CPU=0\nPID=1 NAME=init STATE=Ready PRI=8 CPU=0\nPID=2 NAME=shell STATE=Ready PRI=5 CPU=0\n"
    );
}

#[test]
fn syscall_malloc_rounds_up_to_pages() {
    let mut k = Kernel::new();
    assert_eq!(value(k.dispatch(Syscall::Malloc { size: 4096 })), 24);
    assert_eq!(value(k.dispatch(Syscall::Malloc { size: 4097 })), 25);
    assert_eq!(k.memory.pages[26].owner, PageOwner::Process(999));
    assert_eq!(value(k.dispatch(Syscall::Malloc { size: 0 })), 27);
    assert_eq!(error(k.dispatch(Syscall::Malloc { size: 10_000_000 })), "Out of memory");
    assert!(is_success(&k.dispatch(Syscall::Free { ptr: 24 })));
    assert_eq!(k.memory.pages[24].owner, PageOwner::Free);
    assert_eq!(value(k.dispatch(Syscall::Malloc { size: 1 })), 24);
}

#[test]
fn syscall_mem_stats_text() {
    let mut k = Kernel::new();
    assert_eq!(
        text(k.dispatch(Syscall::MemStats)),
        "Total: 1024KB | Kernel: 64KB | Process: 32KB | Free: 928KB | Reserved: 0KB"
    );
}

#[test]
fn syscall_file_operations() {
    let mut k = Kernel::new();
    assert!(is_success(&k.dispatch(Syscall::Open { path: "/home".to_string() })));
    assert_eq!(error(k.dispatch(Syscall::Open { path: "/nope".to_string() })), "No such file: /nope");
    assert_eq!(text(k.dispatch(Syscall::Read { path: "/home/hello.txt".to_string() })), "Hello, World!\n");
    assert_eq!(error(k.dispatch(Syscall::Read { path: "/nope".to_string() })), "Cannot read: /nope");
    assert_eq!(error(k.dispatch(Syscall::Write { path: "/home".to_string(), content: "x".to_string() })), "Cannot write: /home");
    assert!(is_success(&k.dispatch(Syscall::Create { path: "/tmp/f".to_string() })));
    assert_eq!(error(k.dispatch(Syscall::Create { path: "/tmp/f".to_string() })), "Cannot create: /tmp/f");
    assert!(is_success(&k.dispatch(Syscall::Write { path: "/tmp/f".to_string(), content: "data".to_string() })));
    assert_eq!(text(k.dispatch(Syscall::Read { path: "/tmp/f".to_string() })), "data");
    assert!(is_success(&k.dispatch(Syscall::CreateDir { path: "/tmp/d".to_string() })));
    assert_eq!(error(k.dispatch(Syscall::CreateDir { path: "/tmp/d".to_string() })), "Cannot create dir: /tmp/d");
    assert_eq!(text(k.dispatch(Syscall::ListDir { path: "/tmp".to_string() })), "f\nd/");
    assert_eq!(text(k.dispatch(Syscall::ListDir { path: "/nope".to_string() })), "");
    assert!(is_success(&k.dispatch(Syscall::Delete { path: "/tmp/f".to_string() })));
    assert_eq!(error(k.dispatch(Syscall::Delete { path: "/tmp/f".to_string() })), "Cannot delete: /tmp/f");
    assert_eq!(error(k.dispatch(Syscall::Delete { path: "/".to_string() })), "Cannot delete: /");
    assert_eq!(text(k.dispatch(Syscall::GetTree)), k.fs.get_tree());
}

#[test]
fn fs_read_invalid_utf8_lossily() {
    let mut fs = FileSystem::new();
    fs.inodes.get_mut(&6).unwrap().content = vec![0xff, b'a'];
    assert_eq!(fs.read_file("/home/hello.txt"), Some("\u{FFFD}a".to_string()));
}

#[test]
fn fs_delete_then_resolve_fails() {
    let mut fs = FileSystem::new();
    assert!(fs.delete("/home/readme.txt"));
    assert_eq!(fs.resolve_path("/home/readme.txt"), None);
    assert!(!fs.inodes.contains_key(&5));
    assert_eq!(fs.list_dir("/home"), vec!["hello.txt", "demo.sh"]);
    // deleting a directory keeps its entries' inodes, but they are no longer reachable
    assert!(fs.delete("/home"));
    assert_eq!(fs.resolve_path("/home/hello.txt"), None);
    assert!(fs.inodes.contains_key(&6));
}

#[test]
fn fs_delete_root_by_other_spelling() {
    let mut fs = FileSystem::new();
    assert!(fs.delete("//"));
    assert!(!fs.inodes.contains_key(&0));
}

#[test]
fn syscall_refusals_change_nothing() {
    let mut k = Kernel::new();
    let tree = k.fs.get_tree();
    let next = k.fs.next_inode;
    error(k.dispatch(Syscall::Create { path: "/home/hello.txt".to_string() }));
    error(k.dispatch(Syscall::CreateDir { path: "/nope/x".to_string() }));
    error(k.dispatch(Syscall::Delete { path: "/nope".to_string() }));
    error(k.dispatch(Syscall::Write { path: "/home".to_string(), content: "x".to_string() }));
    error(k.dispatch(Syscall::Malloc { size: 2_000_000 }));
    assert_eq!(k.fs.get_tree(), tree);
    assert_eq!(k.fs.next_inode, next);
    assert_eq!(k.memory.get_stats().free, 232);
}

#[test]
fn memory_allocation_conserves_pages() {
    let mut m = MemoryManager::new();
    let before = m.get_stats();
    m.allocate_pages(PageOwner::Process(4), 7);
    let after = m.get_stats();
    assert_eq!(after.free, before.free - 7);
    assert_eq!(after.used_process, before.used_process + 7);
    assert_eq!(after.used_kernel, before.used_kernel);
    assert_eq!(after.free + after.used_kernel + after.used_process + after.reserved, after.total);
}

#[test]
fn created_at_records_the_tick() {
    let mut k = Kernel::new();
    for _ in 0..3 {
        k.tick();
    }
    assert_eq!(k.tick, 3);
    assert!(matches!(k.dispatch(Syscall::Create { path: "/tmp/t.txt".to_string() }), SyscallResult::Success));
    assert!(matches!(k.dispatch(Syscall::CreateDir { path: "/tmp/d".to_string() }), SyscallResult::Success));
    let f = k.fs.resolve_path("/tmp/t.txt").unwrap();
    let d = k.fs.resolve_path("/tmp/d").unwrap();
    assert_eq!(k.fs.inodes[&f].created_at, 3);
    assert_eq!(k.fs.inodes[&d].created_at, 3);
    let pid = value(k.dispatch(Syscall::Fork { name: "job".to_string(), priority: 5 })) as u32;
    assert_eq!(k.processes.get(pid).unwrap().created_at, 3);
    // Boot items date from tick 0.
    assert_eq!(k.processes.get(1).unwrap().created_at, 0);
    let home = k.fs.resolve_path("/home").unwrap();
    assert_eq!(k.fs.inodes[&home].created_at, 0);
}

#[test]
fn file_system_create_at_stamps_the_given_tick() {
    let mut fs = FileSystem::new();
    assert!(fs.create_file_at("/tmp/a", 42));
    assert!(fs.create_dir_at("/tmp/b", 7));
    assert!(!fs.create_dir_at("/tmp/b", 9));
    assert!(fs.create_file("/tmp/c"));
    let a = fs.resolve_path("/tmp/a").unwrap();
    let b = fs.resolve_path("/tmp/b").unwrap();
    let c = fs.resolve_path("/tmp/c").unwrap();
    assert_eq!(fs.inodes[&a].created_at, 42);
    assert_eq!(fs.inodes[&b].created_at, 7);
    assert_eq!(fs.inodes[&c].created_at, 0);
    let mut t = ProcessTable::new();
    let p = t.create_at("p", 3, 11);
    assert_eq!(t.get(p).unwrap().created_at, 11);
}

#[test]
fn tree_has_one_entry_per_line_in_depth_first_order() {
    let mut fs = FileSystem::new();
    assert!(fs.create_dir("/tmp/a"));
    assert!(fs.create_file("/tmp/a/x"));
    assert!(fs.create_file("/tmp/b"));
    let tree = fs.get_tree();
    let lines: Vec<&str> = tree.lines().collect();
    assert_eq!(lines.len(), 11);
    assert_eq!(lines[0], "/");
    assert_eq!(lines[6], "├── tmp/");
    assert_eq!(lines[7], "│   ├── a/");
    assert_eq!(lines[8], "│   │   └── x");
    assert_eq!(lines[9], "│   └── b");
    assert_eq!(lines[10], "└── dev/");
}

#[test]
fn nothing_is_created_under_a_file() {
    let mut fs = FileSystem::new();
    assert!(!fs.can_create("/home/hello.txt/x"));
    assert!(!fs.create_file("/home/hello.txt/x"));
    assert!(!fs.create_dir("/home/hello.txt/d"));
    let id = fs.resolve_path("/home/hello.txt").unwrap();
    assert!(fs.inodes[&id].children.is_empty());
    let mut k = Kernel::new();
    assert!(matches!(
        k.dispatch(Syscall::Create { path: "/home/hello.txt/x".to_string() }),
        SyscallResult::Error(_)
    ));
    assert!(matches!(
        k.dispatch(Syscall::CreateDir { path: "/home/hello.txt/d".to_string() }),
        SyscallResult::Error(_)
    ));
}
