use vstd::prelude::*;

verus! {

/// What a system call hands back.
pub enum SyscallResult {
    Success,
    Error(String),
    Value(i64),
    Str(String),
    Bytes(Vec<u8>),
}

/// A request to the kernel.
pub enum Syscall {
    Fork { name: String, priority: u8 },
    Exit { pid: u32 },
    Kill { pid: u32 },
    Exec { name: String },
    GetPid,
    ListProcesses,
    Malloc { size: usize },
    Free { ptr: usize },
    MemStats,
    Open { path: String },
    Read { path: String },
    Write { path: String, content: String },
    Create { path: String },
    CreateDir { path: String },
    Delete { path: String },
    ListDir { path: String },
    GetTree,
}

/// Abstract value of a system call result.
pub enum ResultView {
    Success,
    Error(Seq<char>),
    Value(i64),
    Str(Seq<char>),
    Bytes(Seq<u8>),
}

/// Abstract value of a system call.
pub enum SyscallView {
    Fork { name: Seq<char>, priority: u8 },
    Exit { pid: u32 },
    Kill { pid: u32 },
    Exec { name: Seq<char> },
    GetPid,
    ListProcesses,
    Malloc { size: usize },
    Free { ptr: usize },
    MemStats,
    Open { path: Seq<char> },
    Read { path: Seq<char> },
    Write { path: Seq<char>, content: Seq<char> },
    Create { path: Seq<char> },
    CreateDir { path: Seq<char> },
    Delete { path: Seq<char> },
    ListDir { path: Seq<char> },
    GetTree,
}

impl SyscallResult {
    pub open spec fn view(&self) -> ResultView {
        match self {
            SyscallResult::Success => ResultView::Success,
            SyscallResult::Error(s) => ResultView::Error(s@),
            SyscallResult::Value(v) => ResultView::Value(*v),
            SyscallResult::Str(s) => ResultView::Str(s@),
            SyscallResult::Bytes(b) => ResultView::Bytes(b@),
        }
    }
}

impl Syscall {
    pub open spec fn view(&self) -> SyscallView {
        match self {
            Syscall::Fork { name, priority } => SyscallView::Fork { name: name@, priority: *priority },
            Syscall::Exit { pid } => SyscallView::Exit { pid: *pid },
            Syscall::Kill { pid } => SyscallView::Kill { pid: *pid },
            Syscall::Exec { name } => SyscallView::Exec { name: name@ },
            Syscall::GetPid => SyscallView::GetPid,
            Syscall::ListProcesses => SyscallView::ListProcesses,
            Syscall::Malloc { size } => SyscallView::Malloc { size: *size },
            Syscall::Free { ptr } => SyscallView::Free { ptr: *ptr },
            Syscall::MemStats => SyscallView::MemStats,
            Syscall::Open { path } => SyscallView::Open { path: path@ },
            Syscall::Read { path } => SyscallView::Read { path: path@ },
            Syscall::Write { path, content } => SyscallView::Write { path: path@, content: content@ },
            Syscall::Create { path } => SyscallView::Create { path: path@ },
            Syscall::CreateDir { path } => SyscallView::CreateDir { path: path@ },
            Syscall::Delete { path } => SyscallView::Delete { path: path@ },
            Syscall::ListDir { path } => SyscallView::ListDir { path: path@ },
            Syscall::GetTree => SyscallView::GetTree,
        }
    }
}

} // verus!
