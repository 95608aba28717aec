use rust_minios::kernel::process::ProcessState;
use rust_minios::kernel::Kernel;
use rust_minios::ui::shell::{Shell, MAX_OUTPUT_LINES};
use rust_minios::kernel::Syscall;

/// Runs a command and returns the lines it printed.
fn run(sh: &mut Shell, k: &mut Kernel, cmd: &str) -> Vec<String> {
    let before = sh.output_lines.len();
    sh.execute_command(cmd, k);
    sh.output_lines[before..].to_vec()
}

fn setup() -> (Shell, Kernel) {
    (Shell::new(), Kernel::new())
}

#[test]
fn shell_banner() {
    let sh = Shell::new();
    assert_eq!(
        sh.output_lines,
        vec!["rust-minios shell v0.1.0", "Type 'help' for available commands.", ""]
    );
    assert_eq!(sh.scroll_offset, 2);
    assert_eq!(sh.cwd, "/home");
    assert!(sh.vars.is_empty());
    assert!(sh.history.is_empty());
}

#[test]
fn shell_typing_and_backspace() {
    let mut sh = Shell::new();
    sh.handle_input('l');
    sh.handle_input('s');
    assert_eq!(sh.current_input, "ls");
    sh.handle_backspace();
    assert_eq!(sh.current_input, "l");
    sh.handle_backspace();
    sh.handle_backspace();
    assert_eq!(sh.current_input, "");
}

#[test]
fn shell_scrolling() {
    let mut sh = Shell::new();
    sh.scroll_down();
    assert_eq!(sh.scroll_offset, 2);
    sh.scroll_up();
    sh.scroll_up();
    sh.scroll_up();
    assert_eq!(sh.scroll_offset, 0);
    sh.scroll_down();
    assert_eq!(sh.scroll_offset, 1);
}

#[test]
fn shell_enter_runs_and_records() {
    let (mut sh, mut k) = setup();
    for c in "  pwd  ".chars() {
        sh.handle_input(c);
    }
    let r = sh.handle_enter(&mut k);
    assert!(r.is_none());
    assert_eq!(sh.current_input, "");
    assert_eq!(sh.history, vec!["pwd"]);
    let n = sh.output_lines.len();
    assert_eq!(sh.output_lines[n - 3..].to_vec(), vec!["/home$ pwd", "/home", ""]);
}

#[test]
fn shell_enter_empty_line() {
    let (mut sh, mut k) = setup();
    sh.handle_input(' ');
    assert!(sh.handle_enter(&mut k).is_none());
    assert!(sh.history.is_empty());
    assert_eq!(sh.output_lines.last().unwrap(), "/home$ ");
}

#[test]
fn shell_output_is_capped() {
    let (mut sh, mut k) = setup();
    for _ in 0..250 {
        sh.execute_command("echo x", &mut k);
    }
    assert_eq!(sh.output_lines.len(), MAX_OUTPUT_LINES);
    assert_eq!(sh.scroll_offset, MAX_OUTPUT_LINES - 1);
}

#[test]
fn shell_help() {
    let (mut sh, mut k) = setup();
    let out = run(&mut sh, &mut k, "help");
    assert_eq!(out.len(), 28);
    assert_eq!(out[0], "Available commands:");
    assert_eq!(out[27], "  if A == B         - String equality");
}

#[test]
fn shell_ls() {
    let (mut sh, mut k) = setup();
    assert_eq!(run(&mut sh, &mut k, "ls"), vec!["readme.txt", "hello.txt", "demo.sh"]);
    assert_eq!(run(&mut sh, &mut k, "ls /"), vec!["kernel/", "home/", "tmp/", "dev/"]);
    assert_eq!(run(&mut sh, &mut k, "ls /tmp"), vec!["(empty)"]);
    assert_eq!(run(&mut sh, &mut k, "ls /nowhere"), vec!["(empty)"]);
}

#[test]
fn shell_cat() {
    let (mut sh, mut k) = setup();
    assert_eq!(run(&mut sh, &mut k, "cat hello.txt"), vec!["Hello, World!"]);
    assert_eq!(
        run(&mut sh, &mut k, "cat /home/readme.txt"),
        vec!["Welcome to rust-minios!", "A micro OS simulator built in Rust."]
    );
    assert_eq!(run(&mut sh, &mut k, "cat"), vec!["Usage: cat <file>"]);
    assert_eq!(run(&mut sh, &mut k, "cat nope"), vec!["Error: Cannot read: /home/nope"]);
}

#[test]
fn shell_mkdir_touch_rm() {
    let (mut sh, mut k) = setup();
    assert_eq!(run(&mut sh, &mut k, "mkdir /tmp/x"), vec!["Created directory: /tmp/x"]);
    assert_eq!(run(&mut sh, &mut k, "mkdir /tmp/x"), vec!["Error: Cannot create dir: /tmp/x"]);
    assert_eq!(run(&mut sh, &mut k, "touch notes.txt"), vec!["Created file: /home/notes.txt"]);
    assert_eq!(run(&mut sh, &mut k, "touch notes.txt"), vec!["Error: Cannot create: /home/notes.txt"]);
    assert_eq!(run(&mut sh, &mut k, "rm notes.txt"), vec!["Deleted: /home/notes.txt"]);
    assert_eq!(run(&mut sh, &mut k, "rm notes.txt"), vec!["Error: Cannot delete: /home/notes.txt"]);
    assert_eq!(run(&mut sh, &mut k, "mkdir"), vec!["Usage: mkdir <dir>"]);
    assert_eq!(run(&mut sh, &mut k, "touch"), vec!["Usage: touch <file>"]);
    assert_eq!(run(&mut sh, &mut k, "rm"), vec!["Usage: rm <file>"]);
}

#[test]
fn shell_ps() {
    let (mut sh, mut k) = setup();
    assert_eq!(
        run(&mut sh, &mut k, "ps"),
        vec![
            "PID  NAME             STATE       PRI  CPU",
            "───  ───────────────  ──────────  ───  ───",
            "PID=0 NAME=kernel STATE=Running PRI=10 CPU=0",
            "PID=1 NAME=init STATE=Ready PRI=8 CPU=0",
            "PID=2 NAME=shell STATE=Ready PRI=5 CPU=0",
        ]
    );
}

#[test]
fn shell_exec_and_kill() {
    let (mut sh, mut k) = setup();
    assert_eq!(run(&mut sh, &mut k, "exec worker"), vec!["Started process 'worker' with PID=3"]);
    assert_eq!(k.processes.get(3).unwrap().priority, 5);
    assert_eq!(run(&mut sh, &mut k, "kill 3"), vec!["Killed process 3"]);
    assert_eq!(k.processes.get(3).unwrap().state, ProcessState::Terminated);
    assert_eq!(run(&mut sh, &mut k, "kill  7 "), vec!["Killed process 7"]);
    assert_eq!(run(&mut sh, &mut k, "kill abc"), vec!["Invalid PID"]);
    assert_eq!(run(&mut sh, &mut k, "kill 99999999999"), vec!["Invalid PID"]);
    assert_eq!(run(&mut sh, &mut k, "kill"), vec!["Usage: kill <pid>"]);
    assert_eq!(run(&mut sh, &mut k, "exec"), vec!["Usage: exec <name>"]);
}

#[test]
fn shell_free_and_malloc() {
    let (mut sh, mut k) = setup();
    assert_eq!(
        run(&mut sh, &mut k, "free"),
        vec!["Total: 1024KB | Kernel: 64KB | Process: 32KB | Free: 928KB | Reserved: 0KB"]
    );
    assert_eq!(run(&mut sh, &mut k, "malloc 8192"), vec!["Allocated 8192 bytes at page 24"]);
    assert_eq!(run(&mut sh, &mut k, "malloc 99999999"), vec!["Error: Out of memory"]);
    assert_eq!(run(&mut sh, &mut k, "malloc x"), vec!["Invalid size"]);
    assert_eq!(run(&mut sh, &mut k, "malloc"), vec!["Usage: malloc <bytes>"]);
}

#[test]
fn shell_echo_pwd_cd() {
    let (mut sh, mut k) = setup();
    assert_eq!(run(&mut sh, &mut k, "echo hi there"), vec!["hi there"]);
    assert_eq!(run(&mut sh, &mut k, "echo"), vec![""]);
    assert_eq!(run(&mut sh, &mut k, "pwd"), vec!["/home"]);
    assert!(run(&mut sh, &mut k, "cd /tmp").is_empty());
    assert_eq!(sh.cwd, "/tmp");
    assert!(run(&mut sh, &mut k, "cd").is_empty());
    assert_eq!(sh.cwd, "/home");
    // a missing directory still lists (as empty), so `cd` goes there
    assert!(run(&mut sh, &mut k, "cd missing").is_empty());
    assert_eq!(sh.cwd, "/home/missing");
}

#[test]
fn shell_tree() {
    let (mut sh, mut k) = setup();
    let out = run(&mut sh, &mut k, "tree");
    assert_eq!(out.len(), 8);
    assert_eq!(out[0], "/");
    assert_eq!(out[5], "│   └── demo.sh");
    assert_eq!(out[7], "└── dev/");
}

#[test]
fn shell_edit_asks_for_editor() {
    let (mut sh, mut k) = setup();
    assert_eq!(sh.execute_command("edit notes.txt", &mut k), Some("/home/notes.txt".to_string()));
    assert_eq!(sh.output_lines.last().unwrap(), "Opening editor: /home/notes.txt");
    assert_eq!(sh.execute_command("edit", &mut k), None);
    assert_eq!(sh.output_lines.last().unwrap(), "Usage: edit <file>");
}

#[test]
fn shell_variables() {
    let (mut sh, mut k) = setup();
    assert_eq!(run(&mut sh, &mut k, "set"), vec!["(no variables set)"]);
    assert!(run(&mut sh, &mut k, "set A = 1 ").is_empty());
    assert_eq!(run(&mut sh, &mut k, "B=two"), vec!["B=two"]);
    assert_eq!(run(&mut sh, &mut k, "C=$B-$A"), vec!["C=two-1"]);
    assert_eq!(run(&mut sh, &mut k, "set"), vec!["A=1", "B=two", "C=two-1"]);
    assert_eq!(run(&mut sh, &mut k, "echo $A $B $C $D $ end"), vec!["1 two two-1  $ end"]);
    assert!(run(&mut sh, &mut k, "set A=9").is_empty());
    assert_eq!(run(&mut sh, &mut k, "echo $A"), vec!["9"]);
    assert_eq!(run(&mut sh, &mut k, "unset A"), vec!["unset A"]);
    assert_eq!(run(&mut sh, &mut k, "echo [$A]"), vec!["[]"]);
    assert_eq!(run(&mut sh, &mut k, "set B"), vec!["Usage: set VAR=value  or  set (list all)"]);
    assert_eq!(run(&mut sh, &mut k, "unset"), vec!["Usage: unset <VAR>"]);
}

#[test]
fn shell_unknown_command() {
    let (mut sh, mut k) = setup();
    assert_eq!(
        run(&mut sh, &mut k, "frobnicate now"),
        vec!["Unknown command: frobnicate. Type 'help' for help."]
    );
    assert_eq!(
        run(&mut sh, &mut k, "a-b=c"),
        vec!["Unknown command: a-b=c. Type 'help' for help."]
    );
}

#[test]
fn script_if_else_and_for() {
    let (mut sh, mut k) = setup();
    let script = "# comment\nX=1\nif $X == 1\n  echo one\nelse\n  echo other\nend\nfor W in a b\n  echo w=$W\nend\nif $X != 1\n  echo no\nend\n";
    let before = sh.output_lines.len();
    assert_eq!(sh.run_script(script, &mut k), None);
    assert_eq!(sh.output_lines[before..].to_vec(), vec!["one", "w=a", "w=b"]);
    assert_eq!(sh.vars.len(), 2);
}

#[test]
fn script_nested_blocks() {
    let (mut sh, mut k) = setup();
    let script = "for H in web db\n  for E in s p\n    echo $H-$E\n  end\n  if $H == db\n    echo last\n  end\nend\n";
    let before = sh.output_lines.len();
    sh.run_script(script, &mut k);
    assert_eq!(sh.output_lines[before..].to_vec(), vec!["web-s", "web-p", "db-s", "db-p", "last"]);
}

#[test]
fn script_conditions() {
    let (mut sh, mut k) = setup();
    let script = "if exists /home/hello.txt\n echo yes\nend\nif exists /nope\n echo bad\nelse\n echo missing\nend\nif 0\n echo bad\nend\nif false\n echo bad\nend\nV=ok\nif $V\n echo set\nend\nif $NONE\n echo bad\nend\n";
    let before = sh.output_lines.len();
    sh.run_script(script, &mut k);
    assert_eq!(sh.output_lines[before..].to_vec(), vec!["yes", "missing", "set"]);
}

#[test]
fn script_edit_request_is_returned() {
    let (mut sh, mut k) = setup();
    assert_eq!(sh.run_script("edit a\necho x\n", &mut k), Some("/home/a".to_string()));
    assert_eq!(sh.run_script("edit a\nif 1\n edit b\nend\n", &mut k), Some("/home/b".to_string()));
}

#[test]
fn script_run_nested_file() {
    let (mut sh, mut k) = setup();
    k.dispatch(rust_minios::kernel::Syscall::Create { path: "/tmp/inner.sh".to_string() });
    k.dispatch(rust_minios::kernel::Syscall::Write {
        path: "/tmp/inner.sh".to_string(),
        content: "echo inner $Y\n".to_string(),
    });
    let out = run(&mut sh, &mut k, "run /tmp/inner.sh");
    assert_eq!(
        out,
        vec!["--- Running script: /tmp/inner.sh ---", "inner", "--- Script done: /tmp/inner.sh ---"]
    );
    assert_eq!(run(&mut sh, &mut k, "run /tmp/none.sh"), vec!["run: Cannot read: /tmp/none.sh"]);
    assert_eq!(run(&mut sh, &mut k, "run"), vec!["Usage: run <script>"]);
}

#[test]
fn script_run_self_stops_at_depth_limit() {
    let (mut sh, mut k) = setup();
    k.dispatch(rust_minios::kernel::Syscall::Create { path: "/tmp/loop.sh".to_string() });
    k.dispatch(rust_minios::kernel::Syscall::Write {
        path: "/tmp/loop.sh".to_string(),
        content: "run /tmp/loop.sh\n".to_string(),
    });
    sh.execute_command("run /tmp/loop.sh", &mut k);
    assert!(sh.output_lines.iter().any(|l| l == "run: nesting too deep: /tmp/loop.sh"));
}

#[test]
fn script_demo_file() {
    let (mut sh, mut k) = setup();
    let out = run(&mut sh, &mut k, "run /home/demo.sh");
    assert_eq!(
        out,
        vec![
            "--- Running script: /home/demo.sh ---",
            "=== rust-minios Script Demo ===",
            "Hello from rust-minios!",
            "Created directory: /tmp/demo",
            "Created file: /tmp/demo/output.txt",
            "Script started > /tmp/demo/output.txt",
            "--- Launching workers ---",
            "Started process 'alpha' with PID=3",
            "Started worker: alpha",
            "Started process 'beta' with PID=4",
            "Started worker: beta",
            "Started process 'gamma' with PID=5",
            "Started worker: gamma",
            "--- Process list ---",
            "PID  NAME             STATE       PRI  CPU",
            "───  ───────────────  ──────────  ───  ───",
            "PID=0 NAME=kernel STATE=Running PRI=10 CPU=0",
            "PID=1 NAME=init STATE=Ready PRI=8 CPU=0",
            "PID=2 NAME=shell STATE=Ready PRI=5 CPU=0",
            "PID=3 NAME=alpha STATE=Ready PRI=5 CPU=0",
            "PID=4 NAME=beta STATE=Ready PRI=5 CPU=0",
            "PID=5 NAME=gamma STATE=Ready PRI=5 CPU=0",
            "Output file exists!",
            "--- Memory allocation ---",
            "Allocated 4096 bytes at page 36",
            "Total: 1024KB | Kernel: 64KB | Process: 84KB | Free: 876KB | Reserved: 0KB",
            "=== Demo complete ===",
            "--- Script done: /home/demo.sh ---",
        ]
    );
    assert_eq!(sh.vars.len(), 2);
}

#[test]
fn script_doc_example_exec_worker() {
    let (mut sh, mut k) = setup();
    assert_eq!(run(&mut sh, &mut k, "exec worker"), vec!["Started process 'worker' with PID=3"]);
}

#[test]
fn script_doc_example_expansion() {
    let (mut sh, mut k) = setup();
    sh.run_script("NAME=web\nHOST=prod\necho exec $NAME-worker at $HOST\n", &mut k);
    assert_eq!(sh.output_lines.last().unwrap(), "exec web-worker at prod");
}

#[test]
fn shell_variable_names_are_ascii() {
    let (mut sh, mut k) = setup();
    assert!(run(&mut sh, &mut k, "set NAME=web").is_empty());
    assert_eq!(run(&mut sh, &mut k, "echo $NAME中 $UNDEF! cost $ 5"), vec!["web中 ! cost $ 5"]);
    assert_eq!(run(&mut sh, &mut k, "é1=x"), vec!["Unknown command: é1=x. Type 'help' for help."]);
}

#[test]
fn shell_memfree() {
    let (mut sh, mut k) = setup();
    assert_eq!(run(&mut sh, &mut k, "malloc 4096"), vec!["Allocated 4096 bytes at page 24"]);
    assert_eq!(sh.execute_command("memfree 24", &mut k), None);
    assert_eq!(sh.output_lines.last().unwrap(), "Freed page 24");
    assert_eq!(k.memory.pages[24].owner, rust_minios::kernel::memory::PageOwner::Free);
    assert_eq!(run(&mut sh, &mut k, "memfree"), vec!["Usage: memfree <page>"]);
    assert_eq!(run(&mut sh, &mut k, "memfree x"), vec!["Invalid page"]);
}

#[test]
fn shell_stops_when_inode_numbers_run_out() {
    let (mut sh, mut k) = setup();
    k.fs.next_inode = u32::MAX;
    // Nothing new is numbered: these run as usual.
    assert!(k.can_dispatch(&Syscall::Create { path: "/home".to_string() }));
    assert_eq!(sh.try_execute_command("touch /home", &mut k).unwrap(), None);
    assert!(sh.output_lines.last().unwrap().starts_with("Error"));
    assert_eq!(sh.try_execute_command("mkdir /nowhere/dir", &mut k).unwrap(), None);
    // A new file would need a number past the largest one.
    assert!(!k.can_dispatch(&Syscall::Create { path: "/home/new.txt".to_string() }));
    assert!(sh.try_execute_command("touch /home/new.txt", &mut k).is_err());
    assert!(k.fs.resolve_path("/home/new.txt").is_none());
}

#[test]
fn script_stops_at_the_overflowing_line() {
    let (mut sh, mut k) = setup();
    k.fs.next_inode = u32::MAX - 1;
    let r = sh.try_run_script("touch /home/a\ntouch /home/b\necho after", &mut k);
    assert!(r.is_err());
    assert!(k.fs.resolve_path("/home/a").is_some());
    assert!(k.fs.resolve_path("/home/b").is_none());
    assert!(!sh.output_lines.iter().any(|l| l == "after"));
}

#[test]
fn enter_reports_overflow() {
    let (mut sh, mut k) = setup();
    k.fs.next_inode = u32::MAX;
    for c in "touch x".chars() {
        sh.handle_input(c);
    }
    assert!(sh.try_handle_enter(&mut k).is_err());
    for c in "echo ok".chars() {
        sh.handle_input(c);
    }
    assert_eq!(sh.try_handle_enter(&mut k).unwrap(), None);
    assert_eq!(sh.output_lines[sh.output_lines.len() - 2], "ok");
}

#[test]
fn if_else_runs_the_chosen_branch() {
    for (cond, branch) in [("a == a", "echo one\necho two"), ("a == b", "echo three")] {
        let (mut s1, mut k1) = setup();
        let script = format!("if {}\necho one\necho two\nelse\necho three\nend", cond);
        s1.run_script(&script, &mut k1);
        let (mut s2, mut k2) = setup();
        s2.run_script(branch, &mut k2);
        assert_eq!(s1.output_lines, s2.output_lines);
    }
}

#[test]
fn shell_cannot_create_under_a_file() {
    let (mut sh, mut k) = setup();
    assert_eq!(run(&mut sh, &mut k, "touch hello.txt/x"), vec!["Error: Cannot create: /home/hello.txt/x"]);
    assert_eq!(run(&mut sh, &mut k, "mkdir hello.txt/d"), vec!["Error: Cannot create dir: /home/hello.txt/d"]);
}
