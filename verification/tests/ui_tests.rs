use rust_minios::kernel::memory::PageOwner;
use rust_minios::kernel::process::ProcessState;
use rust_minios::ui::memory_view::{memory_legend, memory_map};
use rust_minios::kernel::Kernel;
use rust_minios::ui::dashboard::{running_name, tab_index};
use rust_minios::ui::editor::Editor;
use rust_minios::ui::fs_view::FsViewState;
use rust_minios::ui::process_view::{gantt_chart, gantt_row, glyph, process_rows, ready_entries, running_info, GANTT_WIDTH};
use rust_minios::ui::{App, AppMode, KeyCode, KeyEvent};

fn key(code: KeyCode) -> KeyEvent {
    KeyEvent { code, ctrl: false, press: true }
}

fn ctrl(c: char) -> KeyEvent {
    KeyEvent { code: KeyCode::Char(c), ctrl: true, press: true }
}

// ---------------------------------------------------------------------------
// Editor

#[test]
fn editor_starts_empty() {
    let e = Editor::new();
    assert_eq!(e.lines, vec![""]);
    assert_eq!(e.filename, None);
    assert_eq!((e.cursor_row, e.cursor_col), (0, 0));
    assert!(!e.modified);
    assert_eq!(e.status_msg, "Ctrl+S: Save | Ctrl+Q: Quit");
}

#[test]
fn editor_typing_and_newline() {
    let mut e = Editor::new();
    e.insert_char('a');
    e.insert_char('b');
    e.insert_char('c');
    assert_eq!(e.lines, vec!["abc"]);
    assert_eq!(e.cursor_col, 3);
    assert!(e.modified);
    e.move_cursor_left();
    e.handle_enter();
    assert_eq!(e.lines, vec!["ab", "c"]);
    assert_eq!((e.cursor_row, e.cursor_col), (1, 0));
    e.handle_backspace();
    assert_eq!(e.lines, vec!["abc"]);
    assert_eq!((e.cursor_row, e.cursor_col), (0, 2));
    e.handle_delete();
    assert_eq!(e.lines, vec!["ab"]);
    e.handle_delete();
    assert_eq!(e.lines, vec!["ab"]);
}

#[test]
fn editor_backspace_undoes_typing() {
    let mut e = Editor::new();
    e.insert_char('x');
    e.insert_char('y');
    e.move_cursor_left();
    e.insert_char('z');
    assert_eq!(e.lines, vec!["xzy"]);
    e.handle_backspace();
    assert_eq!(e.lines, vec!["xy"]);
    assert_eq!(e.cursor_col, 1);
}

#[test]
fn editor_cursor_moves() {
    let mut e = Editor::new();
    for c in "hello".chars() {
        e.insert_char(c);
    }
    e.handle_enter();
    for c in "hi".chars() {
        e.insert_char(c);
    }
    e.move_cursor_up();
    assert_eq!((e.cursor_row, e.cursor_col), (0, 2));
    e.move_cursor_right();
    e.move_cursor_right();
    e.move_cursor_right();
    assert_eq!(e.cursor_col, 5);
    e.move_cursor_right();
    assert_eq!((e.cursor_row, e.cursor_col), (1, 0));
    e.move_cursor_left();
    assert_eq!((e.cursor_row, e.cursor_col), (0, 5));
    e.move_cursor_down();
    assert_eq!((e.cursor_row, e.cursor_col), (1, 2));
    e.move_cursor_down();
    assert_eq!((e.cursor_row, e.cursor_col), (1, 2));
    e.handle_delete();
    assert_eq!(e.lines, vec!["hello", "hi"]);
    e.move_cursor_up();
    e.handle_delete();
    assert_eq!(e.lines, vec!["helo", "hi"]);
}

#[test]
fn editor_delete_joins_next_line() {
    let mut e = Editor::new();
    e.insert_char('a');
    e.handle_enter();
    e.insert_char('b');
    e.move_cursor_up();
    assert_eq!((e.cursor_row, e.cursor_col), (0, 1));
    e.handle_delete();
    assert_eq!(e.lines, vec!["ab"]);
}

#[test]
fn editor_scrolls_to_cursor() {
    let mut e = Editor::new();
    for _ in 0..10 {
        e.handle_enter();
    }
    e.adjust_scroll(4, 10);
    assert_eq!(e.scroll_offset, 7);
    e.cursor_row = 2;
    e.adjust_scroll(4, 10);
    assert_eq!(e.scroll_offset, 2);
    e.cursor_col = 25;
    e.adjust_scroll(4, 10);
    assert_eq!(e.scroll_col, 16);
}

#[test]
fn editor_status_bar() {
    let mut e = Editor::new();
    assert_eq!(e.status_bar_text(), "[No Name] | Row:1 Col:1 | Ctrl+S save | Ctrl+Q quit | Ctrl+S: Save | Ctrl+Q: Quit");
    e.insert_char('q');
    assert_eq!(
        e.status_bar_text(),
        "[No Name] [modified] | Row:1 Col:2 | Ctrl+S save | Ctrl+Q quit | Ctrl+S: Save | Ctrl+Q: Quit"
    );
}

#[test]
fn editor_open_and_save() {
    let mut k = Kernel::new();
    let mut e = Editor::new();
    e.open("/home/readme.txt", &k);
    assert_eq!(e.lines, vec!["Welcome to rust-minios!", "A micro OS simulator built in Rust."]);
    assert_eq!(e.status_msg, "Opened: /home/readme.txt");
    e.open("/tmp/new.txt", &k);
    assert_eq!(e.lines, vec![""]);
    e.insert_char('h');
    e.insert_char('i');
    e.save(&mut k);
    assert!(!e.modified);
    assert_eq!(e.status_msg, "Saved: /tmp/new.txt");
    assert_eq!(k.fs.read_file("/tmp/new.txt"), Some("hi\n".to_string()));
    e.handle_enter();
    e.insert_char('x');
    e.save(&mut k);
    assert_eq!(k.fs.read_file("/tmp/new.txt"), Some("hi\nx\n".to_string()));
}

#[test]
fn editor_save_without_name() {
    let mut k = Kernel::new();
    let mut e = Editor::new();
    e.insert_char('a');
    e.save(&mut k);
    assert_eq!(e.status_msg, "No filename to save to");
    assert!(e.modified);
}

#[test]
fn editor_window_and_title() {
    let mut e = Editor::new();
    for c in "abcdef".chars() {
        e.insert_char(c);
    }
    e.handle_enter();
    e.insert_char('g');
    e.scroll_col = 2;
    assert_eq!(e.window_rows(5), vec![(0, "cdef".to_string()), (1, String::new())]);
    e.scroll_offset = 1;
    assert_eq!(e.window_rows(5), vec![(1, String::new())]);
    assert_eq!(e.title(), " Editor: [No Name]* ");
}

// ---------------------------------------------------------------------------
// Views

#[test]
fn view_helpers_on_boot() {
    let k = Kernel::new();
    assert_eq!(tab_index(AppMode::Dashboard), 0);
    assert_eq!(tab_index(AppMode::Shell), 5);
    assert_eq!(running_name(&k), "kernel");
    assert_eq!(running_info(&k), ("kernel".to_string(), "0".to_string(), 0, 10));
    assert_eq!(ready_entries(&k), vec![(1, "init".to_string()), (2, "shell".to_string())]);
    let row = gantt_row(k.processes.get(1).unwrap());
    assert_eq!(row.len(), GANTT_WIDTH);
    assert_eq!(row[0], Some(ProcessState::New));
    assert_eq!(row[1], None);
    assert_eq!(glyph(ProcessState::Running), '█');
    assert_eq!(glyph(ProcessState::New), '·');
}

#[test]
fn view_idle_when_nothing_runs() {
    let mut k = Kernel::new();
    k.dispatch(rust_minios::kernel::Syscall::Kill { pid: 0 });
    assert_eq!(running_name(&k), "idle");
    assert_eq!(running_info(&k), ("idle".to_string(), "-".to_string(), 0, 1));
}

#[test]
fn fs_browser_lines() {
    let k = Kernel::new();
    let tree = k.fs.get_tree();
    let mut st = FsViewState::new();
    st.selected = 1;
    let lines = st.browser_text(&tree, 3);
    assert_eq!(lines, vec!["  /", "> ├── kernel/", "  ├── home/"]);
    st.scroll = 100;
    let lines = st.browser_text(&tree, 3);
    assert_eq!(st.scroll, 7);
    assert_eq!(lines, vec!["  └── dev/"]);
}

#[test]
fn shell_window_and_input_line() {
    let mut sh = rust_minios::ui::shell::Shell::new();
    sh.handle_input('l');
    assert_eq!(sh.input_line(), "/home$ l");
    assert_eq!(sh.window(2), 1);
    assert_eq!(sh.scroll_offset, 1);
    assert_eq!(sh.window(10), 0);
}

// ---------------------------------------------------------------------------
// Application keys

#[test]
fn app_starts_on_dashboard() {
    let app = App::new(Kernel::new());
    assert_eq!(app.mode, AppMode::Dashboard);
    assert!(!app.should_quit);
    assert_eq!(app.fs_state, FsViewState { selected: 0, scroll: 0 });
}

#[test]
fn app_function_keys_switch_views() {
    let mut app = App::new(Kernel::new());
    let modes = [
        AppMode::Dashboard,
        AppMode::Memory,
        AppMode::Processes,
        AppMode::FileSystem,
        AppMode::Editor,
        AppMode::Shell,
    ];
    for (i, m) in modes.iter().enumerate() {
        app.handle_key(key(KeyCode::F(i as u8 + 1)));
        assert_eq!(app.mode, *m);
    }
    app.handle_key(key(KeyCode::F(7)));
    assert_eq!(app.mode, AppMode::Shell);
}

#[test]
fn app_quit_keys() {
    let mut app = App::new(Kernel::new());
    app.handle_key(key(KeyCode::Char('x')));
    assert!(!app.should_quit);
    app.handle_key(key(KeyCode::Char('q')));
    assert!(app.should_quit);
    let mut app = App::new(Kernel::new());
    app.handle_key(key(KeyCode::F(6)));
    app.handle_key(key(KeyCode::Char('q')));
    assert!(!app.should_quit);
    assert_eq!(app.shell.current_input, "q");
    app.handle_key(ctrl('c'));
    assert!(app.should_quit);
}

#[test]
fn app_ignores_key_release() {
    let mut app = App::new(Kernel::new());
    app.handle_key(KeyEvent { code: KeyCode::F(2), ctrl: false, press: false });
    assert_eq!(app.mode, AppMode::Dashboard);
}

#[test]
fn app_shell_edit_save_roundtrip() {
    let mut app = App::new(Kernel::new());
    app.handle_key(key(KeyCode::F(6)));
    for c in "edit /tmp/a.txt".chars() {
        app.handle_key(key(KeyCode::Char(c)));
    }
    app.handle_key(key(KeyCode::Enter));
    assert_eq!(app.mode, AppMode::Editor);
    assert_eq!(app.editor.filename, Some("/tmp/a.txt".to_string()));
    app.handle_key(key(KeyCode::Char('h')));
    app.handle_key(key(KeyCode::Char('i')));
    app.handle_key(ctrl('s'));
    assert_eq!(app.kernel.fs.read_file("/tmp/a.txt"), Some("hi\n".to_string()));
    app.handle_key(ctrl('q'));
    assert_eq!(app.mode, AppMode::Shell);
    for c in "cat /tmp/a.txt".chars() {
        app.handle_key(key(KeyCode::Char(c)));
    }
    app.handle_key(key(KeyCode::Enter));
    let n = app.shell.output_lines.len();
    assert_eq!(app.shell.output_lines[n - 2], "hi");
}

#[test]
fn app_editor_keys_edit() {
    let mut app = App::new(Kernel::new());
    app.handle_key(key(KeyCode::F(5)));
    app.handle_key(key(KeyCode::Char('a')));
    app.handle_key(ctrl('b'));
    app.handle_key(key(KeyCode::Enter));
    app.handle_key(key(KeyCode::Backspace));
    app.handle_key(key(KeyCode::Left));
    app.handle_key(key(KeyCode::Delete));
    app.handle_key(key(KeyCode::Right));
    app.handle_key(key(KeyCode::Up));
    app.handle_key(key(KeyCode::Down));
    assert_eq!(app.editor.lines, vec!["a"]);
    assert_eq!(app.editor.cursor_col, 1);
}

#[test]
fn app_file_browser_selection() {
    let mut app = App::new(Kernel::new());
    app.handle_key(key(KeyCode::F(4)));
    app.handle_key(key(KeyCode::Up));
    assert_eq!(app.fs_state.selected, 0);
    app.handle_key(key(KeyCode::Down));
    app.handle_key(key(KeyCode::Down));
    assert_eq!(app.fs_state.selected, 2);
    app.handle_key(key(KeyCode::Up));
    assert_eq!(app.fs_state.selected, 1);
}

#[test]
fn app_shell_scroll_keys() {
    let mut app = App::new(Kernel::new());
    app.handle_key(key(KeyCode::F(6)));
    app.handle_key(key(KeyCode::Up));
    assert_eq!(app.shell.scroll_offset, 1);
    app.handle_key(key(KeyCode::Down));
    assert_eq!(app.shell.scroll_offset, 2);
    app.handle_key(key(KeyCode::Char('z')));
    app.handle_key(key(KeyCode::Backspace));
    assert_eq!(app.shell.current_input, "");
}

#[test]
fn app_tick_advances_kernel() {
    let mut app = App::new(Kernel::new());
    app.on_tick();
    assert_eq!(app.kernel.tick, 1);
    assert_eq!(app.kernel.scheduler.current_quantum, 1);
}

#[test]
fn editor_save_then_open_same_lines() {
    let mut k = Kernel::new();
    let mut e = Editor::new();
    e.open("/home/notes.txt", &k);
    for c in "one".chars() {
        e.insert_char(c);
    }
    e.handle_enter();
    e.handle_enter();
    for c in "three".chars() {
        e.insert_char(c);
    }
    e.save(&mut k);
    let saved = e.lines.clone();
    let mut e2 = Editor::new();
    e2.open("/home/notes.txt", &k);
    assert_eq!(e2.lines, saved);
    assert_eq!(e2.lines, vec!["one", "", "three"]);
}

#[test]
fn editor_enter_then_backspace_restores() {
    let mut e = Editor::new();
    for c in "split".chars() {
        e.insert_char(c);
    }
    e.move_cursor_left();
    e.move_cursor_left();
    e.handle_enter();
    assert_eq!(e.lines, vec!["spl", "it"]);
    e.handle_backspace();
    assert_eq!(e.lines, vec!["split"]);
    assert_eq!((e.cursor_row, e.cursor_col), (0, 3));
}

#[test]
fn memory_map_and_legend_at_boot() {
    let k = Kernel::new();
    let map = memory_map(&k.memory);
    assert_eq!(map.len(), 16);
    assert!(map.iter().all(|r| r.len() == 16));
    assert_eq!(map[0][15], PageOwner::Kernel);
    assert_eq!(map[1][0], PageOwner::Process(0));
    assert_eq!(map[1][4], PageOwner::Process(1));
    assert_eq!(map[1][6], PageOwner::Process(2));
    assert_eq!(map[1][8], PageOwner::Free);
    assert_eq!(map[15][15], PageOwner::Free);
    let l = memory_legend(&k.memory);
    assert_eq!((l.free_kb, l.kernel_kb, l.process_kb, l.reserved_kb), (928, 64, 32, 0));
    assert_eq!((l.total_kb, l.used_kb), (1024, 96));
}

#[test]
fn process_rows_at_boot() {
    let mut k = Kernel::new();
    let rows = process_rows(&k);
    let summary: Vec<(u32, String, usize)> = rows.iter().map(|r| (r.pid, r.name.clone(), r.memory_kb)).collect();
    assert_eq!(
        summary,
        vec![(0, "kernel".to_string(), 16), (1, "init".to_string(), 8), (2, "shell".to_string(), 8)]
    );
    assert_eq!(rows[0].state, ProcessState::Running);
    assert_eq!(rows[1].priority, 8);
    k.dispatch(rust_minios::kernel::Syscall::Malloc { size: 4096 });
    k.dispatch(rust_minios::kernel::Syscall::Fork { name: "w".to_string(), priority: 5 });
    let rows = process_rows(&k);
    assert_eq!(rows[3].memory_kb, 16);
    assert_eq!(rows[3].cpu_time, 0);
}

#[test]
fn app_reports_shell_overflow() {
    let mut app = App::new(Kernel::new());
    assert!(app.try_handle_key(key(KeyCode::F(6))));
    for c in "exec job".chars() {
        assert!(app.try_handle_key(key(KeyCode::Char(c))));
    }
    assert!(app.try_handle_key(key(KeyCode::Enter)));
    let n = app.shell.output_lines.len();
    assert!(app.shell.output_lines[n - 2].starts_with("Started process 'job'"));
    app.kernel.fs.next_inode = u32::MAX;
    for c in "touch /tmp/n".chars() {
        assert!(app.try_handle_key(key(KeyCode::Char(c))));
    }
    assert!(!app.try_handle_key(key(KeyCode::Enter)));
}

#[test]
fn gantt_chart_skips_the_kernel() {
    let k = Kernel::new();
    let (rows, note) = gantt_chart(&k);
    assert!(!note);
    let names: Vec<&str> = rows.iter().map(|r| r.name.as_str()).collect();
    assert_eq!(names, vec!["init", "shell"]);
    assert_eq!(rows[0].cells, gantt_row(k.processes.get(1).unwrap()));
    assert_eq!(rows[0].cells.len(), GANTT_WIDTH);
}
