pub mod dashboard;
pub mod editor;
pub mod fs_view;
pub mod memory_view;
pub mod process_view;
pub mod script;
pub mod shell;

use vstd::prelude::*;
use crate::kernel::{Kernel, KernelView};
use crate::kernel::fs::create_ok;
use crate::kernel::scheduler::{tick_spec, tick_in_range};
use self::editor::{
    Editor, EditorView, empty_editor, insert_ok, insert_spec, split_ok, newline_spec, backspace_ok, backspace_spec,
    delete_ok, delete_spec, up_ok, up_spec, down_ok, down_spec, left_ok, left_spec, right_spec, opened_view,
    saved_view, saved_kernel, boundary, clamp, cursor_line,
};
use self::fs_view::FsViewState;
use self::shell::{Shell, ShellView, initial_shell, enter_spec};

verus! {

/// The view the application shows.
#[derive(Clone, Copy, Debug, PartialEq, Eq, Structural)]
pub enum AppMode {
    Dashboard,
    Memory,
    Processes,
    FileSystem,
    Editor,
    Shell,
}

/// A key as the application receives it.
#[derive(Clone, Copy, Debug, PartialEq, Eq, Structural)]
pub enum KeyCode {
    Char(char),
    F(u8),
    Up,
    Down,
    Left,
    Right,
    Enter,
    Backspace,
    Delete,
    Other,
}

/// A key event: the key, whether Control was held, and whether the key went down (rather
/// than repeating or going up).
#[derive(Clone, Copy, Debug, PartialEq, Eq, Structural)]
pub struct KeyEvent {
    pub code: KeyCode,
    pub ctrl: bool,
    pub press: bool,
}

/// The whole application: the machine and the views onto it.
pub struct App {
    pub kernel: Kernel,
    pub mode: AppMode,
    pub shell: Shell,
    pub editor: Editor,
    pub fs_state: FsViewState,
    pub should_quit: bool,
}

/// Abstract value of the application.
#[verifier::ext_equal]
pub struct AppView {
    pub kernel: KernelView,
    pub mode: AppMode,
    pub shell: ShellView,
    pub editor: EditorView,
    pub fs_state: FsViewState,
    pub should_quit: bool,
}

/// The view that function key `F(n)` switches to, for `n` from 1 to 6.
pub open spec fn function_key_mode(code: KeyCode) -> Option<AppMode> {
    match code {
        KeyCode::F(n) => if n == 1 {
            Some(AppMode::Dashboard)
        } else if n == 2 {
            Some(AppMode::Memory)
        } else if n == 3 {
            Some(AppMode::Processes)
        } else if n == 4 {
            Some(AppMode::FileSystem)
        } else if n == 5 {
            Some(AppMode::Editor)
        } else if n == 6 {
            Some(AppMode::Shell)
        } else {
            None
        },
        _ => None,
    }
}

/// A key in the shell view: typing, deleting, running the line (and opening the editor on
/// a file that the command names), scrolling.
pub open spec fn shell_key(a: AppView, code: KeyCode) -> AppView {
    let sh = a.shell;
    match code {
        KeyCode::Char(c) => AppView { shell: ShellView { input: sh.input.push(c), ..sh }, ..a },
        KeyCode::Backspace => AppView {
            shell: ShellView { input: if sh.input.len() > 0 { sh.input.drop_last() } else { sh.input }, ..sh },
            ..a
        },
        KeyCode::Enter => match enter_spec(sh, a.kernel) {
            Some(o) => match o.edit {
                Some(f) => AppView {
                    shell: o.shell,
                    kernel: o.kernel,
                    editor: opened_view(o.kernel, f),
                    mode: AppMode::Editor,
                    ..a
                },
                None => AppView { shell: o.shell, kernel: o.kernel, ..a },
            },
            None => a,
        },
        KeyCode::Up => AppView {
            shell: ShellView { scroll: if sh.scroll > 0 { (sh.scroll - 1) as usize } else { sh.scroll }, ..sh },
            ..a
        },
        KeyCode::Down => AppView {
            shell: ShellView { scroll: if sh.scroll + 1 < sh.output.len() { (sh.scroll + 1) as usize } else { sh.scroll }, ..sh },
            ..a
        },
        _ => a,
    }
}

/// A key in the editor view: Ctrl+S saves, Ctrl+Q returns to the shell, other keys edit
/// and move the cursor.
pub open spec fn editor_key(a: AppView, key: KeyEvent) -> AppView {
    let e = a.editor;
    if key.ctrl && key.code == KeyCode::Char('s') {
        AppView { editor: saved_view(e), kernel: saved_kernel(a.kernel, e), ..a }
    } else if key.ctrl && key.code == KeyCode::Char('q') {
        AppView { mode: AppMode::Shell, ..a }
    } else {
        match key.code {
            KeyCode::Char(c) => AppView { editor: insert_spec(e, c), ..a },
            KeyCode::Enter => AppView { editor: newline_spec(e), ..a },
            KeyCode::Backspace => AppView { editor: backspace_spec(e), ..a },
            KeyCode::Delete => AppView { editor: delete_spec(e), ..a },
            KeyCode::Up => AppView { editor: up_spec(e), ..a },
            KeyCode::Down => AppView { editor: down_spec(e), ..a },
            KeyCode::Left => AppView { editor: left_spec(e), ..a },
            KeyCode::Right => AppView { editor: right_spec(e), ..a },
            _ => a,
        }
    }
}

/// When an editor key can be handled: the editing operation it starts can proceed.
pub open spec fn editor_key_ok(a: AppView, key: KeyEvent) -> bool {
    let e = a.editor;
    if key.ctrl && key.code == KeyCode::Char('s') {
        e.filename matches Some(f) ==> (create_ok(a.kernel.inodes, f) ==> a.kernel.next_inode < u32::MAX)
    } else if key.ctrl && key.code == KeyCode::Char('q') {
        true
    } else {
        match key.code {
            KeyCode::Char(_) => insert_ok(e),
            KeyCode::Enter => split_ok(e),
            KeyCode::Backspace => backspace_ok(e),
            KeyCode::Delete => delete_ok(e),
            KeyCode::Up => up_ok(e),
            KeyCode::Down => down_ok(e),
            KeyCode::Left => left_ok(e),
            _ => true,
        }
    }
}

/// The application after a key: releases and repeats are ignored, Ctrl+C quits, F1 to F6
/// switch views, `q` quits from the dashboard, and the shell, editor and file system views
/// handle their own keys.
pub open spec fn key_spec(a: AppView, key: KeyEvent) -> AppView {
    if !key.press {
        a
    } else if key.ctrl && key.code == KeyCode::Char('c') {
        AppView { should_quit: true, ..a }
    } else {
        match function_key_mode(key.code) {
            Some(m) => AppView { mode: m, ..a },
            None => match a.mode {
                AppMode::Dashboard => if key.code == KeyCode::Char('q') { AppView { should_quit: true, ..a } } else { a },
                AppMode::Shell => shell_key(a, key.code),
                AppMode::Editor => editor_key(a, key),
                AppMode::FileSystem => match key.code {
                    KeyCode::Up => AppView {
                        fs_state: FsViewState {
                            selected: if a.fs_state.selected > 0 { (a.fs_state.selected - 1) as usize } else { 0 },
                            ..a.fs_state
                        },
                        ..a
                    },
                    KeyCode::Down => AppView {
                        fs_state: FsViewState { selected: (a.fs_state.selected + 1) as usize, ..a.fs_state },
                        ..a
                    },
                    _ => a,
                },
                _ => a,
            },
        }
    }
}

/// Whether a key runs the shell's typed line.
pub open spec fn runs_shell_line(a: AppView, key: KeyEvent) -> bool {
    &&& key.press
    &&& a.mode == AppMode::Shell
    &&& key.code == KeyCode::Enter
}

/// When a key can be handled, apart from what running a shell line needs: the editing
/// operation it starts can proceed, and scroll and selection positions can grow.
pub open spec fn key_ready(a: AppView, key: KeyEvent) -> bool {
    if !key.press || (key.ctrl && key.code == KeyCode::Char('c')) || function_key_mode(key.code) is Some {
        true
    } else {
        match a.mode {
            AppMode::Shell => key.code == KeyCode::Down ==> a.shell.scroll < usize::MAX,
            AppMode::Editor => editor_key_ok(a, key),
            AppMode::FileSystem => key.code == KeyCode::Down ==> a.fs_state.selected < usize::MAX,
            _ => true,
        }
    }
}

/// When a key can be handled: as `key_ready` says, and a shell line that it runs keeps the
/// machine's counters in range.
pub open spec fn key_ok(a: AppView, key: KeyEvent) -> bool {
    &&& key_ready(a, key)
    &&& runs_shell_line(a, key) ==> enter_spec(a.shell, a.kernel) is Some
}

impl App {
    pub open spec fn view(&self) -> AppView {
        AppView {
            kernel: self.kernel@,
            mode: self.mode,
            shell: self.shell@,
            editor: self.editor@,
            fs_state: self.fs_state,
            should_quit: self.should_quit,
        }
    }

    /// Well-formed when the machine and the shell are.
    pub open spec fn wf(&self) -> bool {
        &&& self.kernel.wf()
        &&& self.shell.wf()
    }

    /// The application on `kernel`, showing the dashboard, with a new shell and editor.
    pub fn new(kernel: Kernel) -> (app: Self)
        ensures
            app@ == (AppView {
                kernel: kernel@,
                mode: AppMode::Dashboard,
                shell: initial_shell(),
                editor: empty_editor(),
                fs_state: FsViewState { selected: 0, scroll: 0 },
                should_quit: false,
            }),
            app.wf() == kernel.wf(),
    {
        App {
            kernel,
            mode: AppMode::Dashboard,
            shell: Shell::new(),
            editor: Editor::new(),
            fs_state: FsViewState::new(),
            should_quit: false,
        }
    }

    /// Handles a key.
    pub fn handle_key(&mut self, key: KeyEvent)
        requires
            old(self).wf(),
            key_ok(old(self)@, key),
        ensures
            final(self).wf(),
            final(self)@ == key_spec(old(self)@, key),
    {
        let _ = self.try_handle_key(key);
    }

    /// Handles a key that `accepts` admits. Returns `false`, with the machine still
    /// well-formed, when the shell line that the key runs stops because a counter of the
    /// machine would go past its largest value.
    pub fn try_handle_key(&mut self, key: KeyEvent) -> (ok: bool)
        requires
            old(self).wf(),
            key_ready(old(self)@, key),
        ensures
            final(self).kernel.wf(),
            ok == key_ok(old(self)@, key),
            ok ==> final(self).wf() && final(self)@ == key_spec(old(self)@, key),
    {
        if !key.press {
            return true;
        }
        if key.ctrl {
            if let KeyCode::Char(c) = key.code {
                if c == 'c' {
                    self.should_quit = true;
                    return true;
                }
            }
        }
        if let KeyCode::F(n) = key.code {
            if n == 1 {
                self.mode = AppMode::Dashboard;
                return true;
            } else if n == 2 {
                self.mode = AppMode::Memory;
                return true;
            } else if n == 3 {
                self.mode = AppMode::Processes;
                return true;
            } else if n == 4 {
                self.mode = AppMode::FileSystem;
                return true;
            } else if n == 5 {
                self.mode = AppMode::Editor;
                return true;
            } else if n == 6 {
                self.mode = AppMode::Shell;
                return true;
            }
        }
        match self.mode {
            AppMode::Dashboard => {
                if let KeyCode::Char(c) = key.code {
                    if c == 'q' {
                        self.should_quit = true;
                    }
                }
            },
            AppMode::Shell => {
                return self.handle_shell_key(key);
            },
            AppMode::Editor => self.handle_editor_key(key),
            AppMode::FileSystem => {
                match key.code {
                    KeyCode::Up => {
                        if self.fs_state.selected > 0 {
                            self.fs_state.selected = self.fs_state.selected - 1;
                        }
                    },
                    KeyCode::Down => {
                        self.fs_state.selected = self.fs_state.selected + 1;
                    },
                    _ => {},
                }
            },
            _ => {},
        }
        true
    }

    /// Handles a key in the shell view.
    fn handle_shell_key(&mut self, key: KeyEvent) -> (ok: bool)
        requires
            old(self).wf(),
            old(self).mode == AppMode::Shell,
            key_ready(old(self)@, key),
            key.press,
            !(key.ctrl && key.code == KeyCode::Char('c')),
            function_key_mode(key.code) is None,
        ensures
            final(self).kernel.wf(),
            ok == key_ok(old(self)@, key),
            ok ==> final(self).wf() && final(self)@ == shell_key(old(self)@, key.code),
    {
        match key.code {
            KeyCode::Char(c) => self.shell.handle_input(c),
            KeyCode::Backspace => self.shell.handle_backspace(),
            KeyCode::Enter => {
                match self.shell.try_handle_enter(&mut self.kernel) {
                    Ok(edit_file) => {
                        if let Some(filename) = edit_file {
                            self.editor.open(filename.as_str(), &self.kernel);
                            self.mode = AppMode::Editor;
                        }
                    },
                    Err(_) => return false,
                }
            },
            KeyCode::Up => self.shell.scroll_up(),
            KeyCode::Down => self.shell.scroll_down(),
            _ => {},
        }
        true
    }

    /// Handles a key in the editor view.
    fn handle_editor_key(&mut self, key: KeyEvent)
        requires
            old(self).wf(),
            old(self).mode == AppMode::Editor,
            key_ok(old(self)@, key),
            key.press,
            !(key.ctrl && key.code == KeyCode::Char('c')),
            function_key_mode(key.code) is None,
        ensures
            final(self).wf(),
            final(self)@ == editor_key(old(self)@, key),
    {
        if key.ctrl {
            if let KeyCode::Char(c) = key.code {
                if c == 's' {
                    self.editor.save(&mut self.kernel);
                    return;
                } else if c == 'q' {
                    self.mode = AppMode::Shell;
                    return;
                }
            }
        }
        match key.code {
            KeyCode::Char(c) => self.editor.insert_char(c),
            KeyCode::Enter => self.editor.handle_enter(),
            KeyCode::Backspace => self.editor.handle_backspace(),
            KeyCode::Delete => self.editor.handle_delete(),
            KeyCode::Up => self.editor.move_cursor_up(),
            KeyCode::Down => self.editor.move_cursor_down(),
            KeyCode::Left => self.editor.move_cursor_left(),
            KeyCode::Right => self.editor.move_cursor_right(),
            _ => {},
        }
    }

    /// Whether the key can be handled, apart from what running a shell line needs.
    pub fn accepts(&self, key: KeyEvent) -> (b: bool)
        ensures
            b == key_ready(self@, key),
    {
        if !key.press {
            return true;
        }
        match key.code {
            KeyCode::Char(c) => {
                if key.ctrl && c == 'c' {
                    return true;
                }
            },
            KeyCode::F(n) => {
                if 1 <= n && n <= 6 {
                    return true;
                }
            },
            _ => {},
        }
        match self.mode {
            AppMode::Shell => match key.code {
                KeyCode::Down => self.shell.scroll_offset < usize::MAX,
                _ => true,
            },
            AppMode::Editor => self.editor_accepts(key),
            AppMode::FileSystem => match key.code {
                KeyCode::Down => self.fs_state.selected < usize::MAX,
                _ => true,
            },
            _ => true,
        }
    }

    /// Whether the editor can take the key.
    fn editor_accepts(&self, key: KeyEvent) -> (b: bool)
        ensures
            b == editor_key_ok(self@, key),
    {
        if key.ctrl {
            if let KeyCode::Char(c) = key.code {
                if c == 's' {
                    return match &self.editor.filename {
                        Some(f) => !self.kernel.fs.can_create(f.as_str()) || self.kernel.fs.next_inode < u32::MAX,
                        None => true,
                    };
                } else if c == 'q' {
                    return true;
                }
            }
        }
        let e = &self.editor;
        let row = e.cursor_row;
        let col = e.cursor_col;
        let n = e.lines.len();
        match key.code {
            KeyCode::Char(_) => {
                if row < n {
                    let line = e.lines[row].as_str();
                    let len = line.len();
                    let c = if col < len { col } else { len };
                    line.is_char_boundary(c) && col < usize::MAX
                } else {
                    true
                }
            },
            KeyCode::Enter => {
                if row < n {
                    let line = e.lines[row].as_str();
                    let len = line.len();
                    let c = if col < len { col } else { len };
                    line.is_char_boundary(c)
                } else {
                    true
                }
            },
            KeyCode::Backspace => {
                if col > 0 {
                    if row < n {
                        let line = e.lines[row].as_str();
                        let len = line.len();
                        let c = if col < len { col } else { len };
                        c == 0 || line.is_char_boundary(c - 1)
                    } else {
                        false
                    }
                } else {
                    row == 0 || row < n
                }
            },
            KeyCode::Delete => {
                if row == usize::MAX {
                    false
                } else if row < n {
                    let line = e.lines[row].as_str();
                    let len = line.len();
                    let c = if col < len { col } else { len };
                    c >= len || line.is_char_boundary(c)
                } else {
                    true
                }
            },
            KeyCode::Up => row == 0 || row - 1 < n,
            KeyCode::Down => row < usize::MAX,
            KeyCode::Left => !(col == 0 && row > 0) || row - 1 < n,
            _ => true,
        }
    }

    /// Advances the machine by one tick.
    pub fn on_tick(&mut self)
        requires
            old(self).kernel.tick < u64::MAX,
            tick_in_range(old(self)@.kernel.scheduler, old(self)@.kernel.processes),
        ensures
            final(self)@ == (AppView {
                kernel: KernelView {
                    tick: (old(self)@.kernel.tick + 1) as u64,
                    scheduler: tick_spec(old(self)@.kernel.scheduler, old(self)@.kernel.processes).0,
                    processes: tick_spec(old(self)@.kernel.scheduler, old(self)@.kernel.processes).1,
                    ..old(self)@.kernel
                },
                ..old(self)@
            }),
            old(self).wf() ==> final(self).wf(),
    {
        self.kernel.tick();
    }
}

} // verus!
