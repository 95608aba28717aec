use vstd::prelude::*;
use crate::kernel::{Kernel, KernelView};
use crate::ui::AppMode;
use crate::ui::shell::Shell;
use crate::ui::editor::Editor;
use crate::text::{chars_of, push_all, push_str, string_of, texts_of};

verus! {

/// Position of a view's tab in the tab bar.
pub open spec fn tab_spec(mode: AppMode) -> usize {
    match mode {
        AppMode::Dashboard => 0,
        AppMode::Memory => 1,
        AppMode::Processes => 2,
        AppMode::FileSystem => 3,
        AppMode::Editor => 4,
        AppMode::Shell => 5,
    }
}

/// The tab that shows `mode`.
pub fn tab_index(mode: AppMode) -> (i: usize)
    ensures
        i == tab_spec(mode),
{
    match mode {
        AppMode::Dashboard => 0,
        AppMode::Memory => 1,
        AppMode::Processes => 2,
        AppMode::FileSystem => 3,
        AppMode::Editor => 4,
        AppMode::Shell => 5,
    }
}

/// Name of the running process, or `idle` when none runs.
pub open spec fn running_name_spec(k: KernelView) -> Seq<char> {
    match k.scheduler.current {
        Some(pid) => if k.processes.contains_key(pid) { k.processes[pid].name } else { "idle"@ },
        None => "idle"@,
    }
}

/// The name of the running process, or `idle`.
pub fn running_name(kernel: &Kernel) -> (s: String)
    ensures
        s@ == running_name_spec(kernel@),
{
    match kernel.scheduler.current {
        Some(pid) => match kernel.processes.get(pid) {
            Some(p) => p.name.clone(),
            None => String::from_str("idle"),
        },
        None => String::from_str("idle"),
    }
}

/// First output line shown in a window `height` lines tall: the scroll position, at most
/// so far that the window is filled to the last line.
pub open spec fn window_start(scroll: usize, total: nat, height: usize) -> usize {
    let max_start: int = if total > height { total - height } else { 0 };
    if scroll < max_start { scroll } else { max_start as usize }
}

/// The rows of the editor window: the lines from the scroll row on, at most `rows` of them,
/// each with its index and its characters from the scroll column on.
pub open spec fn editor_rows_spec(lines: Seq<Seq<char>>, row: usize, col: usize, rows: usize) -> Seq<(usize, Seq<char>)> {
    let avail: int = lines.len() - row;
    let n: int = if avail < 0 { 0 } else if rows < avail { rows as int } else { avail };
    Seq::new(
        n as nat,
        |i: int| ((i + row) as usize, if col < lines[i + row].len() { lines[i + row].skip(col as int) } else { Seq::empty() }),
    )
}

impl Shell {
    /// Keeps the scroll position within a window `height` lines tall and returns it: the
    /// first output line to show.
    pub fn window(&mut self, height: usize) -> (start: usize)
        ensures
            start == window_start(old(self)@.scroll, old(self)@.output.len(), height),
            final(self)@ == (crate::ui::shell::ShellView { scroll: start, ..old(self)@ }),
    {
        let total = self.output_lines.len();
        let max_start = if total > height { total - height } else { 0 };
        let start = if self.scroll_offset < max_start { self.scroll_offset } else { max_start };
        self.scroll_offset = start;
        start
    }

    /// The input line as shown: the working directory, `$ ` and the typed text.
    pub fn input_line(&self) -> (s: String)
        ensures
            s@ == self@.cwd + "$ "@ + self@.input,
    {
        let mut v = chars_of(self.cwd.as_str());
        push_str(&mut v, "$ ");
        let ic = chars_of(self.current_input.as_str());
        push_all(&mut v, ic.as_slice());
        string_of(v.as_slice())
    }
}

impl Editor {
    /// The lines in the editor window: from the scroll row on, at most `rows`, each with its
    /// index and its characters from the scroll column on.
    pub fn window_rows(&self, rows: usize) -> (r: Vec<(usize, String)>)
        ensures
            r@.len() == editor_rows_spec(self@.lines, self.scroll_offset, self.scroll_col, rows).len(),
            forall|i: int| 0 <= i < r@.len() ==> {
                let want = editor_rows_spec(self@.lines, self.scroll_offset, self.scroll_col, rows)[i];
                &&& (#[trigger] r@[i]).0 == want.0
                &&& r@[i].1@ == want.1
            },
    {
        let ghost want = editor_rows_spec(self@.lines, self.scroll_offset, self.scroll_col, rows);
        let total = self.lines.len();
        let row = self.scroll_offset;
        let col = self.scroll_col;
        let n: usize = if row >= total { 0 } else if rows < total - row { rows } else { total - row };
        let mut out: Vec<(usize, String)> = Vec::new();
        let mut i: usize = 0;
        while i < n
            invariant
                i <= n,
                n == want.len(),
                n > 0 ==> row + n <= total,
                total == self.lines@.len(),
                row == self.scroll_offset,
                col == self.scroll_col,
                want == editor_rows_spec(self@.lines, row, col, rows),
                out@.len() == i,
                forall|j: int| 0 <= j < i ==> (#[trigger] out@[j]).0 == want[j].0 && out@[j].1@ == want[j].1,
            decreases n - i,
        {
            let lc = chars_of(self.lines[row + i].as_str());
            let text = if col < lc.len() { string_of(&lc.as_slice()[col..lc.len()]) } else { String::new() };
            proof {
                assert(texts_of(self.lines@)[row + i] == lc@);
                if col < lc@.len() {
                    assert(lc@.subrange(col as int, lc@.len() as int) =~= lc@.skip(col as int));
                }
            }
            out.push((row + i, text));
            i = i + 1;
        }
        out
    }

    /// The editor window's title: the file name (or `[No Name]`), starred when modified.
    pub fn title(&self) -> (s: String)
        ensures
            s@ == " Editor: "@ + (match self@.filename {
                Some(f) => f,
                None => "[No Name]"@,
            }) + (if self@.modified { "* "@ } else { " "@ }),
    {
        let mut v: Vec<char> = chars_of(" Editor: ");
        match &self.filename {
            Some(f) => {
                let fc = chars_of(f.as_str());
                push_all(&mut v, fc.as_slice());
            },
            None => push_str(&mut v, "[No Name]"),
        }
        if self.modified {
            push_str(&mut v, "* ");
        } else {
            push_str(&mut v, " ");
        }
        string_of(v.as_slice())
    }
}

} // verus!
