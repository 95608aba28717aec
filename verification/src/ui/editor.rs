use vstd::prelude::*;
use crate::kernel::{Kernel, KernelView, Syscall, SyscallView, dispatch_state, syscall_in_range};
use crate::kernel::fs::{resolve_spec, fs_wf, write_ok, create_ok, create_spec, add_child, split_path_spec, segments, InodeType, law_read_after_write, law_create_then_resolve, lemma_walk_result, lemma_add_child_wf};
use crate::text::{chars_of, push_all, push_str, push_dec, string_of, dec, texts_of, text_lines, join, strip_cr, lemma_text_lines_join};
use vstd::utf8::{encode_utf8, decode_utf8, is_char_boundary};

verus! {

broadcast use vstd::utf8::encode_utf8_valid_utf8, vstd::utf8::encode_utf8_decode_utf8;

/// A line-based text editor on one file; the cursor column is a byte offset into its line.
pub struct Editor {
    pub filename: Option<String>,
    pub lines: Vec<String>,
    pub cursor_row: usize,
    pub cursor_col: usize,
    pub scroll_offset: usize,
    pub scroll_col: usize,
    pub modified: bool,
    pub status_msg: String,
}

/// Abstract value of the editor.
#[verifier::ext_equal]
pub struct EditorView {
    pub filename: Option<Seq<char>>,
    pub lines: Seq<Seq<char>>,
    pub cursor_row: usize,
    pub cursor_col: usize,
    pub scroll_offset: usize,
    pub scroll_col: usize,
    pub modified: bool,
    pub status_msg: Seq<char>,
}

/// Length of a line in UTF-8 bytes, as `str::len` reports it.
pub open spec fn blen(s: Seq<char>) -> int {
    (encode_utf8(s).len() as usize) as int
}

/// Whether byte offset `i` starts a character of `s` (or is its end).
pub open spec fn boundary(s: Seq<char>, i: int) -> bool {
    is_char_boundary(encode_utf8(s), i)
}

/// The characters of `s` before byte offset `i`.
pub open spec fn before(s: Seq<char>, i: int) -> Seq<char> {
    decode_utf8(encode_utf8(s).take(i))
}

/// The characters of `s` from byte offset `i` on.
pub open spec fn after(s: Seq<char>, i: int) -> Seq<char> {
    decode_utf8(encode_utf8(s).skip(i))
}

/// The cursor column clamped to the line's length.
pub open spec fn clamp(col: usize, line: Seq<char>) -> int {
    if col < blen(line) { col as int } else { blen(line) }
}

/// The status text shown when the editor starts.
pub open spec fn initial_status() -> Seq<char> {
    "Ctrl+S: Save | Ctrl+Q: Quit"@
}

/// A new editor: no file, one empty line, cursor and scrolling at the start.
pub open spec fn empty_editor() -> EditorView {
    EditorView {
        filename: None,
        lines: seq![Seq::<char>::empty()],
        cursor_row: 0,
        cursor_col: 0,
        scroll_offset: 0,
        scroll_col: 0,
        modified: false,
        status_msg: initial_status(),
    }
}

/// The text saved for the lines: joined by newlines, with a final newline.
pub open spec fn saved_text(lines: Seq<Seq<char>>) -> Seq<char> {
    join(lines, "\n"@) + "\n"@
}

/// The status bar line.
pub open spec fn status_text(e: EditorView) -> Seq<char> {
    (match e.filename {
        Some(f) => f,
        None => "[No Name]"@,
    }) + (if e.modified { " [modified]"@ } else { Seq::empty() }) + " | Row:"@ + dec((e.cursor_row + 1) as nat)
        + " Col:"@ + dec((e.cursor_col + 1) as nat) + " | Ctrl+S save | Ctrl+Q quit | "@ + e.status_msg
}

/// The lines an opened file shows: its text lines, or one empty line.
pub open spec fn opened_lines(text: Option<Seq<char>>) -> Seq<Seq<char>> {
    match text {
        Some(t) => if text_lines(t).len() == 0 { seq![Seq::<char>::empty()] } else { text_lines(t) },
        None => seq![Seq::<char>::empty()],
    }
}

/// The machine after saving `text` to the file `f`, creating it first when `f` does not resolve.
pub open spec fn save_state(k: KernelView, f: Seq<char>, text: Seq<char>) -> KernelView {
    let k1 = if resolve_spec(k.inodes, f) is None { dispatch_state(k, SyscallView::Create { path: f }) } else { k };
    dispatch_state(k1, SyscallView::Write { path: f, content: text })
}

// ---------------------------------------------------------------------------
// Editing operations on the abstract editor

/// The cursor's line, when the cursor row names a line.
pub open spec fn cursor_line(e: EditorView) -> Seq<char> {
    e.lines[e.cursor_row as int]
}

/// When typing a character can proceed: the clamped cursor starts a character and the
/// column can still grow.
pub open spec fn insert_ok(e: EditorView) -> bool {
    e.cursor_row < e.lines.len() ==> {
        &&& boundary(cursor_line(e), clamp(e.cursor_col, cursor_line(e)))
        &&& e.cursor_col < usize::MAX
    }
}

/// Typing `ch`: inserted at the cursor (clamped to the line), the cursor moves right by one.
pub open spec fn insert_spec(e: EditorView, ch: char) -> EditorView {
    let r = e.cursor_row as int;
    if r < e.lines.len() {
        let line = e.lines[r];
        let m = clamp(e.cursor_col, line);
        EditorView {
            lines: e.lines.update(r, before(line, m) + seq![ch] + after(line, m)),
            cursor_col: (e.cursor_col + 1) as usize,
            modified: true,
            ..e
        }
    } else {
        e
    }
}

/// When a line can be split at the cursor: the clamped cursor starts a character.
pub open spec fn split_ok(e: EditorView) -> bool {
    e.cursor_row < e.lines.len() ==> boundary(cursor_line(e), clamp(e.cursor_col, cursor_line(e)))
}

/// Enter: the line splits at the cursor (clamped); the rest goes to a new line below, and
/// the cursor to its start.
pub open spec fn newline_spec(e: EditorView) -> EditorView {
    let r = e.cursor_row as int;
    if r < e.lines.len() {
        let line = e.lines[r];
        let m = clamp(e.cursor_col, line);
        EditorView {
            lines: e.lines.update(r, before(line, m)).insert(r + 1, after(line, m)),
            cursor_row: (e.cursor_row + 1) as usize,
            cursor_col: 0,
            modified: true,
            ..e
        }
    } else {
        e
    }
}

/// When Backspace can proceed: a character ends at the clamped cursor, or there is a line to
/// join onto.
pub open spec fn backspace_ok(e: EditorView) -> bool {
    &&& e.cursor_col > 0 ==> {
        &&& e.cursor_row < e.lines.len()
        &&& clamp(e.cursor_col, cursor_line(e)) > 0 ==> boundary(cursor_line(e), clamp(e.cursor_col, cursor_line(e)) - 1)
    }
    &&& e.cursor_col == 0 && e.cursor_row > 0 ==> e.cursor_row < e.lines.len()
}

/// Backspace: deletes the character before the cursor; at the start of a line, joins the
/// line onto the previous one and puts the cursor at the join.
pub open spec fn backspace_spec(e: EditorView) -> EditorView {
    let r = e.cursor_row as int;
    if e.cursor_col > 0 {
        let line = e.lines[r];
        let m = clamp(e.cursor_col, line);
        if m > 0 {
            EditorView {
                lines: e.lines.update(r, before(line, m - 1) + after(line, m - 1).drop_first()),
                cursor_col: (e.cursor_col - 1) as usize,
                modified: true,
                ..e
            }
        } else {
            e
        }
    } else if r > 0 {
        EditorView {
            lines: e.lines.update(r - 1, e.lines[r - 1] + e.lines[r]).remove(r),
            cursor_row: (r - 1) as usize,
            cursor_col: blen(e.lines[r - 1]) as usize,
            modified: true,
            ..e
        }
    } else {
        e
    }
}

/// When Delete can proceed: a character starts at the clamped cursor, or it is at the end.
pub open spec fn delete_ok(e: EditorView) -> bool {
    &&& e.cursor_row < e.lines.len() ==> {
        let line = cursor_line(e);
        clamp(e.cursor_col, line) < blen(line) ==> boundary(line, clamp(e.cursor_col, line))
    }
    &&& e.cursor_row < usize::MAX
}

/// Delete: removes the character at the cursor (clamped); at the end of a line, joins the
/// next line onto it. The cursor stays.
pub open spec fn delete_spec(e: EditorView) -> EditorView {
    let r = e.cursor_row as int;
    if r < e.lines.len() {
        let line = e.lines[r];
        let m = clamp(e.cursor_col, line);
        if m < blen(line) {
            EditorView { lines: e.lines.update(r, before(line, m) + after(line, m).drop_first()), modified: true, ..e }
        } else if r + 1 < e.lines.len() {
            EditorView { lines: e.lines.update(r, line + e.lines[r + 1]).remove(r + 1), modified: true, ..e }
        } else {
            e
        }
    } else {
        e
    }
}

/// When the cursor can move up: the line above exists.
pub open spec fn up_ok(e: EditorView) -> bool {
    e.cursor_row > 0 ==> e.cursor_row - 1 < e.lines.len()
}

/// Up: the cursor moves up a line, its column clamped to that line.
pub open spec fn up_spec(e: EditorView) -> EditorView {
    if e.cursor_row > 0 {
        EditorView {
            cursor_row: (e.cursor_row - 1) as usize,
            cursor_col: clamp(e.cursor_col, e.lines[e.cursor_row - 1]) as usize,
            ..e
        }
    } else {
        e
    }
}

/// When the cursor can move down: the row can grow.
pub open spec fn down_ok(e: EditorView) -> bool {
    e.cursor_row < usize::MAX
}

/// Down: the cursor moves down a line when there is one, its column clamped to that line.
pub open spec fn down_spec(e: EditorView) -> EditorView {
    if e.cursor_row + 1 < e.lines.len() {
        EditorView {
            cursor_row: (e.cursor_row + 1) as usize,
            cursor_col: clamp(e.cursor_col, e.lines[e.cursor_row + 1]) as usize,
            ..e
        }
    } else {
        e
    }
}

/// When the cursor can move left: from a line start, the line above exists.
pub open spec fn left_ok(e: EditorView) -> bool {
    e.cursor_col == 0 && e.cursor_row > 0 ==> e.cursor_row - 1 < e.lines.len()
}

/// Left: one byte left, or to the end of the previous line from a line start.
pub open spec fn left_spec(e: EditorView) -> EditorView {
    if e.cursor_col > 0 {
        EditorView { cursor_col: (e.cursor_col - 1) as usize, ..e }
    } else if e.cursor_row > 0 {
        EditorView { cursor_row: (e.cursor_row - 1) as usize, cursor_col: blen(e.lines[e.cursor_row - 1]) as usize, ..e }
    } else {
        e
    }
}

/// Right: one byte right, or to the start of the next line from a line end.
pub open spec fn right_spec(e: EditorView) -> EditorView {
    let r = e.cursor_row as int;
    if r < e.lines.len() && e.cursor_col < blen(e.lines[r]) {
        EditorView { cursor_col: (e.cursor_col + 1) as usize, ..e }
    } else if r + 1 < e.lines.len() {
        EditorView { cursor_row: (e.cursor_row + 1) as usize, cursor_col: 0, ..e }
    } else {
        e
    }
}

/// The editor after opening `filename` on the machine `k`.
pub open spec fn opened_view(k: KernelView, filename: Seq<char>) -> EditorView {
    EditorView {
        filename: Some(filename),
        lines: opened_lines(crate::kernel::fs::read_spec(k.inodes, filename)),
        cursor_row: 0,
        cursor_col: 0,
        scroll_offset: 0,
        scroll_col: 0,
        modified: false,
        status_msg: "Opened: "@ + filename,
    }
}

/// The editor after saving.
pub open spec fn saved_view(e: EditorView) -> EditorView {
    match e.filename {
        Some(f) => EditorView { modified: false, status_msg: "Saved: "@ + f, ..e },
        None => EditorView { status_msg: "No filename to save to"@, ..e },
    }
}

/// The machine after the editor saves.
pub open spec fn saved_kernel(k: KernelView, e: EditorView) -> KernelView {
    match e.filename {
        Some(f) => save_state(k, f, saved_text(e.lines)),
        None => k,
    }
}

/// Splits a line at a byte offset that starts a character.
fn split_line(s: &String, idx: usize) -> (r: (String, String))
    requires
        boundary(s@, idx as int),
    ensures
        r.0@ == before(s@, idx as int),
        r.1@ == after(s@, idx as int),
{
    let (a, b) = s.as_str().split_at(idx);
    (a.to_owned(), b.to_owned())
}

impl Editor {
    pub open spec fn view(&self) -> EditorView {
        EditorView {
            filename: match self.filename {
                Some(f) => Some(f@),
                None => None,
            },
            lines: texts_of(self.lines@),
            cursor_row: self.cursor_row,
            cursor_col: self.cursor_col,
            scroll_offset: self.scroll_offset,
            scroll_col: self.scroll_col,
            modified: self.modified,
            status_msg: self.status_msg@,
        }
    }

    /// An empty, unnamed buffer of one empty line.
    pub fn new() -> (e: Self)
        ensures
            e@ == empty_editor(),
    {
        let e = Editor {
            filename: None,
            lines: vec![String::new()],
            cursor_row: 0,
            cursor_col: 0,
            scroll_offset: 0,
            scroll_col: 0,
            modified: false,
            status_msg: String::from_str("Ctrl+S: Save | Ctrl+Q: Quit"),
        };
        proof {
            assert(e@.lines =~= seq![Seq::<char>::empty()]);
        }
        e
    }

    /// Byte length of line `row`.
    fn line_len(&self, row: usize) -> (n: usize)
        requires
            row < self.lines@.len(),
        ensures
            n == blen(self@.lines[row as int]),
    {
        self.lines[row].as_str().len()
    }

    /// Inserts `ch` at the cursor (clamped to the line) and moves the cursor right by one.
    pub fn insert_char(&mut self, ch: char)
        requires
            insert_ok(old(self)@),
        ensures
            final(self)@ == insert_spec(old(self)@, ch),
    {
        if self.cursor_row < self.lines.len() {
            let len = self.line_len(self.cursor_row);
            let col = if self.cursor_col < len { self.cursor_col } else { len };
            let (a, b) = split_line(&self.lines[self.cursor_row], col);
            let mut v = chars_of(a.as_str());
            v.push(ch);
            let bc = chars_of(b.as_str());
            push_all(&mut v, bc.as_slice());
            let line = string_of(v.as_slice());
            self.lines.set(self.cursor_row, line);
            self.cursor_col = self.cursor_col + 1;
            self.modified = true;
            proof {
                let e = old(self)@;
                let r = e.cursor_row as int;
                assert(v@ =~= before(e.lines[r], col as int) + seq![ch] + after(e.lines[r], col as int));
                assert(self@.lines =~= e.lines.update(r, v@));
                assert(self@ =~= EditorView {
                    lines: e.lines.update(r, v@),
                    cursor_col: (e.cursor_col + 1) as usize,
                    modified: true,
                    ..e
                });
            }
        }
    }

    /// Splits the line at the cursor (clamped): the rest moves to a new line below, and the
    /// cursor goes to its start.
    pub fn handle_enter(&mut self)
        requires
            split_ok(old(self)@),
        ensures
            final(self)@ == newline_spec(old(self)@),
    {
        if self.cursor_row < self.lines.len() {
            let len = self.line_len(self.cursor_row);
            let col = if self.cursor_col < len { self.cursor_col } else { len };
            let (a, b) = split_line(&self.lines[self.cursor_row], col);
            self.lines.set(self.cursor_row, a);
            self.cursor_row = self.cursor_row + 1;
            self.lines.insert(self.cursor_row, b);
            self.cursor_col = 0;
            self.modified = true;
            proof {
                let e = old(self)@;
                let r = e.cursor_row as int;
                let line = e.lines[r];
                let m = clamp(e.cursor_col, line);
                assert(self@.lines =~= e.lines.update(r, before(line, m)).insert(r + 1, after(line, m)));
                assert(self@ =~= EditorView {
                    lines: e.lines.update(r, before(line, m)).insert(r + 1, after(line, m)),
                    cursor_row: (e.cursor_row + 1) as usize,
                    cursor_col: 0,
                    modified: true,
                    ..e
                });
            }
        }
    }

    /// Removes the character that starts at byte `idx` of line `row`.
    fn remove_char_at(&mut self, row: usize, idx: usize)
        requires
            row < old(self).lines@.len(),
            boundary(old(self)@.lines[row as int], idx as int),
            idx < blen(old(self)@.lines[row as int]),
        ensures
            final(self)@ == (EditorView {
                lines: old(self)@.lines.update(row as int, before(old(self)@.lines[row as int], idx as int)
                    + after(old(self)@.lines[row as int], idx as int).drop_first()),
                ..old(self)@
            }),
    {
        let (a, b) = split_line(&self.lines[row], idx);
        let mut v = chars_of(a.as_str());
        let bc = chars_of(b.as_str());
        if bc.len() > 0 {
            push_all(&mut v, &bc.as_slice()[1..bc.len()]);
        }
        let line = string_of(v.as_slice());
        self.lines.set(row, line);
        proof {
            let e = old(self)@;
            let l = e.lines[row as int];
            assert(bc@.len() > 0) by {
                let bytes = encode_utf8(l);
                assert(bytes.skip(idx as int).len() > 0);
                assert(encode_utf8(after(l, idx as int)) == bytes.skip(idx as int)) by {
                    vstd::utf8::valid_utf8_split(bytes, idx as int);
                    vstd::utf8::decode_utf8_encode_utf8(bytes.skip(idx as int));
                }
                if bc@.len() == 0 {
                    assert(bc@ =~= Seq::<char>::empty());
                    assert(encode_utf8(Seq::<char>::empty()) =~= Seq::<u8>::empty());
                }
            }
            assert(v@ =~= before(l, idx as int) + after(l, idx as int).drop_first());
            assert(self@ =~= EditorView { lines: e.lines.update(row as int, v@), ..e });
        }
    }

    /// Backspace: deletes the character before the cursor; at the start of a line, joins the
    /// line onto the previous one and puts the cursor at the join.
    pub fn handle_backspace(&mut self)
        requires
            backspace_ok(old(self)@),
        ensures
            final(self)@ == backspace_spec(old(self)@),
    {
        if self.cursor_col > 0 {
            let len = self.line_len(self.cursor_row);
            let col = if self.cursor_col < len { self.cursor_col } else { len };
            if col > 0 {
                self.remove_char_at(self.cursor_row, col - 1);
                self.cursor_col = self.cursor_col - 1;
                self.modified = true;
                proof {
                    let e = old(self)@;
                    assert(self@ =~= EditorView {
                        lines: self@.lines,
                        cursor_col: (e.cursor_col - 1) as usize,
                        modified: true,
                        ..e
                    });
                }
            }
        } else if self.cursor_row > 0 {
            let current_line = self.lines.remove(self.cursor_row);
            self.cursor_row = self.cursor_row - 1;
            self.cursor_col = self.line_len(self.cursor_row);
            let mut joined = self.lines[self.cursor_row].clone();
            joined.append(current_line.as_str());
            self.lines.set(self.cursor_row, joined);
            self.modified = true;
            proof {
                let e = old(self)@;
                let r = e.cursor_row as int;
                assert(self@.lines =~= e.lines.update(r - 1, e.lines[r - 1] + e.lines[r]).remove(r));
                assert(self@ =~= EditorView {
                    lines: e.lines.update(r - 1, e.lines[r - 1] + e.lines[r]).remove(r),
                    cursor_row: (r - 1) as usize,
                    cursor_col: blen(e.lines[r - 1]) as usize,
                    modified: true,
                    ..e
                });
            }
        }
    }

    /// Delete: removes the character at the cursor (clamped); at the end of a line, joins the
    /// next line onto it. The cursor stays.
    pub fn handle_delete(&mut self)
        requires
            delete_ok(old(self)@),
        ensures
            final(self)@ == delete_spec(old(self)@),
    {
        if self.cursor_row < self.lines.len() {
            let len = self.line_len(self.cursor_row);
            let col = if self.cursor_col < len { self.cursor_col } else { len };
            if col < len {
                self.remove_char_at(self.cursor_row, col);
                self.modified = true;
            } else if self.cursor_row + 1 < self.lines.len() {
                let next_line = self.lines.remove(self.cursor_row + 1);
                let mut joined = self.lines[self.cursor_row].clone();
                joined.append(next_line.as_str());
                self.lines.set(self.cursor_row, joined);
                self.modified = true;
                proof {
                    let e = old(self)@;
                    let r = e.cursor_row as int;
                    assert(self@.lines =~= e.lines.update(r, e.lines[r] + e.lines[r + 1]).remove(r + 1));
                }
            }
        }
    }

    /// Moves the cursor up a line, clamping the column to that line.
    pub fn move_cursor_up(&mut self)
        requires
            up_ok(old(self)@),
        ensures
            final(self)@ == up_spec(old(self)@),
    {
        if self.cursor_row > 0 {
            self.cursor_row = self.cursor_row - 1;
            let len = self.line_len(self.cursor_row);
            self.cursor_col = if self.cursor_col < len { self.cursor_col } else { len };
        }
    }

    /// Moves the cursor down a line when there is one, clamping the column to that line.
    pub fn move_cursor_down(&mut self)
        requires
            down_ok(old(self)@),
        ensures
            final(self)@ == down_spec(old(self)@),
    {
        if self.cursor_row + 1 < self.lines.len() {
            self.cursor_row = self.cursor_row + 1;
            let len = self.line_len(self.cursor_row);
            self.cursor_col = if self.cursor_col < len { self.cursor_col } else { len };
        }
    }

    /// Moves the cursor one byte left, or to the end of the previous line from a line start.
    pub fn move_cursor_left(&mut self)
        requires
            left_ok(old(self)@),
        ensures
            final(self)@ == left_spec(old(self)@),
    {
        if self.cursor_col > 0 {
            self.cursor_col = self.cursor_col - 1;
        } else if self.cursor_row > 0 {
            self.cursor_row = self.cursor_row - 1;
            self.cursor_col = self.line_len(self.cursor_row);
        }
    }

    /// Moves the cursor one byte right, or to the start of the next line from a line end.
    pub fn move_cursor_right(&mut self)
        ensures
            final(self)@ == right_spec(old(self)@),
    {
        if self.cursor_row < self.lines.len() {
            let len = self.line_len(self.cursor_row);
            if self.cursor_col < len {
                self.cursor_col = self.cursor_col + 1;
            } else if self.cursor_row + 1 < self.lines.len() {
                self.cursor_row = self.cursor_row + 1;
                self.cursor_col = 0;
            }
        }
    }

    /// Scrolls so that the cursor lies within a window of the given size.
    pub fn adjust_scroll(&mut self, visible_rows: usize, visible_cols: usize)
        requires
            old(self).scroll_offset + visible_rows <= usize::MAX,
            old(self).scroll_col + visible_cols <= usize::MAX,
            visible_rows == 0 ==> old(self).cursor_row < usize::MAX,
        ensures
            ({
                let e = old(self)@;
                &&& final(self)@ == EditorView {
                    scroll_offset: if e.cursor_row < e.scroll_offset {
                        e.cursor_row
                    } else if e.cursor_row >= e.scroll_offset + visible_rows {
                        (e.cursor_row - visible_rows + 1) as usize
                    } else {
                        e.scroll_offset
                    },
                    scroll_col: if e.cursor_col < e.scroll_col {
                        e.cursor_col
                    } else if visible_cols > 0 && e.cursor_col >= e.scroll_col + visible_cols {
                        (e.cursor_col - visible_cols + 1) as usize
                    } else {
                        e.scroll_col
                    },
                    ..e
                }
                &&& visible_rows > 0 ==> final(self).scroll_offset <= final(self).cursor_row < final(self).scroll_offset + visible_rows
                &&& visible_cols > 0 ==> final(self).scroll_col <= final(self).cursor_col < final(self).scroll_col + visible_cols
            }),
    {
        if self.cursor_row < self.scroll_offset {
            self.scroll_offset = self.cursor_row;
        } else if self.cursor_row >= self.scroll_offset + visible_rows {
            self.scroll_offset = self.cursor_row - visible_rows + 1;
        }
        if self.cursor_col < self.scroll_col {
            self.scroll_col = self.cursor_col;
        } else if visible_cols > 0 && self.cursor_col >= self.scroll_col + visible_cols {
            self.scroll_col = self.cursor_col - visible_cols + 1;
        }
    }

    /// The status bar: file name, a modified mark, 1-based row and column, key hints and the
    /// status message.
    pub fn status_bar_text(&self) -> (s: String)
        requires
            self.cursor_row < usize::MAX,
            self.cursor_col < usize::MAX,
        ensures
            s@ == status_text(self@),
    {
        let mut v: Vec<char> = Vec::new();
        match &self.filename {
            Some(f) => {
                let fc = chars_of(f.as_str());
                push_all(&mut v, fc.as_slice());
            },
            None => push_str(&mut v, "[No Name]"),
        }
        if self.modified {
            push_str(&mut v, " [modified]");
        }
        push_str(&mut v, " | Row:");
        push_dec(&mut v, (self.cursor_row + 1) as u64);
        push_str(&mut v, " Col:");
        push_dec(&mut v, (self.cursor_col + 1) as u64);
        push_str(&mut v, " | Ctrl+S save | Ctrl+Q quit | ");
        let sc = chars_of(self.status_msg.as_str());
        push_all(&mut v, sc.as_slice());
        proof {
            assert(v@ =~= status_text(self@));
        }
        string_of(v.as_slice())
    }

    /// Opens `filename`: its lines when the file system holds such a file (one empty line for
    /// an empty or unreadable file), cursor and scrolling reset, not modified.
    pub fn open(&mut self, filename: &str, kernel: &Kernel)
        ensures
            final(self)@ == opened_view(kernel@, filename@),
    {
        self.filename = Some(filename.to_owned());
        match kernel.fs.read_file(filename) {
            Some(content) => {
                self.lines = crate::text::split_lines(content.as_str());
                if self.lines.len() == 0 {
                    self.lines.push(String::new());
                }
            },
            None => {
                self.lines = vec![String::new()];
            },
        }
        self.cursor_row = 0;
        self.cursor_col = 0;
        self.scroll_offset = 0;
        self.scroll_col = 0;
        self.modified = false;
        let mut msg: Vec<char> = Vec::new();
        push_str(&mut msg, "Opened: ");
        push_str(&mut msg, filename);
        self.status_msg = string_of(msg.as_slice());
        proof {
            assert(msg@ =~= "Opened: "@ + filename@);
            assert(self@.lines =~= opened_lines(crate::kernel::fs::read_spec(kernel@.inodes, filename@)));
        }
    }

    /// Saves the buffer to its file (creating the file first when its path does not resolve):
    /// the lines joined by newlines, with a final newline.
    pub fn save(&mut self, kernel: &mut Kernel)
        requires
            old(kernel).wf(),
            old(self)@.filename matches Some(f) ==> (create_ok(old(kernel)@.inodes, f) ==> old(kernel)@.next_inode < u32::MAX),
        ensures
            final(kernel).wf(),
            final(kernel)@ == saved_kernel(old(kernel)@, old(self)@),
            final(self)@ == saved_view(old(self)@),
    {
        match &self.filename {
            Some(filename) => {
                let name = filename.clone();
                let joined = crate::text::join_strings(&self.lines, "\n");
                let mut content = joined;
                content.append("\n");
                if kernel.fs.resolve_path(name.as_str()).is_none() {
                    kernel.dispatch(Syscall::Create { path: name.clone() });
                }
                let ghost k1 = kernel@;
                proof {
                    assert(syscall_in_range(k1, SyscallView::Write { path: name@, content: content@ }));
                }
                kernel.dispatch(Syscall::Write { path: name.clone(), content });
                self.modified = false;
                let mut msg: Vec<char> = Vec::new();
                push_str(&mut msg, "Saved: ");
                let nc = chars_of(name.as_str());
                push_all(&mut msg, nc.as_slice());
                self.status_msg = string_of(msg.as_slice());
                proof {
                    assert(msg@ =~= "Saved: "@ + name@);
                }
            },
            None => {
                self.status_msg = String::from_str("No filename to save to");
            },
        }
    }
}

// ---------------------------------------------------------------------------
// Laws

/// The encoding of joined text is the joined encodings.
proof fn lemma_encode_concat(a: Seq<char>, b: Seq<char>)
    ensures
        encode_utf8(a + b) == encode_utf8(a) + encode_utf8(b),
    decreases a.len(),
{
    if a.len() == 0 {
        assert(a + b =~= b);
        assert(encode_utf8(a) + encode_utf8(b) =~= encode_utf8(b));
    } else {
        lemma_encode_concat(a.drop_first(), b);
        assert((a + b).drop_first() =~= a.drop_first() + b);
        assert((a + b)[0] == a[0]);
        assert(encode_utf8(a + b) =~= encode_utf8(a) + encode_utf8(b));
    }
}

/// Typing a one-byte (ASCII) character and then pressing Backspace gives the lines and the
/// cursor back, when the cursor stood within its line at the start of a character; the
/// buffer stays marked as modified. Both keys can be handled there.
pub proof fn law_backspace_undoes_insert(e: EditorView, ch: char)
    requires
        e.cursor_row < e.lines.len(),
        e.cursor_col <= blen(cursor_line(e)),
        boundary(cursor_line(e), e.cursor_col as int),
        (ch as u32) < 128,
        encode_utf8(cursor_line(e)).len() < usize::MAX,
    ensures
        insert_ok(e),
        backspace_ok(insert_spec(e, ch)),
        backspace_spec(insert_spec(e, ch)) == (EditorView { modified: true, ..e }),
{
    let r = e.cursor_row as int;
    let l = e.lines[r];
    let c = e.cursor_col as int;
    let b = encode_utf8(l);
    let bef = before(l, c);
    let aft = after(l, c);
    vstd::utf8::valid_utf8_split(b, c);
    assert(b.take(c) =~= b.subrange(0, c));
    assert(b.skip(c) =~= b.subrange(c, b.len() as int));
    vstd::utf8::decode_utf8_encode_utf8(b.take(c));
    vstd::utf8::decode_utf8_encode_utf8(b.skip(c));
    vstd::utf8::decode_utf8_split(b, c);
    assert(l == bef + aft);
    let one = seq![ch];
    let u = ch as u32;
    assert(one.drop_first() =~= Seq::<char>::empty());
    assert(one[0] == ch);
    assert(encode_utf8(Seq::<char>::empty()) =~= Seq::<u8>::empty());
    assert(vstd::utf8::has_width_1_encoding(u));
    assert(vstd::utf8::encode_scalar(u) =~= seq![vstd::utf8::leading_byte_width_1(u)]);
    assert(encode_utf8(one) == vstd::utf8::encode_scalar(one[0] as u32) + encode_utf8(one.drop_first()));
    assert(encode_utf8(one) =~= seq![vstd::utf8::leading_byte_width_1(u)]);
    let l1 = bef + one + aft;
    lemma_encode_concat(bef + one, aft);
    lemma_encode_concat(bef, one);
    lemma_encode_concat(one, aft);
    let b1 = encode_utf8(l1);
    assert(b1 =~= b.take(c) + encode_utf8(one) + b.skip(c));
    assert(blen(l) == b.len());
    assert(blen(l1) == b.len() + 1);
    let e1 = insert_spec(e, ch);
    assert(clamp(e.cursor_col, l) == c);
    assert(e1.lines[r] == l1);
    assert(clamp(e1.cursor_col, l1) == c + 1);
    assert(b1.take(c) =~= b.take(c));
    assert(b1.skip(c) =~= encode_utf8(one + aft));
    assert(before(l1, c) == bef);
    assert(after(l1, c) == one + aft);
    assert((one + aft).drop_first() =~= aft);
    assert(b1[c] == vstd::utf8::leading_byte_width_1(u));
    assert(!vstd::utf8::is_continuation_byte(vstd::utf8::leading_byte_width_1(u))) by (bit_vector)
        requires
            u < 128,
    ;
    vstd::utf8::is_char_boundary_iff_not_is_continuation_byte(b1, c);
    assert(boundary(l1, c));
    let e2 = backspace_spec(e1);
    assert(e2.lines =~= e.lines);
    assert(e2 =~= EditorView { modified: true, ..e });
}

/// Pressing Enter and then Backspace gives the lines back, with the cursor where the line
/// was split (the cursor column clamped to the line), when the clamped cursor stood at the
/// start of a character; the buffer stays marked as modified. Both keys can be handled there.
pub proof fn law_backspace_undoes_newline(e: EditorView)
    requires
        e.cursor_row < e.lines.len(),
        boundary(cursor_line(e), clamp(e.cursor_col, cursor_line(e))),
        e.cursor_row + 1 < usize::MAX,
    ensures
        split_ok(e),
        backspace_ok(newline_spec(e)),
        backspace_spec(newline_spec(e)) == (EditorView {
            modified: true,
            cursor_col: clamp(e.cursor_col, cursor_line(e)) as usize,
            ..e
        }),
{
    let r = e.cursor_row as int;
    let l = e.lines[r];
    let c = clamp(e.cursor_col, l);
    let b = encode_utf8(l);
    vstd::utf8::valid_utf8_split(b, c);
    assert(b.take(c) =~= b.subrange(0, c));
    assert(b.skip(c) =~= b.subrange(c, b.len() as int));
    vstd::utf8::decode_utf8_encode_utf8(b.take(c));
    vstd::utf8::decode_utf8_split(b, c);
    assert(l == before(l, c) + after(l, c));
    assert(encode_utf8(before(l, c)).len() == c);
    assert(0 <= c <= b.len());
    assert(blen(before(l, c)) == c);
    let e1 = newline_spec(e);
    assert(e1.lines[r] == before(l, c));
    assert(e1.lines[r + 1] == after(l, c));
    let e2 = backspace_spec(e1);
    assert(e2.lines =~= e.lines);
    assert(e2 =~= EditorView { modified: true, cursor_col: c as usize, ..e });
}

/// Every character of the line is ASCII (one byte in UTF-8).
pub open spec fn ascii_line(s: Seq<char>) -> bool {
    forall|i: int| 0 <= i < s.len() ==> (#[trigger] s[i] as u32) < 128
}

/// An ASCII line takes one byte per character, and none of them continues a character.
proof fn lemma_ascii_bytes(s: Seq<char>)
    requires
        ascii_line(s),
    ensures
        encode_utf8(s).len() == s.len(),
        forall|j: int| 0 <= j < s.len() ==> !vstd::utf8::is_continuation_byte(#[trigger] encode_utf8(s)[j]),
    decreases s.len(),
{
    if s.len() > 0 {
        let rest = s.drop_first();
        assert forall|j: int| 0 <= j < rest.len() implies (#[trigger] rest[j] as u32) < 128 by {
            assert(rest[j] == s[j + 1]);
        }
        lemma_ascii_bytes(rest);
        let u = s[0] as u32;
        assert(u < 128);
        assert(vstd::utf8::encode_scalar(u) =~= seq![vstd::utf8::leading_byte_width_1(u)]);
        assert(!vstd::utf8::is_continuation_byte(vstd::utf8::leading_byte_width_1(u))) by (bit_vector)
            requires
                u < 128,
        ;
        let b = encode_utf8(s);
        assert(b == vstd::utf8::encode_scalar(u) + encode_utf8(rest));
        assert forall|j: int| 0 <= j < s.len() implies !vstd::utf8::is_continuation_byte(#[trigger] b[j]) by {
            if j > 0 {
                assert(b[j] == encode_utf8(rest)[j - 1]);
            }
        }
    }
}

/// In an ASCII line every offset from the start to the end starts a character (or is the
/// end), and the line is as many bytes long as it has characters.
pub proof fn lemma_ascii_boundaries(s: Seq<char>, i: int)
    requires
        ascii_line(s),
        0 <= i <= s.len(),
    ensures
        encode_utf8(s).len() == s.len(),
        boundary(s, i),
{
    lemma_ascii_bytes(s);
    let b = encode_utf8(s);
    vstd::utf8::encode_utf8_valid_utf8(s);
    if i < s.len() {
        vstd::utf8::is_char_boundary_iff_not_is_continuation_byte(b, i);
    } else {
        vstd::utf8::is_char_boundary_start_end_of_seq(b);
    }
}

/// Pressing Enter and then Backspace on an ASCII line gives the lines back, with the cursor
/// where the line was split (the cursor column clamped to the line); the buffer stays marked
/// as modified. Both keys can be handled there.
pub proof fn law_backspace_undoes_newline_ascii(e: EditorView)
    requires
        e.cursor_row < e.lines.len(),
        ascii_line(cursor_line(e)),
        e.cursor_row + 1 < usize::MAX,
    ensures
        split_ok(e),
        backspace_ok(newline_spec(e)),
        backspace_spec(newline_spec(e)) == (EditorView {
            modified: true,
            cursor_col: clamp(e.cursor_col, cursor_line(e)) as usize,
            ..e
        }),
{
    let l = cursor_line(e);
    lemma_ascii_bytes(l);
    let c = clamp(e.cursor_col, l);
    assert(0 <= c <= l.len());
    lemma_ascii_boundaries(l, c);
    law_backspace_undoes_newline(e);
}

/// Moving up from below the first line lands on the line above, with the column kept when it
/// fits in that line's bytes and set to the line's byte length otherwise; nothing else
/// changes. From the first line nothing moves.
pub proof fn law_up_clamps_column(e: EditorView)
    requires
        up_ok(e),
    ensures
        e.cursor_row > 0 ==> ({
            let u = up_spec(e);
            let l = e.lines[e.cursor_row - 1];
            &&& u.cursor_row == e.cursor_row - 1
            &&& u.cursor_col <= blen(l)
            &&& u.cursor_col == (if e.cursor_col <= blen(l) { e.cursor_col as int } else { blen(l) })
            &&& u == EditorView { cursor_row: u.cursor_row, cursor_col: u.cursor_col, ..e }
        }),
        e.cursor_row == 0 ==> up_spec(e) == e,
{
}

/// Moving down onto an existing line lands on it, with the column kept when it fits in that
/// line's bytes and set to the line's byte length otherwise; nothing else changes. From the
/// last line nothing moves.
pub proof fn law_down_clamps_column(e: EditorView)
    requires
        down_ok(e),
    ensures
        e.cursor_row + 1 < e.lines.len() ==> ({
            let u = down_spec(e);
            let l = e.lines[e.cursor_row + 1];
            &&& u.cursor_row == e.cursor_row + 1
            &&& u.cursor_col <= blen(l)
            &&& u.cursor_col == (if e.cursor_col <= blen(l) { e.cursor_col as int } else { blen(l) })
            &&& u == EditorView { cursor_row: u.cursor_row, cursor_col: u.cursor_col, ..e }
        }),
        e.cursor_row + 1 >= e.lines.len() ==> down_spec(e) == e,
{
}

/// Left undoes right and right undoes left: from a cursor within its line (not past the
/// line's bytes), moving right and then left comes back to it when there is somewhere to
/// move to, and so does moving left and then right when the cursor is not at the very start.
pub proof fn law_left_right_inverse(e: EditorView)
    requires
        e.cursor_row < e.lines.len(),
        e.cursor_row + 1 < usize::MAX,
        e.cursor_col <= blen(e.lines[e.cursor_row as int]),
    ensures
        e.cursor_col < blen(e.lines[e.cursor_row as int]) || e.cursor_row + 1 < e.lines.len() ==> {
            &&& left_ok(right_spec(e))
            &&& left_spec(right_spec(e)) == e
        },
        e.cursor_col > 0 || e.cursor_row > 0 ==> right_spec(left_spec(e)) == e,
{
}

/// What the editor saves, opening the file shows again: the same lines, when no line holds a
/// newline or ends in a carriage return, and the file either is a file already or can be
/// created (its directory part names a directory).
pub proof fn law_save_then_open(k: KernelView, e: EditorView)
    requires
        fs_wf(k.inodes, k.next_inode),
        e.filename is Some,
        create_ok(k.inodes, e.filename->0) ==> k.next_inode < u32::MAX,
        write_ok(k.inodes, e.filename->0) || create_ok(k.inodes, e.filename->0),
        e.lines.len() > 0,
        forall|i: int| 0 <= i < e.lines.len() ==> !(#[trigger] e.lines[i]).contains('\n'),
        forall|i: int| 0 <= i < e.lines.len() ==> strip_cr(#[trigger] e.lines[i]) == e.lines[i],
    ensures
        opened_view(saved_kernel(k, e), e.filename->0).lines == e.lines,
{
    let f = e.filename->0;
    let text = saved_text(e.lines);
    lemma_text_lines_join(e.lines);
    let m = k.inodes;
    let next = k.next_inode;
    if write_ok(m, f) {
        law_read_after_write(m, next, f, text);
    } else {
        law_create_then_resolve(m, next, f, InodeType::File, k.tick);
        let (d, name) = split_path_spec(f);
        let dir = resolve_spec(m, d)->0;
        lemma_walk_result(m, 0, segments(d));
        lemma_add_child_wf(m, next, name, InodeType::File, dir, k.tick);
        let m1 = create_spec(m, next, f, InodeType::File, k.tick);
        assert(m1 == add_child(m, next, name, InodeType::File, dir, k.tick));
        assert(write_ok(m1, f));
        law_read_after_write(m1, (next + 1) as u32, f, text);
    }
}

} // verus!
