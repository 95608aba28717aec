use vstd::prelude::*;
use crate::kernel::{Kernel, KernelView, Syscall, SyscallView, SyscallResult, ResultView, dispatch_state, dispatch_result, syscall_in_range};
use crate::kernel::fs::trim_end_slashes;
use crate::text::{chars_of, push_all, push_str, push_dec, push_int, string_of, dec, int_dec, texts_of, seqs_of, text_lines, split_lines, is_space, is_name_char, trim, trim_chars, trim_str, find_char, find_char_exec, find_pair, find_pair_exec, split_first_space, split_once, words, split_words, starts_with, starts_with_exec, all_name_chars, parse_unsigned, parse_unsigned_exec, chars_eq, lemma_find_char_range, lemma_find_pair_range, lemma_find_pair_first, push_char, word_is, to_vec};

verus! {

/// Lines of output the shell keeps.
pub const MAX_OUTPUT_LINES: usize = 200;

/// How deeply `run` commands may nest: a script run from a script run from ... at most this
/// many levels.
pub const MAX_RUN_DEPTH: usize = 64;

/// An interactive command shell with variables and a small script language.
pub struct Shell {
    pub history: Vec<String>,
    pub current_input: String,
    pub output_lines: Vec<String>,
    pub scroll_offset: usize,
    pub cwd: String,
    pub vars: Vec<(String, String)>,
}

/// Abstract value of the shell.
#[verifier::ext_equal]
pub struct ShellView {
    pub history: Seq<Seq<char>>,
    pub input: Seq<char>,
    pub output: Seq<Seq<char>>,
    pub scroll: usize,
    pub cwd: Seq<char>,
    pub vars: Seq<(Seq<char>, Seq<char>)>,
}

/// Shell and machine after a command or script, and the file to open in the editor, if any.
#[verifier::ext_equal]
pub struct Outcome {
    pub shell: ShellView,
    pub kernel: KernelView,
    pub edit: Option<Seq<char>>,
}

/// A command that stopped because a counter of the machine (the next pid or the next
/// inode number) would have gone past its largest value.
#[derive(Debug, Clone, Copy)]
pub struct Overflow;

/// What a run returned, against the outcome that the specification gives: the outcome
/// itself when the run finished, and no outcome when it stopped on an overflow.
pub open spec fn ran(expected: Option<Outcome>, sh: ShellView, k: KernelView, r: Result<Option<String>, Overflow>) -> bool {
    match r {
        Ok(e) => expected == Some(Outcome { shell: sh, kernel: k, edit: opt_text(e) }),
        Err(_) => expected is None,
    }
}

/// The variable pairs of a vector of string pairs.
pub open spec fn pairs_of(v: Seq<(String, String)>) -> Seq<(Seq<char>, Seq<char>)> {
    v.map_values(|p: (String, String)| (p.0@, p.1@))
}

// ---------------------------------------------------------------------------
// Variables

/// Position of the first variable named `key`.
pub open spec fn var_index(vars: Seq<(Seq<char>, Seq<char>)>, key: Seq<char>) -> Option<int>
    decreases vars.len(),
{
    if vars.len() == 0 {
        None
    } else if vars[0].0 == key {
        Some(0)
    } else {
        match var_index(vars.drop_first(), key) {
            Some(i) => Some(i + 1),
            None => None,
        }
    }
}

/// The value of variable `key`, if set.
pub open spec fn var_get(vars: Seq<(Seq<char>, Seq<char>)>, key: Seq<char>) -> Option<Seq<char>> {
    match var_index(vars, key) {
        Some(i) => Some(vars[i].1),
        None => None,
    }
}

/// The variables after setting `key` to `value` (in place when set, else appended).
pub open spec fn var_set(vars: Seq<(Seq<char>, Seq<char>)>, key: Seq<char>, value: Seq<char>) -> Seq<(Seq<char>, Seq<char>)> {
    match var_index(vars, key) {
        Some(i) => vars.update(i, (key, value)),
        None => vars.push((key, value)),
    }
}

/// The variables after unsetting `key`.
pub open spec fn var_unset(vars: Seq<(Seq<char>, Seq<char>)>, key: Seq<char>) -> Seq<(Seq<char>, Seq<char>)> {
    match var_index(vars, key) {
        Some(i) => vars.remove(i),
        None => vars,
    }
}

// ---------------------------------------------------------------------------
// Text helpers

/// Length of the variable name at the start of `t`.
pub open spec fn name_len(t: Seq<char>) -> nat
    decreases t.len(),
{
    if t.len() > 0 && is_name_char(t[0]) {
        1 + name_len(t.drop_first())
    } else {
        0
    }
}

/// A variable name is no longer than the text it starts.
pub proof fn lemma_name_len(t: Seq<char>)
    ensures
        name_len(t) <= t.len(),
        forall|i: int| 0 <= i < name_len(t) ==> is_name_char(#[trigger] t[i]),
        name_len(t) < t.len() ==> !is_name_char(t[name_len(t) as int]),
    decreases t.len(),
{
    if t.len() > 0 && is_name_char(t[0]) {
        lemma_name_len(t.drop_first());
        assert forall|i: int| 0 <= i < name_len(t) implies is_name_char(#[trigger] t[i]) by {
            if i > 0 {
                assert(t[i] == t.drop_first()[i - 1]);
            }
        }
        if name_len(t) < t.len() {
            assert(t[name_len(t) as int] == t.drop_first()[name_len(t) - 1]);
        }
    }
}

/// `s` with every `$NAME` replaced by the variable's value (empty when unset); a `$` not
/// followed by a name character stays.
pub open spec fn expand(vars: Seq<(Seq<char>, Seq<char>)>, s: Seq<char>) -> Seq<char>
    decreases s.len(),
{
    if s.len() == 0 {
        Seq::empty()
    } else if s[0] == '$' {
        let n = name_len(s.drop_first());
        if n == 0 {
            seq!['$'] + expand(vars, s.drop_first())
        } else {
            proof {
                lemma_name_len(s.drop_first());
            }
            (match var_get(vars, s.subrange(1, 1 + n as int)) {
                Some(v) => v,
                None => Seq::empty(),
            }) + expand(vars, s.skip(1 + n as int))
        }
    } else {
        seq![s[0]] + expand(vars, s.drop_first())
    }
}

/// A path as the shell resolves it: absolute paths stay, others are taken relative to `cwd`.
pub open spec fn shell_path(cwd: Seq<char>, p: Seq<char>) -> Seq<char> {
    if starts_with(p, "/"@) {
        p
    } else {
        trim_end_slashes(cwd) + "/"@ + p
    }
}

// ---------------------------------------------------------------------------
// Output

/// The shell after printing one line: at most `MAX_OUTPUT_LINES` are kept (the oldest goes),
/// and the view scrolls to the last line.
pub open spec fn out_line(sh: ShellView, line: Seq<char>) -> ShellView {
    let o = sh.output.push(line);
    let o2 = if o.len() > MAX_OUTPUT_LINES { o.drop_first() } else { o };
    ShellView { output: o2, scroll: (o2.len() - 1) as usize, ..sh }
}

/// The shell after printing the lines in order.
pub open spec fn out_lines(sh: ShellView, lines: Seq<Seq<char>>) -> ShellView
    decreases lines.len(),
{
    if lines.len() == 0 {
        sh
    } else {
        out_line(out_lines(sh, lines.drop_last()), lines.last())
    }
}

/// The shell after printing `e` as an error.
pub open spec fn out_error(sh: ShellView, e: Seq<char>) -> ShellView {
    out_line(sh, "Error: "@ + e)
}

/// A finished command that leaves the machine unchanged and opens nothing.
pub open spec fn done(sh: ShellView, k: KernelView) -> Option<Outcome> {
    Some(Outcome { shell: sh, kernel: k, edit: None })
}

/// The help text.
pub open spec fn help_lines() -> Seq<Seq<char>> {
    seq![
        "Available commands:"@,
        "  help              - Show this help"@,
        "  ls [path]         - List directory"@,
        "  cat <file>        - Show file contents"@,
        "  mkdir <dir>       - Create directory"@,
        "  touch <file>      - Create empty file"@,
        "  rm <file>         - Delete file/dir"@,
        "  ps                - List processes"@,
        "  kill <pid>        - Kill process"@,
        "  exec <name>       - Run new process"@,
        "  free              - Show memory stats"@,
        "  malloc <n>        - Allocate n bytes"@,
        "  echo <text>       - Echo text (supports $VAR)"@,
        "  pwd               - Print working dir"@,
        "  cd <path>         - Change directory"@,
        "  tree              - Show filesystem tree"@,
        "  edit <file>       - Open text editor"@,
        "  run <file>        - Execute a shell script"@,
        "  set [VAR=value]   - Set/list variables"@,
        "  unset <VAR>       - Remove variable"@,
        "Script syntax:"@,
        "  VAR=value         - Assign variable"@,
        "  $VAR              - Expand variable"@,
        "  # comment         - Comment line"@,
        "  if COND/else/end  - Conditional"@,
        "  for V in a b c/end- Loop"@,
        "  if exists <path>  - File exists check"@,
        "  if A == B         - String equality"@,
    ]
}

/// The lines that list the variables, `NAME=value` each, in order.
pub open spec fn var_lines(vars: Seq<(Seq<char>, Seq<char>)>) -> Seq<Seq<char>>
    decreases vars.len(),
{
    if vars.len() == 0 {
        Seq::empty()
    } else {
        var_lines(vars.drop_last()).push(vars.last().0 + "="@ + vars.last().1)
    }
}

// ---------------------------------------------------------------------------
// Conditions

/// One side of a comparison: trimmed, expanded, trimmed again.
pub open spec fn side(vars: Seq<(Seq<char>, Seq<char>)>, t: Seq<char>) -> Seq<char> {
    trim(expand(vars, trim(t)))
}

/// Whether a script condition holds: `A == B` and `A != B` compare the expanded sides,
/// `exists PATH` asks whether the path names an inode, and anything else holds when its
/// expansion is non-empty and neither `0` nor `false`.
pub open spec fn cond_spec(sh: ShellView, k: KernelView, cond: Seq<char>) -> bool {
    let c = trim(cond);
    match find_pair(c, '=', '=') {
        Some(p) => side(sh.vars, c.take(p)) == side(sh.vars, c.skip(p + 2)),
        None => match find_pair(c, '!', '=') {
            Some(p) => side(sh.vars, c.take(p)) != side(sh.vars, c.skip(p + 2)),
            None => if starts_with(c, "exists "@) {
                let path = shell_path(sh.cwd, trim(expand(sh.vars, trim(c.skip("exists "@.len() as int)))));
                dispatch_result(k, SyscallView::Open { path }) == ResultView::Success
            } else {
                let e = trim(expand(sh.vars, c));
                e.len() > 0 && e != "0"@ && e != "false"@
            },
        },
    }
}

// ---------------------------------------------------------------------------
// Commands

/// `o1` followed by `o2`: the later edit request wins.
pub open spec fn join_outcomes(o1: Outcome, o2: Option<Outcome>) -> Option<Outcome> {
    match o2 {
        Some(b) => Some(Outcome { edit: if b.edit is Some { b.edit } else { o1.edit }, ..b }),
        None => None,
    }
}

/// The first word of `s`, or empty.
pub open spec fn first_word(s: Seq<char>) -> Seq<char> {
    if words(s).len() > 0 { words(s)[0] } else { Seq::empty() }
}

/// A `NAME=value` assignment line: the name before the first `=` (non-empty, only name
/// characters) and the text after it.
pub open spec fn assignment(line: Seq<char>) -> Option<(Seq<char>, Seq<char>)> {
    match find_char(line, '=') {
        Some(eq) => {
            let key = line.take(eq);
            if key.len() > 0 && forall|i: int| 0 <= i < key.len() ==> is_name_char(#[trigger] key[i]) {
                Some((key, line.skip(eq + 1)))
            } else {
                None
            }
        },
        None => None,
    }
}

/// The text after the command word, or empty.
pub open spec fn args_of(t: Seq<char>) -> Seq<char> {
    match split_first_space(t).1 {
        Some(a) => a,
        None => Seq::empty(),
    }
}

/// Lines of an `if` block, read from `lines` until its matching `end`: the lines before
/// `else`, the lines after it, and the lines after `end`. Nested `if`/`for` blocks are kept
/// whole; each line is kept trimmed.
pub open spec fn collect_if(
    vars: Seq<(Seq<char>, Seq<char>)>,
    lines: Seq<Seq<char>>,
    depth: int,
    in_else: bool,
    ifb: Seq<Seq<char>>,
    elseb: Seq<Seq<char>>,
) -> (Seq<Seq<char>>, Seq<Seq<char>>, Seq<Seq<char>>)
    decreases lines.len(),
{
    if lines.len() == 0 {
        (ifb, elseb, lines)
    } else {
        let inner = trim(lines[0]);
        let rest = lines.drop_first();
        let w = first_word(trim(expand(vars, inner)));
        let ifb2 = if in_else { ifb } else { ifb.push(inner) };
        let elseb2 = if in_else { elseb.push(inner) } else { elseb };
        if w == "if"@ || w == "for"@ {
            collect_if(vars, rest, depth + 1, in_else, ifb2, elseb2)
        } else if w == "else"@ && depth == 1 {
            collect_if(vars, rest, depth, true, ifb, elseb)
        } else if w == "end"@ {
            if depth - 1 == 0 {
                (ifb, elseb, rest)
            } else {
                collect_if(vars, rest, depth - 1, in_else, ifb2, elseb2)
            }
        } else {
            collect_if(vars, rest, depth, in_else, ifb2, elseb2)
        }
    }
}

/// Lines of a `for` body, read from `lines` until its matching `end`, and the lines after it.
pub open spec fn collect_for(
    vars: Seq<(Seq<char>, Seq<char>)>,
    lines: Seq<Seq<char>>,
    depth: int,
    body: Seq<Seq<char>>,
) -> (Seq<Seq<char>>, Seq<Seq<char>>)
    decreases lines.len(),
{
    if lines.len() == 0 {
        (body, lines)
    } else {
        let inner = trim(lines[0]);
        let rest = lines.drop_first();
        let w = first_word(trim(expand(vars, inner)));
        if w == "if"@ || w == "for"@ {
            collect_for(vars, rest, depth + 1, body.push(inner))
        } else if w == "end"@ {
            if depth - 1 == 0 {
                (body, rest)
            } else {
                collect_for(vars, rest, depth - 1, body.push(inner))
            }
        } else {
            collect_for(vars, rest, depth, body.push(inner))
        }
    }
}

/// The collected blocks are no longer than what they were read from.
pub proof fn lemma_collect_if_len(
    vars: Seq<(Seq<char>, Seq<char>)>,
    lines: Seq<Seq<char>>,
    depth: int,
    in_else: bool,
    ifb: Seq<Seq<char>>,
    elseb: Seq<Seq<char>>,
)
    ensures
        ({
            let r = collect_if(vars, lines, depth, in_else, ifb, elseb);
            &&& r.0.len() <= ifb.len() + lines.len()
            &&& r.1.len() <= elseb.len() + lines.len()
            &&& r.2.len() <= lines.len()
        }),
    decreases lines.len(),
{
    if lines.len() > 0 {
        let inner = trim(lines[0]);
        let rest = lines.drop_first();
        let ifb2 = if in_else { ifb } else { ifb.push(inner) };
        let elseb2 = if in_else { elseb.push(inner) } else { elseb };
        lemma_collect_if_len(vars, rest, depth + 1, in_else, ifb2, elseb2);
        lemma_collect_if_len(vars, rest, depth, true, ifb, elseb);
        lemma_collect_if_len(vars, rest, depth - 1, in_else, ifb2, elseb2);
        lemma_collect_if_len(vars, rest, depth, in_else, ifb2, elseb2);
    }
}

/// The collected body is no longer than what it was read from.
pub proof fn lemma_collect_for_len(vars: Seq<(Seq<char>, Seq<char>)>, lines: Seq<Seq<char>>, depth: int, body: Seq<Seq<char>>)
    ensures
        ({
            let r = collect_for(vars, lines, depth, body);
            &&& r.0.len() <= body.len() + lines.len()
            &&& r.1.len() <= lines.len()
        }),
    decreases lines.len(),
{
    if lines.len() > 0 {
        let inner = trim(lines[0]);
        let rest = lines.drop_first();
        lemma_collect_for_len(vars, rest, depth + 1, body.push(inner));
        lemma_collect_for_len(vars, rest, depth - 1, body.push(inner));
        lemma_collect_for_len(vars, rest, depth, body.push(inner));
    }
}

/// The loop values of a `for` header's text after `for`: `VAR in v1 v2 ...`.
pub open spec fn for_values(rest: Seq<char>) -> Seq<Seq<char>> {
    match split_first_space(rest).1 {
        Some(r) => match split_first_space(r).1 {
            Some(p2) => if split_first_space(r).0 == "in"@ { words(p2) } else { Seq::empty() },
            None => Seq::empty(),
        },
        None => Seq::empty(),
    }
}

/// The outcome of a system call made by a command, when its counters stay in range.
pub open spec fn call_ok(k: KernelView, s: SyscallView) -> bool {
    syscall_in_range(k, s)
}

/// Running script lines (see the script language: `NAME=value`, `if`/`else`/`end`,
/// `for NAME in ...`/`end`, `#` comments, and commands). `None` when a counter of the
/// machine would overflow on the way.
pub open spec fn lines_spec(sh: ShellView, k: KernelView, lines: Seq<Seq<char>>, d: nat) -> Option<Outcome>
    decreases d, lines.len() + 1, 0nat,
{
    if lines.len() == 0 {
        done(sh, k)
    } else {
        let raw = trim(lines[0]);
        let rest = lines.drop_first();
        if raw.len() == 0 || raw[0] == '#' {
            lines_spec(sh, k, rest, d)
        } else {
            let line = trim(expand(sh.vars, raw));
            match assignment(line) {
                Some(kv) => lines_spec(ShellView { vars: var_set(sh.vars, kv.0, kv.1), ..sh }, k, rest, d),
                None => {
                    let word = split_first_space(line).0;
                    let arg = args_of(line);
                    if word == "if"@ {
                        let c = cond_spec(sh, k, trim(arg));
                        let blk = collect_if(sh.vars, rest, 1, false, Seq::empty(), Seq::empty());
                        proof {
                            lemma_collect_if_len(sh.vars, rest, 1, false, Seq::empty(), Seq::empty());
                        }
                        let body = if c { blk.0 } else { blk.1 };
                        match lines_spec(sh, k, body, d) {
                            Some(o1) => join_outcomes(o1, lines_spec(o1.shell, o1.kernel, blk.2, d)),
                            None => None,
                        }
                    } else if word == "for"@ {
                        let var = split_first_space(arg).0;
                        let values = for_values(arg);
                        let blk = collect_for(sh.vars, rest, 1, Seq::empty());
                        proof {
                            lemma_collect_for_len(sh.vars, rest, 1, Seq::empty());
                        }
                        match for_spec(sh, k, var, values, blk.0, d) {
                            Some(o1) => join_outcomes(o1, lines_spec(o1.shell, o1.kernel, blk.1, d)),
                            None => None,
                        }
                    } else if word == "else"@ || word == "end"@ {
                        lines_spec(sh, k, rest, d)
                    } else {
                        match cmd_spec(sh, k, line, d) {
                            Some(o1) => join_outcomes(o1, lines_spec(o1.shell, o1.kernel, rest, d)),
                            None => None,
                        }
                    }
                },
            }
        }
    }
}

/// Running a loop body once per value, with the loop variable set to the value.
pub open spec fn for_spec(
    sh: ShellView,
    k: KernelView,
    var: Seq<char>,
    values: Seq<Seq<char>>,
    body: Seq<Seq<char>>,
    d: nat,
) -> Option<Outcome>
    decreases d, body.len() + 1, values.len() + 1,
{
    if values.len() == 0 {
        done(sh, k)
    } else {
        let sh1 = ShellView { vars: var_set(sh.vars, var, values[0]), ..sh };
        match lines_spec(sh1, k, body, d) {
            Some(o1) => join_outcomes(o1, for_spec(o1.shell, o1.kernel, var, values.drop_first(), body, d)),
            None => None,
        }
    }
}

/// A command's result printed by a file system command: a message on success, the error
/// otherwise.
pub open spec fn report(sh: ShellView, r: ResultView, ok: Seq<char>) -> ShellView {
    match r {
        ResultView::Success => out_line(sh, ok),
        ResultView::Error(e) => out_error(sh, e),
        _ => sh,
    }
}

/// The outcome of a system call with a result printed by `report`.
pub open spec fn fs_command(sh: ShellView, k: KernelView, s: SyscallView, ok: Seq<char>) -> Option<Outcome> {
    if call_ok(k, s) {
        done(report(sh, dispatch_result(k, s), ok), dispatch_state(k, s))
    } else {
        None
    }
}

/// Prints each line of a `Str` result.
pub open spec fn print_str(sh: ShellView, r: ResultView) -> ShellView {
    match r {
        ResultView::Str(t) => out_lines(sh, text_lines(t)),
        _ => sh,
    }
}

/// `ls [path]`: lists the working directory or the given path.
pub open spec fn ls_spec(sh: ShellView, k: KernelView, args: Seq<char>, path: Seq<char>) -> Option<Outcome> {
    let p = if args.len() == 0 { sh.cwd } else { path };
    let s = SyscallView::ListDir { path: p };
    done(
        match dispatch_result(k, s) {
            ResultView::Str(t) => if t.len() == 0 { out_line(sh, "(empty)"@) } else { out_lines(sh, text_lines(t)) },
            ResultView::Error(e) => out_error(sh, e),
            _ => sh,
        },
        dispatch_state(k, s),
    )
}

/// `cat <file>`: prints a file.
pub open spec fn cat_spec(sh: ShellView, k: KernelView, args: Seq<char>, path: Seq<char>) -> Option<Outcome> {
    if args.len() == 0 {
        done(out_line(sh, "Usage: cat <file>"@), k)
    } else {
        let s = SyscallView::Read { path };
        done(
            match dispatch_result(k, s) {
                ResultView::Str(t) => out_lines(sh, text_lines(t)),
                ResultView::Error(e) => out_error(sh, e),
                _ => sh,
            },
            dispatch_state(k, s),
        )
    }
}

/// `mkdir`, `touch` and `rm` (`which` 0, 1, 2): a file system call on the path, reported.
pub open spec fn fs_cmd_spec(sh: ShellView, k: KernelView, args: Seq<char>, path: Seq<char>, which: int) -> Option<Outcome> {
    if args.len() == 0 {
        done(
            out_line(
                sh,
                if which == 0 { "Usage: mkdir <dir>"@ } else if which == 1 { "Usage: touch <file>"@ } else { "Usage: rm <file>"@ },
            ),
            k,
        )
    } else if which == 0 {
        fs_command(sh, k, SyscallView::CreateDir { path }, "Created directory: "@ + path)
    } else if which == 1 {
        fs_command(sh, k, SyscallView::Create { path }, "Created file: "@ + path)
    } else {
        fs_command(sh, k, SyscallView::Delete { path }, "Deleted: "@ + path)
    }
}

/// `ps`: prints the process listing under a header.
pub open spec fn ps_spec(sh: ShellView, k: KernelView) -> Option<Outcome> {
    let s = SyscallView::ListProcesses;
    done(
        match dispatch_result(k, s) {
            ResultView::Str(t) => out_lines(
                out_line(out_line(sh, "PID  NAME             STATE       PRI  CPU"@), "───  ───────────────  ──────────  ───  ───"@),
                text_lines(t),
            ),
            _ => sh,
        },
        dispatch_state(k, s),
    )
}

/// `memfree <page>`: frees the page that an allocation starts at.
pub open spec fn memfree_spec(sh: ShellView, k: KernelView, args: Seq<char>) -> Option<Outcome> {
    if args.len() == 0 {
        done(out_line(sh, "Usage: memfree <page>"@), k)
    } else {
        match parse_unsigned(trim(args), (usize::MAX - 1) as nat) {
            Some(page) => {
                let s = SyscallView::Free { ptr: page as usize };
                done(report(sh, dispatch_result(k, s), "Freed page "@ + dec(page)), dispatch_state(k, s))
            },
            None => done(out_line(sh, "Invalid page"@), k),
        }
    }
}

/// `kill <pid>`.
pub open spec fn kill_spec(sh: ShellView, k: KernelView, args: Seq<char>) -> Option<Outcome> {
    if args.len() == 0 {
        done(out_line(sh, "Usage: kill <pid>"@), k)
    } else {
        match parse_unsigned(trim(args), u32::MAX as nat) {
            Some(pid) => {
                let s = SyscallView::Kill { pid: pid as u32 };
                done(report(sh, dispatch_result(k, s), "Killed process "@ + dec(pid)), dispatch_state(k, s))
            },
            None => done(out_line(sh, "Invalid PID"@), k),
        }
    }
}

/// `exec <name>`: forks a process of priority 5.
pub open spec fn exec_spec(sh: ShellView, k: KernelView, args: Seq<char>) -> Option<Outcome> {
    if args.len() == 0 {
        done(out_line(sh, "Usage: exec <name>"@), k)
    } else {
        let s = SyscallView::Fork { name: args, priority: 5 };
        if call_ok(k, s) {
            done(
                match dispatch_result(k, s) {
                    ResultView::Value(pid) => out_line(sh, "Started process '"@ + args + "' with PID="@ + int_dec(pid as int)),
                    ResultView::Error(e) => out_error(sh, e),
                    _ => sh,
                },
                dispatch_state(k, s),
            )
        } else {
            None
        }
    }
}

/// `free`: prints the memory statistics.
pub open spec fn free_spec(sh: ShellView, k: KernelView) -> Option<Outcome> {
    let s = SyscallView::MemStats;
    done(
        match dispatch_result(k, s) {
            ResultView::Str(t) => out_line(sh, t),
            _ => sh,
        },
        dispatch_state(k, s),
    )
}

/// `malloc <bytes>`.
pub open spec fn malloc_spec(sh: ShellView, k: KernelView, args: Seq<char>) -> Option<Outcome> {
    if args.len() == 0 {
        done(out_line(sh, "Usage: malloc <bytes>"@), k)
    } else {
        match parse_unsigned(trim(args), usize::MAX as nat) {
            Some(size) => {
                let s = SyscallView::Malloc { size: size as usize };
                done(
                    match dispatch_result(k, s) {
                        ResultView::Value(ptr) => out_line(sh, "Allocated "@ + dec(size) + " bytes at page "@ + int_dec(ptr as int)),
                        ResultView::Error(e) => out_error(sh, e),
                        _ => sh,
                    },
                    dispatch_state(k, s),
                )
            },
            None => done(out_line(sh, "Invalid size"@), k),
        }
    }
}

/// `cd [path]`: with no path back to `/home`.
pub open spec fn cd_spec(sh: ShellView, k: KernelView, args: Seq<char>, path: Seq<char>) -> Option<Outcome> {
    if args.len() == 0 {
        done(ShellView { cwd: "/home"@, ..sh }, k)
    } else {
        let s = SyscallView::ListDir { path };
        done(
            match dispatch_result(k, s) {
                ResultView::Str(_) => ShellView { cwd: path, ..sh },
                _ => out_line(sh, "cd: no such directory: "@ + args),
            },
            dispatch_state(k, s),
        )
    }
}

/// `set [NAME=value]`: lists or sets variables.
pub open spec fn set_spec(sh: ShellView, k: KernelView, args: Seq<char>) -> Option<Outcome> {
    if args.len() == 0 {
        if sh.vars.len() == 0 {
            done(out_line(sh, "(no variables set)"@), k)
        } else {
            done(out_lines(sh, var_lines(sh.vars)), k)
        }
    } else {
        match find_char(args, '=') {
            Some(eq) => done(ShellView { vars: var_set(sh.vars, trim(args.take(eq)), trim(args.skip(eq + 1))), ..sh }, k),
            None => done(out_line(sh, "Usage: set VAR=value  or  set (list all)"@), k),
        }
    }
}

/// `unset <NAME>`.
pub open spec fn unset_spec(sh: ShellView, k: KernelView, args: Seq<char>) -> Option<Outcome> {
    if args.len() == 0 {
        done(out_line(sh, "Usage: unset <VAR>"@), k)
    } else {
        done(out_line(ShellView { vars: var_unset(sh.vars, trim(args)), ..sh }, "unset "@ + trim(args)), k)
    }
}

/// Any other command: `NAME=value` sets a variable (to the expanded value) and echoes it;
/// anything else is reported as unknown.
pub open spec fn other_spec(sh: ShellView, k: KernelView, cmd: Seq<char>, command: Seq<char>) -> Option<Outcome> {
    let unknown = out_line(sh, "Unknown command: "@ + command + ". Type 'help' for help."@);
    match find_char(cmd, '=') {
        Some(eq) => {
            let key = trim(cmd.take(eq));
            if key.len() > 0 && forall|i: int| 0 <= i < key.len() ==> is_name_char(#[trigger] key[i]) {
                let val = expand(sh.vars, trim(cmd.skip(eq + 1)));
                done(out_line(ShellView { vars: var_set(sh.vars, key, val), ..sh }, key + "="@ + val), k)
            } else {
                done(unknown, k)
            }
        },
        None => done(unknown, k),
    }
}

/// `run <script>`: runs the file as a script, one level of nesting deeper; at the deepest
/// level it refuses.
pub open spec fn run_spec(sh: ShellView, k: KernelView, args: Seq<char>, path: Seq<char>, d: nat) -> Option<Outcome>
    decreases d, 0nat, 0nat,
{
    if args.len() == 0 {
        done(out_line(sh, "Usage: run <script>"@), k)
    } else if d == 0 {
        done(out_line(sh, "run: nesting too deep: "@ + path), k)
    } else {
        let s = SyscallView::Read { path };
        let k1 = dispatch_state(k, s);
        match dispatch_result(k, s) {
            ResultView::Str(script) => {
                let sh1 = out_line(sh, "--- Running script: "@ + path + " ---"@);
                match lines_spec(sh1, k1, text_lines(script), (d - 1) as nat) {
                    Some(o) => Some(Outcome { shell: out_line(o.shell, "--- Script done: "@ + path + " ---"@), ..o }),
                    None => None,
                }
            },
            ResultView::Error(e) => done(out_line(sh, "run: "@ + e), k1),
            _ => done(sh, k1),
        }
    }
}

/// Running one shell command. `None` when a counter of the machine would overflow.
pub open spec fn cmd_spec(sh: ShellView, k: KernelView, cmd: Seq<char>, d: nat) -> Option<Outcome>
    decreases d, 1nat, 0nat,
{
    let t = trim(cmd);
    let command = split_first_space(t).0;
    let args = args_of(t);
    let path = shell_path(sh.cwd, args);
    if command == "help"@ {
        done(out_lines(sh, help_lines()), k)
    } else if command == "ls"@ {
        ls_spec(sh, k, args, path)
    } else if command == "cat"@ {
        cat_spec(sh, k, args, path)
    } else if command == "mkdir"@ {
        fs_cmd_spec(sh, k, args, path, 0)
    } else if command == "touch"@ {
        fs_cmd_spec(sh, k, args, path, 1)
    } else if command == "rm"@ {
        fs_cmd_spec(sh, k, args, path, 2)
    } else if command == "ps"@ {
        ps_spec(sh, k)
    } else if command == "kill"@ {
        kill_spec(sh, k, args)
    } else if command == "exec"@ {
        exec_spec(sh, k, args)
    } else if command == "free"@ {
        free_spec(sh, k)
    } else if command == "malloc"@ {
        malloc_spec(sh, k, args)
    } else if command == "memfree"@ {
        memfree_spec(sh, k, args)
    } else if command == "echo"@ {
        done(out_line(sh, expand(sh.vars, args)), k)
    } else if command == "pwd"@ {
        done(out_line(sh, sh.cwd), k)
    } else if command == "cd"@ {
        cd_spec(sh, k, args, path)
    } else if command == "tree"@ {
        done(print_str(sh, dispatch_result(k, SyscallView::GetTree)), dispatch_state(k, SyscallView::GetTree))
    } else if command == "edit"@ {
        if args.len() == 0 {
            done(out_line(sh, "Usage: edit <file>"@), k)
        } else {
            Some(Outcome { shell: out_line(sh, "Opening editor: "@ + path), kernel: k, edit: Some(path) })
        }
    } else if command == "run"@ {
        run_spec(sh, k, args, path, d)
    } else if command == "set"@ {
        set_spec(sh, k, args)
    } else if command == "unset"@ {
        unset_spec(sh, k, args)
    } else {
        other_spec(sh, k, cmd, command)
    }
}

// ---------------------------------------------------------------------------
// Implementation

/// The abstract value of an optional string.
pub open spec fn opt_text(o: Option<String>) -> Option<Seq<char>> {
    match o {
        Some(s) => Some(s@),
        None => None,
    }
}

/// A new shell: in `/home`, with no history or variables, showing its banner.
pub open spec fn initial_shell() -> ShellView {
    out_lines(
        ShellView {
            history: Seq::empty(),
            input: Seq::empty(),
            output: Seq::empty(),
            scroll: 0,
            cwd: "/home"@,
            vars: Seq::empty(),
        },
        seq!["rust-minios shell v0.1.0"@, "Type 'help' for available commands."@, Seq::<char>::empty()],
    )
}

impl Shell {
    pub open spec fn view(&self) -> ShellView {
        ShellView {
            history: texts_of(self.history@),
            input: self.current_input@,
            output: texts_of(self.output_lines@),
            scroll: self.scroll_offset,
            cwd: self.cwd@,
            vars: pairs_of(self.vars@),
        }
    }

    /// No two variables share a name.
    pub open spec fn wf(&self) -> bool {
        names_unique(self@.vars)
    }

    /// A shell in `/home` showing its banner.
    pub fn new() -> (sh: Self)
        ensures
            sh@ == initial_shell(),
            sh.wf(),
    {
        let mut shell = Shell {
            history: Vec::new(),
            current_input: String::new(),
            output_lines: Vec::new(),
            scroll_offset: 0,
            cwd: String::from_str("/home"),
            vars: Vec::new(),
        };
        let ghost s0 = shell@;
        proof {
            assert(shell@.output =~= Seq::<Seq<char>>::empty());
            assert(shell@.history =~= Seq::<Seq<char>>::empty());
            assert(shell@.vars =~= Seq::<(Seq<char>, Seq<char>)>::empty());
        }
        shell.push_output_str("rust-minios shell v0.1.0");
        shell.push_output_str("Type 'help' for available commands.");
        shell.push_output_str("");
        proof {
            let base = ShellView {
                history: Seq::empty(),
                input: Seq::empty(),
                output: Seq::empty(),
                scroll: 0,
                cwd: "/home"@,
                vars: Seq::empty(),
            };
            assert(s0 =~= base);
            let a1 = "rust-minios shell v0.1.0"@;
            let a2 = "Type 'help' for available commands."@;
            let l3 = seq![a1, a2, Seq::<char>::empty()];
            assert(l3.drop_last() =~= seq![a1, a2]);
            assert(seq![a1, a2].drop_last() =~= seq![a1]);
            assert(seq![a1].drop_last() =~= Seq::<Seq<char>>::empty());
            assert(out_lines(base, Seq::<Seq<char>>::empty()) == base);
            assert(seq![a1].last() == a1);
            assert(seq![a1, a2].last() == a2);
            assert(l3.last() == Seq::<char>::empty());
            assert(out_lines(base, seq![a1]) == out_line(base, a1));
            assert(out_lines(base, seq![a1, a2]) == out_line(out_line(base, a1), a2));
            assert(""@ =~= Seq::<char>::empty()) by {
                reveal_strlit("");
            }
            assert(out_lines(base, l3) == out_line(out_line(out_line(base, a1), a2), Seq::<char>::empty()));
        }
        shell
    }

    /// Prints a line: at most `MAX_OUTPUT_LINES` are kept and the view scrolls to the bottom.
    fn push_output(&mut self, line: &[char])
        ensures
            final(self)@ == out_line(old(self)@, line@),
    {
        let ghost prev = self.output_lines@;
        self.output_lines.push(string_of(line));
        if self.output_lines.len() > MAX_OUTPUT_LINES {
            self.output_lines.remove(0);
        }
        self.scroll_offset = self.output_lines.len() - 1;
        proof {
            let o = texts_of(prev).push(line@);
            assert(texts_of(prev.push(self.output_lines@.last())) =~= o) by {
                if prev.len() + 1 <= MAX_OUTPUT_LINES {
                }
            }
            if o.len() > MAX_OUTPUT_LINES {
                assert(texts_of(self.output_lines@) =~= o.drop_first());
            } else {
                assert(texts_of(self.output_lines@) =~= o);
            }
        }
    }

    /// Prints a line given as a string slice.
    fn push_output_str(&mut self, line: &str)
        ensures
            final(self)@ == out_line(old(self)@, line@),
    {
        let c = chars_of(line);
        self.push_output(c.as_slice());
    }

    /// Prints each line of `text`.
    fn push_text_lines(&mut self, text: &str)
        ensures
            final(self)@ == out_lines(old(self)@, text_lines(text@)),
    {
        let lines = split_lines(text);
        let mut i: usize = 0;
        while i < lines.len()
            invariant
                i <= lines@.len(),
                texts_of(lines@) == text_lines(text@),
                self@ == out_lines(old(self)@, texts_of(lines@).take(i as int)),
            decreases lines@.len() - i,
        {
            self.push_output_str(lines[i].as_str());
            proof {
                let t = texts_of(lines@);
                assert(t.take(i + 1).drop_last() =~= t.take(i as int));
                assert(t.take(i + 1).last() == lines@[i as int]@);
            }
            i = i + 1;
        }
        proof {
            assert(texts_of(lines@).take(lines@.len() as int) =~= texts_of(lines@));
        }
    }

    /// Types a character into the input line.
    pub fn handle_input(&mut self, ch: char)
        ensures
            final(self)@ == (ShellView { input: old(self)@.input.push(ch), ..old(self)@ }),
    {
        push_char(&mut self.current_input, ch);
    }

    /// Deletes the last character of the input line, if any.
    pub fn handle_backspace(&mut self)
        ensures
            final(self)@ == (ShellView {
                input: if old(self)@.input.len() > 0 { old(self)@.input.drop_last() } else { old(self)@.input },
                ..old(self)@
            }),
    {
        let c = chars_of(self.current_input.as_str());
        if c.len() > 0 {
            self.current_input = string_of(&c.as_slice()[0..c.len() - 1]);
            proof {
                assert(self.current_input@ =~= old(self)@.input.drop_last());
            }
        }
    }

    /// Scrolls the output up by a line.
    pub fn scroll_up(&mut self)
        ensures
            final(self)@ == (ShellView {
                scroll: if old(self)@.scroll > 0 { (old(self)@.scroll - 1) as usize } else { old(self)@.scroll },
                ..old(self)@
            }),
    {
        if self.scroll_offset > 0 {
            self.scroll_offset = self.scroll_offset - 1;
        }
    }

    /// Scrolls the output down by a line, stopping at the last line.
    pub fn scroll_down(&mut self)
        requires
            old(self).scroll_offset < usize::MAX,
        ensures
            final(self)@ == (ShellView {
                scroll: if old(self)@.scroll + 1 < old(self)@.output.len() {
                    (old(self)@.scroll + 1) as usize
                } else {
                    old(self)@.scroll
                },
                ..old(self)@
            }),
    {
        if self.scroll_offset + 1 < self.output_lines.len() {
            self.scroll_offset = self.scroll_offset + 1;
        }
    }

    /// Position of the variable named `key`.
    fn var_position(&self, key: &[char]) -> (r: Option<usize>)
        ensures
            match r {
                Some(i) => var_index(self@.vars, key@) == Some(i as int) && i < self.vars@.len(),
                None => var_index(self@.vars, key@) is None,
            },
    {
        let mut i: usize = 0;
        proof {
            assert(self@.vars.skip(0) =~= self@.vars);
        }
        while i < self.vars.len()
            invariant
                i <= self.vars@.len(),
                var_index(self@.vars, key@) == (match var_index(self@.vars.skip(i as int), key@) {
                    Some(j) => Some(j + i),
                    None => None,
                }),
            decreases self.vars@.len() - i,
        {
            proof {
                assert(self@.vars.skip(i as int)[0] == self@.vars[i as int]);
                assert(self@.vars.skip(i as int).drop_first() =~= self@.vars.skip(i + 1));
            }
            let kc = chars_of(self.vars[i].0.as_str());
            if chars_eq(kc.as_slice(), key) {
                return Some(i);
            }
            i = i + 1;
        }
        None
    }

    /// The value of variable `key`, as characters, if set.
    fn get_var(&self, key: &[char]) -> (r: Option<Vec<char>>)
        ensures
            match r {
                Some(v) => var_get(self@.vars, key@) == Some(v@),
                None => var_get(self@.vars, key@) is None,
            },
    {
        match self.var_position(key) {
            Some(i) => Some(chars_of(self.vars[i].1.as_str())),
            None => None,
        }
    }

    /// Sets variable `key` to `value`.
    fn set_var(&mut self, key: &[char], value: &[char])
        ensures
            final(self)@ == (ShellView { vars: var_set(old(self)@.vars, key@, value@), ..old(self)@ }),
    {
        let pair = (string_of(key), string_of(value));
        match self.var_position(key) {
            Some(i) => {
                self.vars.set(i, pair);
                proof {
                    assert(pairs_of(self.vars@) =~= var_set(old(self)@.vars, key@, value@));
                }
            },
            None => {
                self.vars.push(pair);
                proof {
                    assert(pairs_of(self.vars@) =~= var_set(old(self)@.vars, key@, value@));
                }
            },
        }
    }

    /// Unsets variable `key`.
    fn unset_var(&mut self, key: &[char])
        ensures
            final(self)@ == (ShellView { vars: var_unset(old(self)@.vars, key@), ..old(self)@ }),
    {
        match self.var_position(key) {
            Some(i) => {
                self.vars.remove(i);
                proof {
                    assert(pairs_of(self.vars@) =~= var_unset(old(self)@.vars, key@));
                }
            },
            None => {},
        }
    }

    /// Expands `$NAME` references in `s`.
    fn expand_vars(&self, s: &[char]) -> (r: Vec<char>)
        ensures
            r@ == expand(self@.vars, s@),
    {
        let mut out: Vec<char> = Vec::new();
        let mut i: usize = 0;
        proof {
            assert(s@.skip(0) =~= s@);
        }
        while i < s.len()
            invariant
                i <= s@.len(),
                out@ + expand(self@.vars, s@.skip(i as int)) == expand(self@.vars, s@),
            decreases s@.len() - i,
        {
            let ghost rest = s@.skip(i as int);
            let ghost out0 = out@;
            proof {
                assert(rest[0] == s@[i as int]);
                assert(rest.drop_first() =~= s@.skip(i + 1));
            }
            if s[i] == '$' {
                let mut j: usize = i + 1;
                while j < s.len() && crate::text::name_char(s[j])
                    invariant
                        i + 1 <= j <= s@.len(),
                        forall|q: int| i + 1 <= q < j ==> is_name_char(#[trigger] s@[q]),
                    decreases s@.len() - j,
                {
                    j = j + 1;
                }
                proof {
                    let t = rest.drop_first();
                    lemma_name_len(t);
                    let n = name_len(t);
                    assert forall|q: int| 0 <= q < j - i - 1 implies is_name_char(#[trigger] t[q]) by {
                        assert(t[q] == s@[i + 1 + q]);
                    }
                    if j < s@.len() {
                        assert(t[j - i - 1] == s@[j as int]);
                    }
                    lemma_name_len_exact(t, (j - i - 1) as int);
                    assert(n == j - i - 1);
                }
                if j == i + 1 {
                    out.push('$');
                    proof {
                        assert(out@ + expand(self@.vars, s@.skip(i + 1)) =~= out0 + expand(self@.vars, rest));
                    }
                    i = i + 1;
                } else {
                    let mut name: Vec<char> = Vec::new();
                    push_all(&mut name, &s[i + 1..j]);
                    match self.get_var(name.as_slice()) {
                        Some(v) => push_all(&mut out, v.as_slice()),
                        None => {},
                    }
                    proof {
                        assert(name@ =~= rest.subrange(1, 1 + (j - i - 1)));
                        assert(rest.skip(1 + (j - i - 1)) =~= s@.skip(j as int));
                        assert(out@ + expand(self@.vars, s@.skip(j as int)) =~= out0 + expand(self@.vars, rest));
                    }
                    i = j;
                }
            } else {
                out.push(s[i]);
                proof {
                    assert(out@ + expand(self@.vars, s@.skip(i + 1)) =~= out0 + expand(self@.vars, rest));
                }
                i = i + 1;
            }
        }
        proof {
            assert(s@.skip(s@.len() as int) =~= Seq::<char>::empty());
            assert(out@ + Seq::<char>::empty() =~= out@);
        }
        out
    }

    /// A path as the shell resolves it (relative to the working directory).
    fn resolve_path(&self, p: &[char]) -> (r: Vec<char>)
        ensures
            r@ == shell_path(self@.cwd, p@),
    {
        let slash = chars_of("/");
        if starts_with_exec(p, slash.as_slice()) {
            let mut r: Vec<char> = Vec::new();
            push_all(&mut r, p);
            r
        } else {
            let cwd = chars_of(self.cwd.as_str());
            let mut end = cwd.len();
            proof {
                assert(cwd@.take(cwd@.len() as int) =~= cwd@);
            }
            while end > 0 && cwd[end - 1] == '/'
                invariant
                    end <= cwd@.len(),
                    trim_end_slashes(cwd@) == trim_end_slashes(cwd@.take(end as int)),
                decreases end,
            {
                proof {
                    assert(cwd@.take(end as int).drop_last() =~= cwd@.take(end - 1));
                }
                end = end - 1;
            }
            let mut r: Vec<char> = Vec::new();
            push_all(&mut r, &cwd.as_slice()[0..end]);
            push_all(&mut r, slash.as_slice());
            push_all(&mut r, p);
            proof {
                assert(cwd@.subrange(0, end as int) =~= cwd@.take(end as int));
                assert(trim_end_slashes(cwd@.take(end as int)) == cwd@.take(end as int));
            }
            r
        }
    }
}

impl Shell {
    /// Prints `Error: ` and the message.
    fn push_error(&mut self, e: &str)
        ensures
            final(self)@ == out_error(old(self)@, e@),
    {
        let mut v: Vec<char> = Vec::new();
        push_str(&mut v, "Error: ");
        push_str(&mut v, e);
        proof {
            assert(v@ =~= "Error: "@ + e@);
        }
        self.push_output(v.as_slice());
    }

    /// Prints the lines in order.
    fn push_seq(&mut self, lines: &Vec<&str>)
        ensures
            final(self)@ == out_lines(old(self)@, lines@.map_values(|l: &str| l@)),
    {
        let mut i: usize = 0;
        while i < lines.len()
            invariant
                i <= lines@.len(),
                self@ == out_lines(old(self)@, lines@.map_values(|l: &str| l@).take(i as int)),
            decreases lines@.len() - i,
        {
            self.push_output_str(lines[i]);
            proof {
                let t = lines@.map_values(|l: &str| l@);
                assert(t.take(i + 1).drop_last() =~= t.take(i as int));
                assert(t.take(i + 1).last() == lines@[i as int]@);
            }
            i = i + 1;
        }
        proof {
            assert(lines@.map_values(|l: &str| l@).take(lines@.len() as int) =~= lines@.map_values(|l: &str| l@));
        }
    }

    /// `help`.
    fn cmd_help(&mut self)
        ensures
            final(self)@ == out_lines(old(self)@, help_lines()),
    {
        let lines: Vec<&str> = vec![
            "Available commands:",
            "  help              - Show this help",
            "  ls [path]         - List directory",
            "  cat <file>        - Show file contents",
            "  mkdir <dir>       - Create directory",
            "  touch <file>      - Create empty file",
            "  rm <file>         - Delete file/dir",
            "  ps                - List processes",
            "  kill <pid>        - Kill process",
            "  exec <name>       - Run new process",
            "  free              - Show memory stats",
            "  malloc <n>        - Allocate n bytes",
            "  echo <text>       - Echo text (supports $VAR)",
            "  pwd               - Print working dir",
            "  cd <path>         - Change directory",
            "  tree              - Show filesystem tree",
            "  edit <file>       - Open text editor",
            "  run <file>        - Execute a shell script",
            "  set [VAR=value]   - Set/list variables",
            "  unset <VAR>       - Remove variable",
            "Script syntax:",
            "  VAR=value         - Assign variable",
            "  $VAR              - Expand variable",
            "  # comment         - Comment line",
            "  if COND/else/end  - Conditional",
            "  for V in a b c/end- Loop",
            "  if exists <path>  - File exists check",
            "  if A == B         - String equality",
        ];
        proof {
            assert(lines@.map_values(|l: &str| l@) =~= help_lines());
        }
        self.push_seq(&lines);
    }

    /// `ls`.
    fn cmd_ls(&mut self, kernel: &mut Kernel, args: &[char], path: &[char])
        requires
            old(kernel).wf(),
        ensures
            final(kernel).wf(),
            ls_spec(old(self)@, old(kernel)@, args@, path@) == done(final(self)@, final(kernel)@),
    {
        let p = if args.len() == 0 { chars_of(self.cwd.as_str()) } else { to_vec(path) };
        match kernel.dispatch(Syscall::ListDir { path: string_of(p.as_slice()) }) {
            SyscallResult::Str(s) => {
                if s.as_str().is_empty() {
                    self.push_output_str("(empty)");
                } else {
                    self.push_text_lines(s.as_str());
                }
            },
            SyscallResult::Error(e) => self.push_error(e.as_str()),
            _ => {},
        }
    }

    /// `cat`.
    fn cmd_cat(&mut self, kernel: &mut Kernel, args: &[char], path: &[char])
        requires
            old(kernel).wf(),
        ensures
            final(kernel).wf(),
            cat_spec(old(self)@, old(kernel)@, args@, path@) == done(final(self)@, final(kernel)@),
    {
        if args.len() == 0 {
            self.push_output_str("Usage: cat <file>");
        } else {
            match kernel.dispatch(Syscall::Read { path: string_of(path) }) {
                SyscallResult::Str(s) => self.push_text_lines(s.as_str()),
                SyscallResult::Error(e) => self.push_error(e.as_str()),
                _ => {},
            }
        }
    }

    /// Prints `prefix` followed by `path`.
    fn push_with_path(&mut self, prefix: &str, path: &[char])
        ensures
            final(self)@ == out_line(old(self)@, prefix@ + path@),
    {
        let mut v: Vec<char> = Vec::new();
        push_str(&mut v, prefix);
        push_all(&mut v, path);
        self.push_output(v.as_slice());
    }

    /// `mkdir`, `touch` and `rm`.
    fn cmd_fs(&mut self, kernel: &mut Kernel, args: &[char], path: &[char], which: u8) -> (ok: bool)
        requires
            old(kernel).wf(),
            which <= 2,
        ensures
            final(kernel).wf(),
            ok == fs_cmd_spec(old(self)@, old(kernel)@, args@, path@, which as int) is Some,
            ok ==> fs_cmd_spec(old(self)@, old(kernel)@, args@, path@, which as int) == done(final(self)@, final(kernel)@),
    {
        if args.len() == 0 {
            if which == 0 {
                self.push_output_str("Usage: mkdir <dir>");
            } else if which == 1 {
                self.push_output_str("Usage: touch <file>");
            } else {
                self.push_output_str("Usage: rm <file>");
            }
            return true;
        }
        let sc = if which == 0 {
            Syscall::CreateDir { path: string_of(path) }
        } else if which == 1 {
            Syscall::Create { path: string_of(path) }
        } else {
            Syscall::Delete { path: string_of(path) }
        };
        if !kernel.can_dispatch(&sc) {
            return false;
        }
        match kernel.dispatch(sc) {
            SyscallResult::Success => {
                if which == 0 {
                    self.push_with_path("Created directory: ", path);
                } else if which == 1 {
                    self.push_with_path("Created file: ", path);
                } else {
                    self.push_with_path("Deleted: ", path);
                }
            },
            SyscallResult::Error(e) => self.push_error(e.as_str()),
            _ => {},
        }
        true
    }

    /// `ps`.
    fn cmd_ps(&mut self, kernel: &mut Kernel)
        requires
            old(kernel).wf(),
        ensures
            final(kernel).wf(),
            ps_spec(old(self)@, old(kernel)@) == done(final(self)@, final(kernel)@),
    {
        match kernel.dispatch(Syscall::ListProcesses) {
            SyscallResult::Str(s) => {
                self.push_output_str("PID  NAME             STATE       PRI  CPU");
                self.push_output_str("───  ───────────────  ──────────  ───  ───");
                self.push_text_lines(s.as_str());
            },
            _ => {},
        }
    }

    /// `kill`.
    fn cmd_kill(&mut self, kernel: &mut Kernel, args: &[char])
        requires
            old(kernel).wf(),
        ensures
            final(kernel).wf(),
            kill_spec(old(self)@, old(kernel)@, args@) == done(final(self)@, final(kernel)@),
    {
        if args.len() == 0 {
            self.push_output_str("Usage: kill <pid>");
            return;
        }
        let t = trim_chars(args);
        match parse_unsigned_exec(t.as_slice(), 0xffff_ffffu64) {
            Some(v) => {
                let pid = v as u32;
                match kernel.dispatch(Syscall::Kill { pid }) {
                    SyscallResult::Success => {
                        let mut m: Vec<char> = Vec::new();
                        push_str(&mut m, "Killed process ");
                        push_dec(&mut m, pid as u64);
                        self.push_output(m.as_slice());
                    },
                    SyscallResult::Error(e) => self.push_error(e.as_str()),
                    _ => {},
                }
            },
            None => self.push_output_str("Invalid PID"),
        }
    }

    /// `exec`.
    fn cmd_exec(&mut self, kernel: &mut Kernel, args: &[char]) -> (ok: bool)
        requires
            old(kernel).wf(),
        ensures
            final(kernel).wf(),
            ok == exec_spec(old(self)@, old(kernel)@, args@) is Some,
            ok ==> exec_spec(old(self)@, old(kernel)@, args@) == done(final(self)@, final(kernel)@),
    {
        if args.len() == 0 {
            self.push_output_str("Usage: exec <name>");
            return true;
        }
        let sc = Syscall::Fork { name: string_of(args), priority: 5 };
        if !kernel.can_dispatch(&sc) {
            return false;
        }
        match kernel.dispatch(sc) {
            SyscallResult::Value(pid) => {
                let mut m: Vec<char> = Vec::new();
                push_str(&mut m, "Started process '");
                push_all(&mut m, args);
                push_str(&mut m, "' with PID=");
                push_int(&mut m, pid);
                self.push_output(m.as_slice());
            },
            SyscallResult::Error(e) => self.push_error(e.as_str()),
            _ => {},
        }
        true
    }

    /// `free`.
    fn cmd_free(&mut self, kernel: &mut Kernel)
        requires
            old(kernel).wf(),
        ensures
            final(kernel).wf(),
            free_spec(old(self)@, old(kernel)@) == done(final(self)@, final(kernel)@),
    {
        match kernel.dispatch(Syscall::MemStats) {
            SyscallResult::Str(s) => self.push_output_str(s.as_str()),
            _ => {},
        }
    }

    /// `malloc`.
    fn cmd_malloc(&mut self, kernel: &mut Kernel, args: &[char])
        requires
            old(kernel).wf(),
        ensures
            final(kernel).wf(),
            malloc_spec(old(self)@, old(kernel)@, args@) == done(final(self)@, final(kernel)@),
    {
        if args.len() == 0 {
            self.push_output_str("Usage: malloc <bytes>");
            return;
        }
        let t = trim_chars(args);
        match parse_unsigned_exec(t.as_slice(), usize::MAX as u64) {
            Some(v) => {
                let size = v as usize;
                match kernel.dispatch(Syscall::Malloc { size }) {
                    SyscallResult::Value(ptr) => {
                        let mut m: Vec<char> = Vec::new();
                        push_str(&mut m, "Allocated ");
                        push_dec(&mut m, v);
                        push_str(&mut m, " bytes at page ");
                        push_int(&mut m, ptr);
                        self.push_output(m.as_slice());
                    },
                    SyscallResult::Error(e) => self.push_error(e.as_str()),
                    _ => {},
                }
            },
            None => self.push_output_str("Invalid size"),
        }
    }

    /// `memfree`.
    fn cmd_memfree(&mut self, kernel: &mut Kernel, args: &[char])
        requires
            old(kernel).wf(),
        ensures
            final(kernel).wf(),
            memfree_spec(old(self)@, old(kernel)@, args@) == done(final(self)@, final(kernel)@),
    {
        if args.len() == 0 {
            self.push_output_str("Usage: memfree <page>");
            return;
        }
        let t = trim_chars(args);
        match parse_unsigned_exec(t.as_slice(), (usize::MAX - 1) as u64) {
            Some(v) => {
                let page = v as usize;
                match kernel.dispatch(Syscall::Free { ptr: page }) {
                    SyscallResult::Success => {
                        let mut m: Vec<char> = Vec::new();
                        push_str(&mut m, "Freed page ");
                        push_dec(&mut m, v);
                        self.push_output(m.as_slice());
                    },
                    SyscallResult::Error(e) => self.push_error(e.as_str()),
                    _ => {},
                }
            },
            None => self.push_output_str("Invalid page"),
        }
    }

    /// `cd`.
    fn cmd_cd(&mut self, kernel: &mut Kernel, args: &[char], path: &[char])
        requires
            old(kernel).wf(),
        ensures
            final(kernel).wf(),
            cd_spec(old(self)@, old(kernel)@, args@, path@) == done(final(self)@, final(kernel)@),
    {
        if args.len() == 0 {
            self.cwd = String::from_str("/home");
            return;
        }
        match kernel.dispatch(Syscall::ListDir { path: string_of(path) }) {
            SyscallResult::Str(_) => {
                self.cwd = string_of(path);
            },
            _ => {
                self.push_with_path("cd: no such directory: ", args);
            },
        }
    }

    /// `tree`.
    fn cmd_tree(&mut self, kernel: &mut Kernel)
        requires
            old(kernel).wf(),
        ensures
            final(kernel).wf(),
            done(print_str(old(self)@, dispatch_result(old(kernel)@, SyscallView::GetTree)), dispatch_state(old(kernel)@, SyscallView::GetTree))
                == done(final(self)@, final(kernel)@),
    {
        match kernel.dispatch(Syscall::GetTree) {
            SyscallResult::Str(s) => self.push_text_lines(s.as_str()),
            _ => {},
        }
    }

    /// `set`.
    fn cmd_set(&mut self, kernel: &Kernel, args: &[char])
        ensures
            set_spec(old(self)@, kernel@, args@) == done(final(self)@, kernel@),
    {
        if args.len() == 0 {
            if self.vars.len() == 0 {
                self.push_output_str("(no variables set)");
            } else {
                let n = self.vars.len();
                let ghost vars0 = self@.vars;
                let mut lines: Vec<Vec<char>> = Vec::new();
                let mut i: usize = 0;
                while i < n
                    invariant
                        i <= n,
                        n == self.vars@.len(),
                        self@ == old(self)@,
                        vars0 == self@.vars,
                        seqs_of(lines@) == var_lines(vars0.take(i as int)),
                    decreases n - i,
                {
                    let mut l: Vec<char> = chars_of(self.vars[i].0.as_str());
                    push_str(&mut l, "=");
                    let vc = chars_of(self.vars[i].1.as_str());
                    push_all(&mut l, vc.as_slice());
                    let ghost prev = lines@;
                    lines.push(l);
                    proof {
                        assert(vars0.take(i + 1).drop_last() =~= vars0.take(i as int));
                        assert(vars0.take(i + 1).last() == vars0[i as int]);
                        assert(seqs_of(lines@) =~= seqs_of(prev).push(vars0[i as int].0 + "="@ + vars0[i as int].1));
                    }
                    i = i + 1;
                }
                proof {
                    assert(vars0.take(n as int) =~= vars0);
                }
                let mut j: usize = 0;
                while j < lines.len()
                    invariant
                        j <= lines@.len(),
                        seqs_of(lines@) == var_lines(vars0),
                        self@ == out_lines(old(self)@, seqs_of(lines@).take(j as int)),
                    decreases lines@.len() - j,
                {
                    self.push_output(lines[j].as_slice());
                    proof {
                        let t = seqs_of(lines@);
                        assert(t.take(j + 1).drop_last() =~= t.take(j as int));
                        assert(t.take(j + 1).last() == lines@[j as int]@);
                    }
                    j = j + 1;
                }
                proof {
                    assert(seqs_of(lines@).take(lines@.len() as int) =~= seqs_of(lines@));
                }
            }
        } else {
            let (before_eq, after_eq) = split_once(args, '=');
            match after_eq {
                Some(val) => {
                    let key = trim_chars(before_eq.as_slice());
                    let v = trim_chars(val.as_slice());
                    self.set_var(key.as_slice(), v.as_slice());
                },
                None => self.push_output_str("Usage: set VAR=value  or  set (list all)"),
            }
        }
    }

    /// `unset`.
    fn cmd_unset(&mut self, kernel: &Kernel, args: &[char])
        ensures
            unset_spec(old(self)@, kernel@, args@) == done(final(self)@, kernel@),
    {
        if args.len() == 0 {
            self.push_output_str("Usage: unset <VAR>");
        } else {
            let key = trim_chars(args);
            self.unset_var(key.as_slice());
            self.push_with_path("unset ", key.as_slice());
        }
    }

    /// Any other command.
    fn cmd_other(&mut self, kernel: &Kernel, cmd: &[char], command: &[char])
        ensures
            other_spec(old(self)@, kernel@, cmd@, command@) == done(final(self)@, kernel@),
    {
        let (before_eq, after_eq) = split_once(cmd, '=');
        if let Some(val) = after_eq {
            let key = trim_chars(before_eq.as_slice());
            if all_name_chars(key.as_slice()) && key.len() > 0 {
                let tv = trim_chars(val.as_slice());
                let v = self.expand_vars(tv.as_slice());
                self.set_var(key.as_slice(), v.as_slice());
                let mut m: Vec<char> = to_vec(key.as_slice());
                push_str(&mut m, "=");
                push_all(&mut m, v.as_slice());
                self.push_output(m.as_slice());
                return;
            }
        }
        let mut m: Vec<char> = Vec::new();
        push_str(&mut m, "Unknown command: ");
        push_all(&mut m, command);
        push_str(&mut m, ". Type 'help' for help.");
        self.push_output(m.as_slice());
    }
}

/// `o1` followed by `o2` and then `x` is `o1` and `o2` combined, followed by `x`.
pub proof fn lemma_join_assoc(e: Option<Seq<char>>, cur: Outcome, o1: Outcome, x: Option<Outcome>)
    ensures
        join_outcomes(Outcome { edit: e, ..cur }, join_outcomes(o1, x)) == join_outcomes(
            Outcome { edit: if o1.edit is Some { o1.edit } else { e }, ..o1 },
            x,
        ),
{
}

impl Shell {
    /// One side of a comparison, trimmed, expanded and trimmed again.
    fn side_exec(&self, t: &[char]) -> (r: Vec<char>)
        ensures
            r@ == side(self@.vars, t@),
    {
        let a = trim_chars(t);
        let e = self.expand_vars(a.as_slice());
        trim_chars(e.as_slice())
    }

    /// Evaluates a script condition.
    fn eval_condition(&self, cond: &[char], kernel: &mut Kernel) -> (b: bool)
        requires
            old(kernel).wf(),
        ensures
            b == cond_spec(self@, old(kernel)@, cond@),
            final(kernel)@ == old(kernel)@,
            final(kernel).wf(),
    {
        let c = trim_chars(cond);
        proof {
            lemma_find_pair_range(c@, '=', '=');
            lemma_find_pair_range(c@, '!', '=');
        }
        if let Some(p) = find_pair_exec(c.as_slice(), '=', '=') {
            assert(p + 2 <= c.len());
            let l = self.side_exec(&c.as_slice()[0..p]);
            let r = self.side_exec(&c.as_slice()[p + 2..c.len()]);
            proof {
                assert(c@.subrange(0, p as int) =~= c@.take(p as int));
                assert(c@.subrange(p + 2, c@.len() as int) =~= c@.skip(p + 2));
            }
            return chars_eq(l.as_slice(), r.as_slice());
        }
        if let Some(p) = find_pair_exec(c.as_slice(), '!', '=') {
            assert(p + 2 <= c.len());
            let l = self.side_exec(&c.as_slice()[0..p]);
            let r = self.side_exec(&c.as_slice()[p + 2..c.len()]);
            proof {
                assert(c@.subrange(0, p as int) =~= c@.take(p as int));
                assert(c@.subrange(p + 2, c@.len() as int) =~= c@.skip(p + 2));
            }
            return !chars_eq(l.as_slice(), r.as_slice());
        }
        let ex = chars_of("exists ");
        if starts_with_exec(c.as_slice(), ex.as_slice()) {
            let rest = &c.as_slice()[ex.len()..c.len()];
            let t1 = trim_chars(rest);
            let e = self.expand_vars(t1.as_slice());
            let t2 = trim_chars(e.as_slice());
            let path = self.resolve_path(t2.as_slice());
            proof {
                assert(c@.subrange(ex@.len() as int, c@.len() as int) =~= c@.skip("exists "@.len() as int));
            }
            return match kernel.dispatch(Syscall::Open { path: string_of(path.as_slice()) }) {
                SyscallResult::Success => true,
                _ => false,
            };
        }
        let e = self.expand_vars(c.as_slice());
        let t = trim_chars(e.as_slice());
        t.len() > 0 && !word_is(t.as_slice(), "0") && !word_is(t.as_slice(), "false")
    }

    /// The first word of the trimmed expansion of a line.
    fn first_word_of(&self, line: &[char]) -> (w: Vec<char>)
        ensures
            w@ == first_word(trim(expand(self@.vars, line@))),
    {
        let e = self.expand_vars(line);
        let t = trim_chars(e.as_slice());
        let ws = split_words(t.as_slice());
        if ws.len() > 0 {
            to_vec(ws[0].as_slice())
        } else {
            Vec::new()
        }
    }

    /// Reads an `if` block starting at line `start`: the lines before `else`, the lines after
    /// it, and the index after the matching `end`.
    fn collect_if_exec(&self, lines: &Vec<Vec<char>>, start: usize) -> (r: (Vec<Vec<char>>, Vec<Vec<char>>, usize))
        requires
            1 <= start <= lines@.len(),
        ensures
            start <= r.2 <= lines@.len(),
            (seqs_of(r.0@), seqs_of(r.1@), seqs_of(lines@).skip(r.2 as int)) == collect_if(
                self@.vars,
                seqs_of(lines@).skip(start as int),
                1,
                false,
                Seq::empty(),
                Seq::empty(),
            ),
    {
        let ghost L = seqs_of(lines@);
        let mut ifb: Vec<Vec<char>> = Vec::new();
        let mut elseb: Vec<Vec<char>> = Vec::new();
        let mut in_else = false;
        let mut depth: usize = 1;
        let mut ip = start;
        let mut finished = false;
        proof {
            assert(seqs_of(ifb@) =~= Seq::<Seq<char>>::empty());
            assert(seqs_of(elseb@) =~= Seq::<Seq<char>>::empty());
        }
        while ip < lines.len() && !finished
            invariant
                start <= ip <= lines@.len(),
                1 <= start,
                L == seqs_of(lines@),
                1 <= depth <= ip - start + 1,
                finished ==> collect_if(self@.vars, L.skip(start as int), 1, false, Seq::empty(), Seq::empty())
                    == (seqs_of(ifb@), seqs_of(elseb@), L.skip(ip as int)),
                !finished ==> collect_if(self@.vars, L.skip(start as int), 1, false, Seq::empty(), Seq::empty())
                    == collect_if(self@.vars, L.skip(ip as int), depth as int, in_else, seqs_of(ifb@), seqs_of(elseb@)),
            decreases lines@.len() - ip,
        {
            let inner = trim_chars(lines[ip].as_slice());
            let w = self.first_word_of(inner.as_slice());
            proof {
                assert(L.skip(ip as int)[0] == L[ip as int]);
                assert(L.skip(ip as int).drop_first() =~= L.skip(ip + 1));
            }
            let ghost ifb0 = seqs_of(ifb@);
            let ghost elseb0 = seqs_of(elseb@);
            if word_is(w.as_slice(), "if") || word_is(w.as_slice(), "for") {
                depth = depth + 1;
                if in_else {
                    elseb.push(inner);
                } else {
                    ifb.push(inner);
                }
            } else if word_is(w.as_slice(), "else") && depth == 1 {
                in_else = true;
            } else if word_is(w.as_slice(), "end") {
                depth = depth - 1;
                if depth == 0 {
                    finished = true;
                    depth = 1;
                } else if in_else {
                    elseb.push(inner);
                } else {
                    ifb.push(inner);
                }
            } else if in_else {
                elseb.push(inner);
            } else {
                ifb.push(inner);
            }
            proof {
                assert(seqs_of(ifb@) =~= ifb0 || seqs_of(ifb@) =~= ifb0.push(inner@));
                assert(seqs_of(elseb@) =~= elseb0 || seqs_of(elseb@) =~= elseb0.push(inner@));
            }
            ip = ip + 1;
        }
        proof {
            if !finished {
                assert(L.skip(ip as int) =~= Seq::<Seq<char>>::empty());
            }
        }
        (ifb, elseb, ip)
    }

    /// Reads a `for` body starting at line `start`: its lines and the index after its `end`.
    fn collect_for_exec(&self, lines: &Vec<Vec<char>>, start: usize) -> (r: (Vec<Vec<char>>, usize))
        requires
            1 <= start <= lines@.len(),
        ensures
            start <= r.1 <= lines@.len(),
            (seqs_of(r.0@), seqs_of(lines@).skip(r.1 as int)) == collect_for(
                self@.vars,
                seqs_of(lines@).skip(start as int),
                1,
                Seq::empty(),
            ),
    {
        let ghost L = seqs_of(lines@);
        let mut body: Vec<Vec<char>> = Vec::new();
        let mut depth: usize = 1;
        let mut ip = start;
        let mut finished = false;
        proof {
            assert(seqs_of(body@) =~= Seq::<Seq<char>>::empty());
        }
        while ip < lines.len() && !finished
            invariant
                start <= ip <= lines@.len(),
                1 <= start,
                L == seqs_of(lines@),
                1 <= depth <= ip - start + 1,
                finished ==> collect_for(self@.vars, L.skip(start as int), 1, Seq::empty()) == (seqs_of(body@), L.skip(ip as int)),
                !finished ==> collect_for(self@.vars, L.skip(start as int), 1, Seq::empty())
                    == collect_for(self@.vars, L.skip(ip as int), depth as int, seqs_of(body@)),
            decreases lines@.len() - ip,
        {
            let inner = trim_chars(lines[ip].as_slice());
            let w = self.first_word_of(inner.as_slice());
            proof {
                assert(L.skip(ip as int)[0] == L[ip as int]);
                assert(L.skip(ip as int).drop_first() =~= L.skip(ip + 1));
            }
            let ghost body0 = seqs_of(body@);
            if word_is(w.as_slice(), "if") || word_is(w.as_slice(), "for") {
                depth = depth + 1;
                body.push(inner);
            } else if word_is(w.as_slice(), "end") {
                depth = depth - 1;
                if depth == 0 {
                    finished = true;
                    depth = 1;
                } else {
                    body.push(inner);
                }
            } else {
                body.push(inner);
            }
            proof {
                assert(seqs_of(body@) =~= body0 || seqs_of(body@) =~= body0.push(inner@));
            }
            ip = ip + 1;
        }
        proof {
            if !finished {
                assert(L.skip(ip as int) =~= Seq::<Seq<char>>::empty());
            }
        }
        (body, ip)
    }
}

/// The lines of `s` as character vectors.
fn line_vecs(s: &str) -> (r: Vec<Vec<char>>)
    ensures
        seqs_of(r@) == text_lines(s@),
{
    let ls = split_lines(s);
    let mut r: Vec<Vec<char>> = Vec::new();
    let mut i: usize = 0;
    proof {
        assert(seqs_of(r@) =~= texts_of(ls@).take(0));
    }
    while i < ls.len()
        invariant
            i <= ls@.len(),
            seqs_of(r@) == texts_of(ls@).take(i as int),
        decreases ls@.len() - i,
    {
        let ghost prev = r@;
        let v = chars_of(ls[i].as_str());
        r.push(v);
        proof {
            assert(r@ == prev.push(v));
            assert(texts_of(ls@)[i as int] == ls@[i as int]@);
            assert(seqs_of(r@) =~= seqs_of(prev).push(v@));
            assert(texts_of(ls@).take(i + 1) =~= texts_of(ls@).take(i as int).push(ls@[i as int]@));
        }
        i = i + 1;
    }
    proof {
        assert(texts_of(ls@).take(ls@.len() as int) =~= texts_of(ls@));
    }
    r
}

/// The loop values of a `for` header's text after `for`.
fn for_values_exec(rest: &[char]) -> (r: Vec<Vec<char>>)
    ensures
        seqs_of(r@) == for_values(rest@),
{
    let empty: Vec<Vec<char>> = Vec::new();
    proof {
        assert(seqs_of(empty@) =~= Seq::<Seq<char>>::empty());
    }
    let (_, r1) = split_once(rest, ' ');
    match r1 {
        Some(r) => {
            let (w, r2) = split_once(r.as_slice(), ' ');
            match r2 {
                Some(p2) => {
                    if word_is(w.as_slice(), "in") {
                        split_words(p2.as_slice())
                    } else {
                        empty
                    }
                },
                None => empty,
            }
        },
        None => empty,
    }
}

impl Shell {
    /// Runs one command; returns the file that the command asks the editor to open, if any,
    /// or stops on an overflow.
    fn exec_cmd(&mut self, cmd: &[char], kernel: &mut Kernel, depth: usize) -> (r: Result<Option<String>, Overflow>)
        requires
            old(kernel).wf(),
        ensures
            final(kernel).wf(),
            ran(cmd_spec(old(self)@, old(kernel)@, cmd@, depth as nat), final(self)@, final(kernel)@, r),
        decreases depth, 1nat, 0nat,
    {
        let t = trim_chars(cmd);
        let (command, rest) = split_once(t.as_slice(), ' ');
        let args: Vec<char> = match rest {
            Some(a) => a,
            None => Vec::new(),
        };
        proof {
            assert(command@ == split_first_space(t@).0);
            assert(args@ == args_of(t@));
        }
        let path = self.resolve_path(args.as_slice());
        let c = command.as_slice();
        let a = args.as_slice();
        let p = path.as_slice();
        if word_is(c, "help") {
            self.cmd_help();
        } else if word_is(c, "ls") {
            self.cmd_ls(kernel, a, p);
        } else if word_is(c, "cat") {
            self.cmd_cat(kernel, a, p);
        } else if word_is(c, "mkdir") {
            if !self.cmd_fs(kernel, a, p, 0) {
                return Err(Overflow);
            }
        } else if word_is(c, "touch") {
            if !self.cmd_fs(kernel, a, p, 1) {
                return Err(Overflow);
            }
        } else if word_is(c, "rm") {
            if !self.cmd_fs(kernel, a, p, 2) {
                return Err(Overflow);
            }
        } else if word_is(c, "ps") {
            self.cmd_ps(kernel);
        } else if word_is(c, "kill") {
            self.cmd_kill(kernel, a);
        } else if word_is(c, "exec") {
            if !self.cmd_exec(kernel, a) {
                return Err(Overflow);
            }
        } else if word_is(c, "free") {
            self.cmd_free(kernel);
        } else if word_is(c, "malloc") {
            self.cmd_malloc(kernel, a);
        } else if word_is(c, "memfree") {
            self.cmd_memfree(kernel, a);
        } else if word_is(c, "echo") {
            let e = self.expand_vars(a);
            self.push_output(e.as_slice());
        } else if word_is(c, "pwd") {
            let w = chars_of(self.cwd.as_str());
            self.push_output(w.as_slice());
        } else if word_is(c, "cd") {
            self.cmd_cd(kernel, a, p);
        } else if word_is(c, "tree") {
            self.cmd_tree(kernel);
        } else if word_is(c, "edit") {
            if a.len() == 0 {
                self.push_output_str("Usage: edit <file>");
            } else {
                self.push_with_path("Opening editor: ", p);
                return Ok(Some(string_of(p)));
            }
        } else if word_is(c, "run") {
            return self.cmd_run(kernel, a, p, depth);
        } else if word_is(c, "set") {
            self.cmd_set(&*kernel, a);
        } else if word_is(c, "unset") {
            self.cmd_unset(&*kernel, a);
        } else {
            self.cmd_other(&*kernel, cmd, c);
        }
        Ok(None)
    }

    /// `run`: reads the file and runs it as a script one level deeper.
    fn cmd_run(&mut self, kernel: &mut Kernel, args: &[char], path: &[char], depth: usize) -> (r: Result<Option<String>, Overflow>)
        requires
            old(kernel).wf(),
        ensures
            final(kernel).wf(),
            ran(run_spec(old(self)@, old(kernel)@, args@, path@, depth as nat), final(self)@, final(kernel)@, r),
        decreases depth, 0nat, 0nat,
    {
        if args.len() == 0 {
            self.push_output_str("Usage: run <script>");
            return Ok(None);
        }
        if depth == 0 {
            self.push_with_path("run: nesting too deep: ", path);
            return Ok(None);
        }
        match kernel.dispatch(Syscall::Read { path: string_of(path) }) {
            SyscallResult::Str(script) => {
                let mut m: Vec<char> = chars_of("--- Running script: ");
                push_all(&mut m, path);
                push_str(&mut m, " ---");
                self.push_output(m.as_slice());
                let lines = line_vecs(script.as_str());
                let r = self.run_lines(&lines, kernel, depth - 1);
                if r.is_err() {
                    return r;
                }
                let mut m2: Vec<char> = chars_of("--- Script done: ");
                push_all(&mut m2, path);
                push_str(&mut m2, " ---");
                self.push_output(m2.as_slice());
                r
            },
            SyscallResult::Error(e) => {
                let mut m: Vec<char> = chars_of("run: ");
                push_str(&mut m, e.as_str());
                self.push_output(m.as_slice());
                Ok(None)
            },
            _ => Ok(None),
        }
    }

    /// Runs script lines; returns the file that the last editing command asked for, if any,
    /// or stops on an overflow.
    #[verifier::spinoff_prover]
    #[verifier::rlimit(60)]
    fn run_lines(&mut self, lines: &Vec<Vec<char>>, kernel: &mut Kernel, depth: usize) -> (r: Result<Option<String>, Overflow>)
        requires
            old(kernel).wf(),
        ensures
            final(kernel).wf(),
            ran(lines_spec(old(self)@, old(kernel)@, seqs_of(lines@), depth as nat), final(self)@, final(kernel)@, r),
        decreases depth, lines@.len() + 1, 0nat,
    {
        let ghost L = seqs_of(lines@);
        let ghost d = depth as nat;
        let ghost goal = lines_spec(self@, kernel@, L, d);
        let mut editor_file: Option<String> = None;
        let mut ip: usize = 0;
        proof {
            assert(L.skip(0) =~= L);
            if goal is Some {
                let g = goal.unwrap();
                assert(Outcome { edit: if g.edit is Some { g.edit } else { None }, ..g } =~= g);
            }
        }
        while ip < lines.len()
            invariant
                ip <= lines@.len(),
                L == seqs_of(lines@),
                d == depth as nat,
                kernel.wf(),
                goal == lines_spec(old(self)@, old(kernel)@, L, d),
                goal == join_outcomes(
                    Outcome { shell: self@, kernel: kernel@, edit: opt_text(editor_file) },
                    lines_spec(self@, kernel@, L.skip(ip as int), d),
                ),
            decreases lines@.len() - ip,
        {
            let ghost sh = self@;
            let ghost k = kernel@;
            let ghost ip0 = ip;
            let ghost ed = opt_text(editor_file);
            let ghost cur = Outcome { shell: sh, kernel: k, edit: ed };
            proof {
                assert(L.skip(ip as int)[0] == L[ip as int]);
                assert(L.skip(ip as int).drop_first() =~= L.skip(ip + 1));
            }
            let raw = trim_chars(lines[ip].as_slice());
            ip = ip + 1;
            if raw.len() == 0 || raw[0] == '#' {
                continue;
            }
            let e = self.expand_vars(raw.as_slice());
            let line = trim_chars(e.as_slice());
            let (before, after) = split_once(line.as_slice(), '=');
            if let Some(val) = after {
                if before.len() > 0 && all_name_chars(before.as_slice()) {
                    self.set_var(before.as_slice(), val.as_slice());
                    continue;
                }
            }
            proof {
                assert(assignment(line@) is None);
            }
            let (word, rest) = split_once(line.as_slice(), ' ');
            let arg: Vec<char> = match rest {
                Some(a) => a,
                None => Vec::new(),
            };
            proof {
                assert(word@ == split_first_space(line@).0);
                assert(arg@ == args_of(line@));
            }
            if word_is(word.as_slice(), "if") {
                let cond = trim_chars(arg.as_slice());
                let c = self.eval_condition(cond.as_slice(), kernel);
                let (ifb, elseb, next) = self.collect_if_exec(lines, ip);
                proof {
                    lemma_collect_if_len(sh.vars, L.skip(ip as int), 1, false, Seq::empty(), Seq::empty());
                }
                let body = if c { ifb } else { elseb };
                let f = match self.run_lines(&body, kernel, depth) {
                    Ok(f) => f,
                    Err(o) => {
                        proof {
                            assert(lines_spec(sh, k, L.skip(ip0 as int), d) is None);
                        }
                        return Err(o);
                    },
                };
                proof {
                    let o1 = Outcome { shell: self@, kernel: kernel@, edit: opt_text(f) };
                    lemma_join_assoc(ed, cur, o1, lines_spec(self@, kernel@, L.skip(next as int), d));
                }
                if f.is_some() {
                    editor_file = f;
                }
                ip = next;
            } else if word_is(word.as_slice(), "for") {
                let (var, _) = split_once(arg.as_slice(), ' ');
                let values = for_values_exec(arg.as_slice());
                let (body, next) = self.collect_for_exec(lines, ip);
                proof {
                    lemma_collect_for_len(sh.vars, L.skip(ip as int), 1, Seq::empty());
                }
                let f = match self.run_for(var.as_slice(), &values, &body, kernel, depth) {
                    Ok(f) => f,
                    Err(o) => {
                        proof {
                            assert(lines_spec(sh, k, L.skip(ip0 as int), d) is None);
                        }
                        return Err(o);
                    },
                };
                proof {
                    let o1 = Outcome { shell: self@, kernel: kernel@, edit: opt_text(f) };
                    lemma_join_assoc(ed, cur, o1, lines_spec(self@, kernel@, L.skip(next as int), d));
                }
                if f.is_some() {
                    editor_file = f;
                }
                ip = next;
            } else if word_is(word.as_slice(), "else") || word_is(word.as_slice(), "end") {
            } else {
                let f = match self.exec_cmd(line.as_slice(), kernel, depth) {
                    Ok(f) => f,
                    Err(o) => {
                        proof {
                            assert(lines_spec(sh, k, L.skip(ip0 as int), d) is None);
                        }
                        return Err(o);
                    },
                };
                proof {
                    let o1 = Outcome { shell: self@, kernel: kernel@, edit: opt_text(f) };
                    lemma_join_assoc(ed, cur, o1, lines_spec(self@, kernel@, L.skip(ip as int), d));
                }
                if f.is_some() {
                    editor_file = f;
                }
            }
        }
        proof {
            assert(L.skip(ip as int) =~= Seq::<Seq<char>>::empty());
        }
        Ok(editor_file)
    }

    /// Runs a loop body once per value, with the loop variable set to the value.
    fn run_for(
        &mut self,
        var: &[char],
        values: &Vec<Vec<char>>,
        body: &Vec<Vec<char>>,
        kernel: &mut Kernel,
        depth: usize,
    ) -> (r: Result<Option<String>, Overflow>)
        requires
            old(kernel).wf(),
        ensures
            final(kernel).wf(),
            ran(
                for_spec(old(self)@, old(kernel)@, var@, seqs_of(values@), seqs_of(body@), depth as nat),
                final(self)@,
                final(kernel)@,
                r,
            ),
        decreases depth, body@.len() + 1, values@.len() + 1,
    {
        let ghost V = seqs_of(values@);
        let ghost B = seqs_of(body@);
        let ghost d = depth as nat;
        let ghost goal = for_spec(self@, kernel@, var@, V, B, d);
        let mut editor_file: Option<String> = None;
        let mut i: usize = 0;
        proof {
            assert(V.skip(0) =~= V);
            if goal is Some {
                let g = goal.unwrap();
                assert(Outcome { edit: if g.edit is Some { g.edit } else { None }, ..g } =~= g);
            }
        }
        while i < values.len()
            invariant
                i <= values@.len(),
                V == seqs_of(values@),
                B == seqs_of(body@),
                d == depth as nat,
                kernel.wf(),
                goal == for_spec(old(self)@, old(kernel)@, var@, V, B, d),
                goal == join_outcomes(
                    Outcome { shell: self@, kernel: kernel@, edit: opt_text(editor_file) },
                    for_spec(self@, kernel@, var@, V.skip(i as int), B, d),
                ),
            decreases values@.len() - i,
        {
            let ghost ed = opt_text(editor_file);
            let ghost cur = Outcome { shell: self@, kernel: kernel@, edit: ed };
            let ghost sh0 = self@;
            let ghost k0 = kernel@;
            proof {
                assert(V.skip(i as int)[0] == V[i as int]);
                assert(V.skip(i as int).drop_first() =~= V.skip(i + 1));
            }
            self.set_var(var, values[i].as_slice());
            let f = match self.run_lines(body, kernel, depth) {
                Ok(f) => f,
                Err(o) => {
                    proof {
                        assert(for_spec(sh0, k0, var@, V.skip(i as int), B, d) is None);
                    }
                    return Err(o);
                },
            };
            proof {
                let o1 = Outcome { shell: self@, kernel: kernel@, edit: opt_text(f) };
                lemma_join_assoc(ed, cur, o1, for_spec(self@, kernel@, var@, V.skip(i + 1), B, d));
            }
            if f.is_some() {
                editor_file = f;
            }
            i = i + 1;
        }
        proof {
            assert(V.skip(i as int) =~= Seq::<Seq<char>>::empty());
        }
        Ok(editor_file)
    }
}

/// Pressing Enter: the trimmed input leaves the input line. An empty one prints just the
/// prompt; anything else is added to the history, echoed after the prompt and run as a
/// command, and an empty line follows. `None` when a counter of the machine would overflow.
pub open spec fn enter_spec(sh: ShellView, k: KernelView) -> Option<Outcome> {
    let input = trim(sh.input);
    let sh0 = ShellView { input: Seq::empty(), ..sh };
    if input.len() == 0 {
        done(out_line(sh0, sh.cwd + "$ "@), k)
    } else {
        let sh1 = out_line(ShellView { history: sh.history.push(input), ..sh0 }, sh.cwd + "$ "@ + input);
        match cmd_spec(sh1, k, input, MAX_RUN_DEPTH as nat) {
            Some(o) => Some(Outcome { shell: out_line(o.shell, Seq::empty()), ..o }),
            None => None,
        }
    }
}

impl Shell {
    /// Runs one command line; returns the file that it asks the editor to open, if any, or
    /// `Overflow` where a counter of the machine would go past its largest value.
    pub fn try_execute_command(&mut self, cmd: &str, kernel: &mut Kernel) -> (r: Result<Option<String>, Overflow>)
        requires
            old(kernel).wf(),
        ensures
            final(kernel).wf(),
            ran(cmd_spec(old(self)@, old(kernel)@, cmd@, MAX_RUN_DEPTH as nat), final(self)@, final(kernel)@, r),
            old(self).wf() && r is Ok ==> final(self).wf(),
    {
        let c = chars_of(cmd);
        let r = self.exec_cmd(c.as_slice(), kernel, MAX_RUN_DEPTH);
        proof {
            if old(self).wf() && r is Ok {
                lemma_cmd_keeps_names_unique(old(self)@, old(kernel)@, cmd@, MAX_RUN_DEPTH as nat);
            }
        }
        r
    }

    /// Runs one command line; returns the file that it asks the editor to open, if any.
    pub fn execute_command(&mut self, cmd: &str, kernel: &mut Kernel) -> (r: Option<String>)
        requires
            old(kernel).wf(),
            cmd_spec(old(self)@, old(kernel)@, cmd@, MAX_RUN_DEPTH as nat) is Some,
        ensures
            final(kernel).wf(),
            cmd_spec(old(self)@, old(kernel)@, cmd@, MAX_RUN_DEPTH as nat)
                == Some(Outcome { shell: final(self)@, kernel: final(kernel)@, edit: opt_text(r) }),
            old(self).wf() ==> final(self).wf(),
    {
        match self.try_execute_command(cmd, kernel) {
            Ok(e) => e,
            Err(_) => None,
        }
    }

    /// Runs a script; returns the file that its last editing command asked for, if any, or
    /// `Overflow` where a counter of the machine would go past its largest value.
    pub fn try_run_script(&mut self, script: &str, kernel: &mut Kernel) -> (r: Result<Option<String>, Overflow>)
        requires
            old(kernel).wf(),
        ensures
            final(kernel).wf(),
            ran(lines_spec(old(self)@, old(kernel)@, text_lines(script@), MAX_RUN_DEPTH as nat), final(self)@, final(kernel)@, r),
            old(self).wf() && r is Ok ==> final(self).wf(),
    {
        let lines = line_vecs(script);
        let r = self.run_lines(&lines, kernel, MAX_RUN_DEPTH);
        proof {
            if old(self).wf() && r is Ok {
                lemma_lines_keep_names_unique(old(self)@, old(kernel)@, text_lines(script@), MAX_RUN_DEPTH as nat);
            }
        }
        r
    }

    /// Runs a script; returns the file that its last editing command asked for, if any.
    pub fn run_script(&mut self, script: &str, kernel: &mut Kernel) -> (r: Option<String>)
        requires
            old(kernel).wf(),
            lines_spec(old(self)@, old(kernel)@, text_lines(script@), MAX_RUN_DEPTH as nat) is Some,
        ensures
            final(kernel).wf(),
            lines_spec(old(self)@, old(kernel)@, text_lines(script@), MAX_RUN_DEPTH as nat)
                == Some(Outcome { shell: final(self)@, kernel: final(kernel)@, edit: opt_text(r) }),
            old(self).wf() ==> final(self).wf(),
    {
        match self.try_run_script(script, kernel) {
            Ok(e) => e,
            Err(_) => None,
        }
    }

    /// Handles the Enter key: runs the typed line, or stops with `Overflow` where a counter
    /// of the machine would go past its largest value.
    pub fn try_handle_enter(&mut self, kernel: &mut Kernel) -> (r: Result<Option<String>, Overflow>)
        requires
            old(kernel).wf(),
        ensures
            final(kernel).wf(),
            ran(enter_spec(old(self)@, old(kernel)@), final(self)@, final(kernel)@, r),
            old(self).wf() && r is Ok ==> final(self).wf(),
    {
        let c = chars_of(self.current_input.as_str());
        let input = trim_chars(c.as_slice());
        self.current_input = String::new();
        let mut prompt: Vec<char> = chars_of(self.cwd.as_str());
        push_str(&mut prompt, "$ ");
        if input.len() == 0 {
            self.push_output(prompt.as_slice());
            proof {
                assert(self@.input =~= Seq::<char>::empty());
            }
            return Ok(None);
        }
        let ghost h0 = self.history@;
        self.history.push(string_of(input.as_slice()));
        proof {
            assert(texts_of(self.history@) =~= texts_of(h0).push(input@));
        }
        push_all(&mut prompt, input.as_slice());
        self.push_output(prompt.as_slice());
        let ghost sh1 = self@;
        let ghost k0 = kernel@;
        let r = match self.exec_cmd(input.as_slice(), kernel, MAX_RUN_DEPTH) {
            Ok(r) => r,
            Err(o) => return Err(o),
        };
        proof {
            if old(self).wf() {
                lemma_cmd_keeps_names_unique(sh1, k0, input@, MAX_RUN_DEPTH as nat);
            }
        }
        self.push_output_str("");
        proof {
            assert(""@ =~= Seq::<char>::empty()) by {
                reveal_strlit("");
            }
        }
        Ok(r)
    }

    /// Handles the Enter key: runs the typed line.
    pub fn handle_enter(&mut self, kernel: &mut Kernel) -> (r: Option<String>)
        requires
            old(kernel).wf(),
            enter_spec(old(self)@, old(kernel)@) is Some,
        ensures
            final(kernel).wf(),
            enter_spec(old(self)@, old(kernel)@)
                == Some(Outcome { shell: final(self)@, kernel: final(kernel)@, edit: opt_text(r) }),
            old(self).wf() ==> final(self).wf(),
    {
        match self.try_handle_enter(kernel) {
            Ok(e) => e,
            Err(_) => None,
        }
    }
}

/// The name at the start of `t` is exactly `n` characters long when its first `n` characters
/// are name characters and the next one (if any) is not.
proof fn lemma_name_len_exact(t: Seq<char>, n: int)
    requires
        0 <= n <= t.len(),
        forall|q: int| 0 <= q < n ==> is_name_char(#[trigger] t[q]),
        n < t.len() ==> !is_name_char(t[n]),
    ensures
        name_len(t) == n,
    decreases n,
{
    if n > 0 {
        assert forall|q: int| 0 <= q < n - 1 implies is_name_char(#[trigger] t.drop_first()[q]) by {
            assert(t.drop_first()[q] == t[q + 1]);
        }
        if n - 1 < t.drop_first().len() {
            assert(t.drop_first()[n - 1] == t[n]);
        }
        lemma_name_len_exact(t.drop_first(), n - 1);
        assert(is_name_char(t[0]));
    } else if t.len() > 0 {
        assert(!is_name_char(t[0]));
    }
}

// ---------------------------------------------------------------------------
// Laws

/// No two variables share a name.
pub open spec fn names_unique(vars: Seq<(Seq<char>, Seq<char>)>) -> bool {
    forall|i: int, j: int| 0 <= i < j < vars.len() ==> vars[i].0 != vars[j].0
}

/// Where `var_index` finds a name, and that it finds the first.
proof fn lemma_var_index(vars: Seq<(Seq<char>, Seq<char>)>, key: Seq<char>)
    ensures
        match var_index(vars, key) {
            Some(i) => 0 <= i < vars.len() && vars[i].0 == key && forall|j: int| 0 <= j < i ==> vars[j].0 != key,
            None => forall|j: int| 0 <= j < vars.len() ==> vars[j].0 != key,
        },
    decreases vars.len(),
{
    if vars.len() > 0 {
        lemma_var_index(vars.drop_first(), key);
        assert forall|j: int| 0 < j < vars.len() implies vars[j] == vars.drop_first()[j - 1] by {}
    }
}

/// A variable reads back the value it was last set to.
pub proof fn law_set_then_get(vars: Seq<(Seq<char>, Seq<char>)>, key: Seq<char>, value: Seq<char>)
    ensures
        var_get(var_set(vars, key, value), key) == Some(value),
{
    lemma_var_index(vars, key);
    let v2 = var_set(vars, key, value);
    lemma_var_index(v2, key);
    match var_index(vars, key) {
        Some(i) => {
            assert(v2[i].0 == key);
        },
        None => {
            assert(v2[vars.len() as int].0 == key);
        },
    }
}

/// Setting a variable leaves every other variable as it was.
pub proof fn law_set_keeps_others(vars: Seq<(Seq<char>, Seq<char>)>, key: Seq<char>, value: Seq<char>, other: Seq<char>)
    requires
        other != key,
    ensures
        var_get(var_set(vars, key, value), other) == var_get(vars, other),
{
    lemma_var_index(vars, key);
    lemma_var_index(vars, other);
    let v2 = var_set(vars, key, value);
    lemma_var_index(v2, other);
    match var_index(vars, other) {
        Some(i) => {
            assert(v2[i].0 == other);
        },
        None => {},
    }
}

/// Setting keeps variable names unique.
pub proof fn law_set_keeps_names_unique(vars: Seq<(Seq<char>, Seq<char>)>, key: Seq<char>, value: Seq<char>)
    requires
        names_unique(vars),
    ensures
        names_unique(var_set(vars, key, value)),
{
    lemma_var_index(vars, key);
}

/// An unset variable reads as unset, when names are unique (as setting keeps them).
pub proof fn law_unset_then_get(vars: Seq<(Seq<char>, Seq<char>)>, key: Seq<char>)
    requires
        names_unique(vars),
    ensures
        var_get(var_unset(vars, key), key) is None,
{
    lemma_var_index(vars, key);
    let v2 = var_unset(vars, key);
    lemma_var_index(v2, key);
    match var_index(vars, key) {
        Some(i) => {
            assert forall|j: int| 0 <= j < v2.len() implies v2[j].0 != key by {
                if j < i {
                    assert(v2[j] == vars[j]);
                } else {
                    assert(v2[j] == vars[j + 1]);
                }
            }
        },
        None => {},
    }
}

/// Text without `$` expands to itself.
pub proof fn law_expand_plain(vars: Seq<(Seq<char>, Seq<char>)>, s: Seq<char>)
    requires
        !s.contains('$'),
    ensures
        expand(vars, s) == s,
    decreases s.len(),
{
    if s.len() > 0 {
        assert(s[0] != '$') by {
            assert(s.contains(s[0]));
        }
        assert(!s.drop_first().contains('$')) by {
            if s.drop_first().contains('$') {
                let j = choose|j: int| 0 <= j < s.drop_first().len() && s.drop_first()[j] == '$';
                assert(s[j + 1] == '$');
            }
        }
        law_expand_plain(vars, s.drop_first());
        assert(seq![s[0]] + s.drop_first() =~= s);
    }
}

/// Unsetting keeps variable names unique.
pub proof fn law_unset_keeps_names_unique(vars: Seq<(Seq<char>, Seq<char>)>, key: Seq<char>)
    requires
        names_unique(vars),
    ensures
        names_unique(var_unset(vars, key)),
{
    lemma_var_index(vars, key);
    if let Some(i) = var_index(vars, key) {
        let v2 = vars.remove(i);
        assert forall|a: int, b: int| 0 <= a < b < v2.len() implies v2[a].0 != v2[b].0 by {
            let a0 = if a < i { a } else { a + 1 };
            let b0 = if b < i { b } else { b + 1 };
            assert(v2[a] == vars[a0] && v2[b] == vars[b0]);
        }
    }
}

/// Printing leaves the variables alone.
proof fn lemma_out_lines_vars(sh: ShellView, lines: Seq<Seq<char>>)
    ensures
        out_lines(sh, lines).vars == sh.vars,
    decreases lines.len(),
{
    if lines.len() > 0 {
        lemma_out_lines_vars(sh, lines.drop_last());
    }
}

/// Printing any lines leaves the variables alone.
proof fn lemma_printing_keeps_vars()
    ensures
        forall|sh: ShellView, lines: Seq<Seq<char>>| #[trigger] out_lines(sh, lines).vars == sh.vars,
{
    assert forall|sh: ShellView, lines: Seq<Seq<char>>| #[trigger] out_lines(sh, lines).vars == sh.vars by {
        lemma_out_lines_vars(sh, lines);
    }
}

/// `run` keeps variable names unique.
proof fn lemma_run_keeps_names_unique(sh: ShellView, k: KernelView, args: Seq<char>, path: Seq<char>, d: nat)
    requires
        names_unique(sh.vars),
        run_spec(sh, k, args, path, d) is Some,
    ensures
        names_unique(run_spec(sh, k, args, path, d)->0.shell.vars),
    decreases d, 0nat, 0nat,
{
    if args.len() > 0 && d > 0 {
        let s = SyscallView::Read { path };
        if let ResultView::Str(script) = dispatch_result(k, s) {
            let sh1 = out_line(sh, "--- Running script: "@ + path + " ---"@);
            lemma_lines_keep_names_unique(sh1, dispatch_state(k, s), text_lines(script), (d - 1) as nat);
        }
    }
}

/// `ls` leaves the variables alone.
proof fn lemma_ls_keeps_vars(sh: ShellView, k: KernelView, args: Seq<char>, path: Seq<char>)
    ensures
        ls_spec(sh, k, args, path) matches Some(o) ==> o.shell.vars == sh.vars,
{
    lemma_printing_keeps_vars();
}

/// `cat` leaves the variables alone.
proof fn lemma_cat_keeps_vars(sh: ShellView, k: KernelView, args: Seq<char>, path: Seq<char>)
    ensures
        cat_spec(sh, k, args, path) matches Some(o) ==> o.shell.vars == sh.vars,
{
    lemma_printing_keeps_vars();
}

/// `fs_cmd` leaves the variables alone.
proof fn lemma_fs_cmd_keeps_vars(sh: ShellView, k: KernelView, args: Seq<char>, path: Seq<char>, which: int)
    ensures
        fs_cmd_spec(sh, k, args, path, which) matches Some(o) ==> o.shell.vars == sh.vars,
{
    lemma_printing_keeps_vars();
}

/// `ps` leaves the variables alone.
proof fn lemma_ps_keeps_vars(sh: ShellView, k: KernelView)
    ensures
        ps_spec(sh, k) matches Some(o) ==> o.shell.vars == sh.vars,
{
    lemma_printing_keeps_vars();
}

/// `kill` leaves the variables alone.
proof fn lemma_kill_keeps_vars(sh: ShellView, k: KernelView, args: Seq<char>)
    ensures
        kill_spec(sh, k, args) matches Some(o) ==> o.shell.vars == sh.vars,
{
    lemma_printing_keeps_vars();
}

/// `exec` leaves the variables alone.
proof fn lemma_exec_keeps_vars(sh: ShellView, k: KernelView, args: Seq<char>)
    ensures
        exec_spec(sh, k, args) matches Some(o) ==> o.shell.vars == sh.vars,
{
    lemma_printing_keeps_vars();
}

/// `free` leaves the variables alone.
proof fn lemma_free_keeps_vars(sh: ShellView, k: KernelView)
    ensures
        free_spec(sh, k) matches Some(o) ==> o.shell.vars == sh.vars,
{
    lemma_printing_keeps_vars();
}

/// `memfree` leaves the variables alone.
proof fn lemma_memfree_keeps_vars(sh: ShellView, k: KernelView, args: Seq<char>)
    ensures
        memfree_spec(sh, k, args) matches Some(o) ==> o.shell.vars == sh.vars,
{
    lemma_printing_keeps_vars();
}

/// `malloc` leaves the variables alone.
proof fn lemma_malloc_keeps_vars(sh: ShellView, k: KernelView, args: Seq<char>)
    ensures
        malloc_spec(sh, k, args) matches Some(o) ==> o.shell.vars == sh.vars,
{
    lemma_printing_keeps_vars();
}

/// `cd` leaves the variables alone.
proof fn lemma_cd_keeps_vars(sh: ShellView, k: KernelView, args: Seq<char>, path: Seq<char>)
    ensures
        cd_spec(sh, k, args, path) matches Some(o) ==> o.shell.vars == sh.vars,
{
    lemma_printing_keeps_vars();
}

/// `set`, `unset` and assignments keep variable names unique.
proof fn lemma_set_cmd_keeps_names_unique(sh: ShellView, k: KernelView, args: Seq<char>)
    requires
        names_unique(sh.vars),
    ensures
        set_spec(sh, k, args) matches Some(o) ==> names_unique(o.shell.vars),
{
    lemma_printing_keeps_vars();
    if let Some(eq) = find_char(args, '=') {
        law_set_keeps_names_unique(sh.vars, trim(args.take(eq)), trim(args.skip(eq + 1)));
    }
}

/// `unset` keeps variable names unique.
proof fn lemma_unset_cmd_keeps_names_unique(sh: ShellView, k: KernelView, args: Seq<char>)
    requires
        names_unique(sh.vars),
    ensures
        unset_spec(sh, k, args) matches Some(o) ==> names_unique(o.shell.vars),
{
    law_unset_keeps_names_unique(sh.vars, trim(args));
}

/// Assignments (and unknown commands) keep variable names unique.
proof fn lemma_other_cmd_keeps_names_unique(sh: ShellView, k: KernelView, cmd: Seq<char>, command: Seq<char>)
    requires
        names_unique(sh.vars),
    ensures
        other_spec(sh, k, cmd, command) matches Some(o) ==> names_unique(o.shell.vars),
{
    if let Some(eq) = find_char(cmd, '=') {
        law_set_keeps_names_unique(sh.vars, trim(cmd.take(eq)), expand(sh.vars, trim(cmd.skip(eq + 1))));
    }
}

/// Every command keeps variable names unique.
pub proof fn lemma_cmd_keeps_names_unique(sh: ShellView, k: KernelView, cmd: Seq<char>, d: nat)
    requires
        names_unique(sh.vars),
        cmd_spec(sh, k, cmd, d) is Some,
    ensures
        names_unique(cmd_spec(sh, k, cmd, d)->0.shell.vars),
    decreases d, 1nat, 0nat,
{
    let t = trim(cmd);
    let command = split_first_space(t).0;
    let args = args_of(t);
    let path = shell_path(sh.cwd, args);
    if command == "help"@ {
        lemma_out_lines_vars(sh, help_lines());
    } else if command == "ls"@ {
        lemma_ls_keeps_vars(sh, k, args, path);
    } else if command == "cat"@ {
        lemma_cat_keeps_vars(sh, k, args, path);
    } else if command == "mkdir"@ {
        lemma_fs_cmd_keeps_vars(sh, k, args, path, 0);
    } else if command == "touch"@ {
        lemma_fs_cmd_keeps_vars(sh, k, args, path, 1);
    } else if command == "rm"@ {
        lemma_fs_cmd_keeps_vars(sh, k, args, path, 2);
    } else if command == "ps"@ {
        lemma_ps_keeps_vars(sh, k);
    } else if command == "kill"@ {
        lemma_kill_keeps_vars(sh, k, args);
    } else if command == "exec"@ {
        lemma_exec_keeps_vars(sh, k, args);
    } else if command == "free"@ {
        lemma_free_keeps_vars(sh, k);
    } else if command == "malloc"@ {
        lemma_malloc_keeps_vars(sh, k, args);
    } else if command == "memfree"@ {
        lemma_memfree_keeps_vars(sh, k, args);
    } else if command == "echo"@ || command == "pwd"@ {
    } else if command == "cd"@ {
        lemma_cd_keeps_vars(sh, k, args, path);
    } else if command == "tree"@ {
        lemma_printing_keeps_vars();
    } else if command == "edit"@ {
    } else if command == "run"@ {
        lemma_run_keeps_names_unique(sh, k, args, path, d);
    } else if command == "set"@ {
        lemma_set_cmd_keeps_names_unique(sh, k, args);
    } else if command == "unset"@ {
        lemma_unset_cmd_keeps_names_unique(sh, k, args);
    } else {
        lemma_other_cmd_keeps_names_unique(sh, k, cmd, command);
    }
}

/// Every script keeps variable names unique.
pub proof fn lemma_lines_keep_names_unique(sh: ShellView, k: KernelView, lines: Seq<Seq<char>>, d: nat)
    requires
        names_unique(sh.vars),
        lines_spec(sh, k, lines, d) is Some,
    ensures
        names_unique(lines_spec(sh, k, lines, d)->0.shell.vars),
    decreases d, lines.len() + 1, 0nat,
{
    if lines.len() > 0 {
        let raw = trim(lines[0]);
        let rest = lines.drop_first();
        if raw.len() == 0 || raw[0] == '#' {
            lemma_lines_keep_names_unique(sh, k, rest, d);
        } else {
            let line = trim(expand(sh.vars, raw));
            match assignment(line) {
                Some(kv) => {
                    law_set_keeps_names_unique(sh.vars, kv.0, kv.1);
                    lemma_lines_keep_names_unique(ShellView { vars: var_set(sh.vars, kv.0, kv.1), ..sh }, k, rest, d);
                },
                None => {
                    let word = split_first_space(line).0;
                    let arg = args_of(line);
                    if word == "if"@ {
                        let c = cond_spec(sh, k, trim(arg));
                        let blk = collect_if(sh.vars, rest, 1, false, Seq::empty(), Seq::empty());
                        lemma_collect_if_len(sh.vars, rest, 1, false, Seq::empty(), Seq::empty());
                        let body = if c { blk.0 } else { blk.1 };
                        lemma_lines_keep_names_unique(sh, k, body, d);
                        let o1 = lines_spec(sh, k, body, d)->0;
                        lemma_lines_keep_names_unique(o1.shell, o1.kernel, blk.2, d);
                    } else if word == "for"@ {
                        let var = split_first_space(arg).0;
                        let values = for_values(arg);
                        let blk = collect_for(sh.vars, rest, 1, Seq::empty());
                        lemma_collect_for_len(sh.vars, rest, 1, Seq::empty());
                        lemma_for_keeps_names_unique(sh, k, var, values, blk.0, d);
                        let o1 = for_spec(sh, k, var, values, blk.0, d)->0;
                        lemma_lines_keep_names_unique(o1.shell, o1.kernel, blk.1, d);
                    } else if word == "else"@ || word == "end"@ {
                        lemma_lines_keep_names_unique(sh, k, rest, d);
                    } else {
                        lemma_cmd_keeps_names_unique(sh, k, line, d);
                        let o1 = cmd_spec(sh, k, line, d)->0;
                        lemma_lines_keep_names_unique(o1.shell, o1.kernel, rest, d);
                    }
                },
            }
        }
    }
}

/// Every loop keeps variable names unique.
pub proof fn lemma_for_keeps_names_unique(
    sh: ShellView,
    k: KernelView,
    var: Seq<char>,
    values: Seq<Seq<char>>,
    body: Seq<Seq<char>>,
    d: nat,
)
    requires
        names_unique(sh.vars),
        for_spec(sh, k, var, values, body, d) is Some,
    ensures
        names_unique(for_spec(sh, k, var, values, body, d)->0.shell.vars),
    decreases d, body.len() + 1, values.len() + 1,
{
    if values.len() > 0 {
        let sh1 = ShellView { vars: var_set(sh.vars, var, values[0]), ..sh };
        law_set_keeps_names_unique(sh.vars, var, values[0]);
        lemma_lines_keep_names_unique(sh1, k, body, d);
        let o1 = lines_spec(sh1, k, body, d)->0;
        lemma_for_keeps_names_unique(o1.shell, o1.kernel, var, values.drop_first(), body, d);
    }
}


/// A comparison `L != R` with no `==` in it (`L` holds no `=`, and no `=` in `R` follows
/// another `=` or starts `R`) holds exactly when the two sides, each trimmed, expanded and
/// trimmed again, are different texts.
pub proof fn law_not_equal_condition(sh: ShellView, k: KernelView, cond: Seq<char>, l: Seq<char>, r: Seq<char>)
    requires
        trim(cond) == l + "!="@ + r,
        !l.contains('='),
        forall|j: int| 0 <= j < r.len() && #[trigger] r[j] == '=' ==> j > 0 && r[j - 1] != '=',
    ensures
        cond_spec(sh, k, cond) == (trim(expand(sh.vars, trim(l))) != trim(expand(sh.vars, trim(r)))),
{
    reveal_strlit("!=");
    let c = trim(cond);
    let n = l.len() as int;
    assert(c[n] == '!' && c[n + 1] == '=');
    assert forall|j: int| 0 <= j < n implies #[trigger] c[j] == l[j] by {}
    assert forall|j: int| n + 2 <= j < c.len() implies #[trigger] c[j] == r[j - n - 2] by {}
    lemma_find_pair_first(c, '=', '=');
    match find_pair(c, '=', '=') {
        Some(i) => {
            if i < n {
                assert(l[i] == '=');
                assert(l.contains('='));
            } else if i == n {
            } else if i == n + 1 {
                assert(r[0] == '=');
            } else {
                assert(r[i + 1 - n - 2] == '=');
            }
        },
        None => {},
    }
    lemma_find_pair_first(c, '!', '=');
    match find_pair(c, '!', '=') {
        Some(i) => {
            if i < n {
                if i + 1 < n {
                    assert(l[i + 1] == '=');
                    assert(l.contains('='));
                }
            }
            assert(i == n);
            assert(c.take(i) =~= l);
            assert(c.skip(i + 2) =~= r);
        },
        None => {
            assert(!(c[n] == '!' && c[n + 1] == '='));
        },
    }
}

/// A comparison `L == R` (`L` holds no `=`) holds exactly when the two sides, each trimmed,
/// expanded and trimmed again, are the same text.
pub proof fn law_equal_condition(sh: ShellView, k: KernelView, cond: Seq<char>, l: Seq<char>, r: Seq<char>)
    requires
        trim(cond) == l + "=="@ + r,
        !l.contains('='),
    ensures
        cond_spec(sh, k, cond) == (trim(expand(sh.vars, trim(l))) == trim(expand(sh.vars, trim(r)))),
{
    reveal_strlit("==");
    let c = trim(cond);
    let n = l.len() as int;
    assert(c[n] == '=' && c[n + 1] == '=');
    assert forall|j: int| 0 <= j < n implies #[trigger] c[j] == l[j] by {}
    lemma_find_pair_first(c, '=', '=');
    match find_pair(c, '=', '=') {
        Some(i) => {
            if i < n {
                assert(l[i] == '=');
                assert(l.contains('='));
            }
            assert(i == n);
            assert(c.take(i) =~= l);
            assert(c.skip(i + 2) =~= r);
        },
        None => {
            assert(!(c[n] == '=' && c[n + 1] == '='));
        },
    }
}


/// `ls X` (with `X` starting and ending with a non-space) runs `ls` on the argument `X` and
/// the path that `X` names from the working directory.
#[verifier::spinoff_prover]
#[verifier::rlimit(40)]
proof fn lemma_cmd_ls(sh: ShellView, k: KernelView, x: Seq<char>, d: nat)
    requires
        x.len() > 0,
        !is_space(x[0]),
        !is_space(x.last()),
    ensures
        cmd_spec(sh, k, "ls "@ + x, d) == ls_spec(sh, k, x, shell_path(sh.cwd, x)),
{
    reveal_strlit("ls ");
    reveal_strlit("ls");
    reveal_strlit("help");
    let t = "ls "@ + x;
    assert(t[0] == 'l' && t[1] == 's' && t[2] == ' ');
    assert(!is_space(t[0]));
    assert(crate::text::trim_start(t) == t);
    assert(t.last() == x.last());
    assert(crate::text::trim_end(t) == t);
    assert(trim(t) == t);
    lemma_find_char_range(t, ' ');
    assert(find_char(t, ' ') == Some(2int));
    assert(t.take(2) =~= "ls"@);
    assert(t.skip(3) =~= x);
    assert("ls"@ != "help"@);
}

/// What `trim_end_slashes` leaves is a prefix of its argument.
proof fn lemma_trim_end_slashes_prefix(s: Seq<char>)
    ensures
        trim_end_slashes(s).len() <= s.len(),
        trim_end_slashes(s) =~= s.take(trim_end_slashes(s).len() as int),
    decreases s.len(),
{
    if s.len() > 0 && s.last() == '/' {
        let t = s.drop_last();
        lemma_trim_end_slashes_prefix(t);
        assert(t.take(trim_end_slashes(t).len() as int) =~= s.take(trim_end_slashes(t).len() as int));
    } else {
        assert(s.take(s.len() as int) =~= s);
    }
}

/// `ls P` lists the directory that `P` names from the working directory, the path `cat`,
/// `mkdir`, `touch` and `cd` use: in a shell whose working directory is absolute, `ls P`
/// does exactly what `ls` of that absolute path does (for `P` starting and ending with a
/// non-space).
#[verifier::spinoff_prover]
#[verifier::rlimit(40)]
pub proof fn law_ls_resolves_from_cwd(sh: ShellView, k: KernelView, p: Seq<char>, d: nat)
    requires
        sh.cwd.len() > 0,
        sh.cwd[0] == '/',
        p.len() > 0,
        !is_space(p[0]),
        !is_space(p.last()),
    ensures
        cmd_spec(sh, k, "ls "@ + p, d) == cmd_spec(sh, k, "ls "@ + shell_path(sh.cwd, p), d),
{
    reveal_strlit("/");
    let q = shell_path(sh.cwd, p);
    lemma_cmd_ls(sh, k, p, d);
    if !starts_with(p, "/"@) {
        let w = trim_end_slashes(sh.cwd);
        lemma_trim_end_slashes_prefix(sh.cwd);
        assert(q == w + "/"@ + p);
        if w.len() > 0 {
            assert(w[0] == sh.cwd[0]);
        }
        assert(q[0] == '/');
        assert(q.last() == p.last());
        assert(q.take(1) =~= "/"@);
    } else {
        assert(q == p);
    }
    assert(starts_with(q, "/"@));
    assert(shell_path(sh.cwd, q) == q);
    lemma_cmd_ls(sh, k, q, d);
}


/// `ls` with no argument lists the working directory: in a shell whose working directory is
/// an absolute path ending in a non-space, it does exactly what `ls` of that path does.
#[verifier::spinoff_prover]
#[verifier::rlimit(40)]
pub proof fn law_ls_lists_cwd(sh: ShellView, k: KernelView, d: nat)
    requires
        sh.cwd.len() > 0,
        sh.cwd[0] == '/',
        !is_space(sh.cwd.last()),
    ensures
        cmd_spec(sh, k, "ls"@, d) == cmd_spec(sh, k, "ls "@ + sh.cwd, d),
{
    reveal_strlit("ls");
    reveal_strlit("help");
    reveal_strlit("/");
    let t = "ls"@;
    assert(!is_space(t[0]) && !is_space(t[1]));
    assert(crate::text::trim_start(t) == t);
    assert(t.last() == 's');
    assert(crate::text::trim_end(t) == t);
    lemma_find_char_range(t, ' ');
    assert(find_char(t, ' ') is None);
    assert("ls"@ != "help"@);
    assert(sh.cwd.take(1) =~= "/"@);
    assert(shell_path(sh.cwd, sh.cwd) == sh.cwd);
    lemma_cmd_ls(sh, k, sh.cwd, d);
}


/// A condition with no `=` in it that does not start with `exists ` holds exactly when its
/// text, expanded and trimmed, is not empty and is neither `0` nor `false`.
pub proof fn law_plain_condition(sh: ShellView, k: KernelView, cond: Seq<char>)
    requires
        !trim(cond).contains('='),
        !starts_with(trim(cond), "exists "@),
    ensures
        cond_spec(sh, k, cond) == ({
            let e = trim(expand(sh.vars, trim(cond)));
            e.len() > 0 && e != "0"@ && e != "false"@
        }),
{
    let c = trim(cond);
    lemma_find_pair_first(c, '=', '=');
    lemma_find_pair_first(c, '!', '=');
    match find_pair(c, '=', '=') {
        Some(i) => {
            assert(c.contains('='));
        },
        None => {},
    }
    match find_pair(c, '!', '=') {
        Some(i) => {
            assert(c[i + 1] == '=');
            assert(c.contains('='));
        },
        None => {},
    }
}

/// `exists P` (with no `=` in the condition) holds exactly when the path that `P`, expanded
/// and trimmed, names from the working directory resolves in the file system.
pub proof fn law_exists_condition(sh: ShellView, k: KernelView, cond: Seq<char>)
    requires
        !trim(cond).contains('='),
        starts_with(trim(cond), "exists "@),
    ensures
        cond_spec(sh, k, cond) == (crate::kernel::fs::resolve_spec(
            k.inodes,
            shell_path(sh.cwd, trim(expand(sh.vars, trim(trim(cond).skip(7))))),
        ) is Some),
{
    reveal_strlit("exists ");
    let c = trim(cond);
    lemma_find_pair_first(c, '=', '=');
    lemma_find_pair_first(c, '!', '=');
    match find_pair(c, '=', '=') {
        Some(i) => {
            assert(c.contains('='));
        },
        None => {},
    }
    match find_pair(c, '!', '=') {
        Some(i) => {
            assert(c[i + 1] == '=');
            assert(c.contains('='));
        },
        None => {},
    }
}


/// What `ls` lists depends on the resolved path alone, not on how the argument was written:
/// two non-empty arguments that resolve to the same path list the same thing.
pub proof fn law_ls_by_resolved_path(sh: ShellView, k: KernelView, a1: Seq<char>, a2: Seq<char>, path: Seq<char>)
    requires
        a1.len() > 0,
        a2.len() > 0,
    ensures
        ls_spec(sh, k, a1, path) == ls_spec(sh, k, a2, path),
{
}

} // verus!
