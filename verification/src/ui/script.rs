//! Laws of the shell's script language: how `if`/`else` blocks run.
use vstd::prelude::*;
use crate::kernel::KernelView;
use crate::text::{
    trim, trim_start, trim_end, split_first_space, lemma_trim_idempotent, lemma_trim_end_prefix, join, text_lines,
    strip_cr, lemma_text_lines_join, lemma_lines_state_join, is_space, is_name_char, words_state, find_char,
    lemma_find_char_range,
};
use crate::ui::shell::{
    ShellView, expand, assignment, law_expand_plain, args_of, first_word, cond_spec, collect_if, collect_for,
    lines_spec, join_outcomes, lemma_collect_if_len, lemma_collect_for_len,
};

verus! {

/// Each line trimmed.
pub open spec fn trimmed(lines: Seq<Seq<char>>) -> Seq<Seq<char>> {
    lines.map_values(|x: Seq<char>| trim(x))
}

/// A script line as the interpreter reads it: trimmed, its variables expanded, trimmed again.
pub open spec fn script_line(vars: Seq<(Seq<char>, Seq<char>)>, x: Seq<char>) -> Seq<char> {
    trim(expand(vars, trim(x)))
}

/// The first word of a script line.
pub open spec fn line_word(vars: Seq<(Seq<char>, Seq<char>)>, x: Seq<char>) -> Seq<char> {
    first_word(script_line(vars, x))
}

/// A line that opens an `if` block: not blank, not a comment, not an assignment, and its
/// command word is `if`.
pub open spec fn if_line(vars: Seq<(Seq<char>, Seq<char>)>, x: Seq<char>) -> bool {
    &&& trim(x).len() > 0
    &&& trim(x)[0] != '#'
    &&& assignment(script_line(vars, x)) is None
    &&& split_first_space(script_line(vars, x)).0 == "if"@
}

/// The condition of an `if` line.
pub open spec fn if_condition(vars: Seq<(Seq<char>, Seq<char>)>, x: Seq<char>) -> Seq<char> {
    trim(args_of(script_line(vars, x)))
}

/// A line that neither opens nor closes a block: its first word is none of `if`, `for`,
/// `else`, `end`.
pub open spec fn plain_line(vars: Seq<(Seq<char>, Seq<char>)>, x: Seq<char>) -> bool {
    let w = line_word(vars, x);
    w != "if"@ && w != "for"@ && w != "else"@ && w != "end"@
}

/// Collecting an `if` block from trimmed lines gives the same branches, and the trimmed
/// remainder.
proof fn lemma_collect_if_trimmed(
    vars: Seq<(Seq<char>, Seq<char>)>,
    lines: Seq<Seq<char>>,
    depth: int,
    in_else: bool,
    ifb: Seq<Seq<char>>,
    elseb: Seq<Seq<char>>,
)
    ensures
        ({
            let r = collect_if(vars, lines, depth, in_else, ifb, elseb);
            collect_if(vars, trimmed(lines), depth, in_else, ifb, elseb) == (r.0, r.1, trimmed(r.2))
        }),
    decreases lines.len(),
{
    let t = trimmed(lines);
    if lines.len() == 0 {
        assert(t =~= lines);
    } else {
        lemma_trim_idempotent(lines[0]);
        assert(t[0] == trim(lines[0]));
        assert(t.drop_first() =~= trimmed(lines.drop_first()));
        let inner = trim(lines[0]);
        let rest = lines.drop_first();
        let ifb2 = if in_else { ifb } else { ifb.push(inner) };
        let elseb2 = if in_else { elseb.push(inner) } else { elseb };
        lemma_collect_if_trimmed(vars, rest, depth + 1, in_else, ifb2, elseb2);
        lemma_collect_if_trimmed(vars, rest, depth, true, ifb, elseb);
        lemma_collect_if_trimmed(vars, rest, depth - 1, in_else, ifb2, elseb2);
        lemma_collect_if_trimmed(vars, rest, depth, in_else, ifb2, elseb2);
    }
}

/// Collecting a `for` body from trimmed lines gives the same body, and the trimmed
/// remainder.
proof fn lemma_collect_for_trimmed(vars: Seq<(Seq<char>, Seq<char>)>, lines: Seq<Seq<char>>, depth: int, body: Seq<Seq<char>>)
    ensures
        ({
            let r = collect_for(vars, lines, depth, body);
            collect_for(vars, trimmed(lines), depth, body) == (r.0, trimmed(r.1))
        }),
    decreases lines.len(),
{
    let t = trimmed(lines);
    if lines.len() == 0 {
        assert(t =~= lines);
    } else {
        lemma_trim_idempotent(lines[0]);
        assert(t[0] == trim(lines[0]));
        assert(t.drop_first() =~= trimmed(lines.drop_first()));
        let inner = trim(lines[0]);
        let rest = lines.drop_first();
        lemma_collect_for_trimmed(vars, rest, depth + 1, body.push(inner));
        lemma_collect_for_trimmed(vars, rest, depth - 1, body.push(inner));
        lemma_collect_for_trimmed(vars, rest, depth, body.push(inner));
    }
}

/// Running trimmed lines is running the lines.
pub proof fn lemma_lines_trimmed(sh: ShellView, k: KernelView, lines: Seq<Seq<char>>, d: nat)
    ensures
        lines_spec(sh, k, trimmed(lines), d) == lines_spec(sh, k, lines, d),
    decreases lines.len(),
{
    let t = trimmed(lines);
    if lines.len() == 0 {
        assert(t =~= lines);
    } else {
        lemma_trim_idempotent(lines[0]);
        assert(t[0] == trim(lines[0]));
        let rest = lines.drop_first();
        assert(t.drop_first() =~= trimmed(rest));
        let raw = trim(lines[0]);
        if raw.len() == 0 || raw[0] == '#' {
            lemma_lines_trimmed(sh, k, rest, d);
        } else {
            let line = trim(expand(sh.vars, raw));
            match assignment(line) {
                Some(kv) => {
                    lemma_lines_trimmed(
                        ShellView { vars: crate::ui::shell::var_set(sh.vars, kv.0, kv.1), ..sh },
                        k,
                        rest,
                        d,
                    );
                },
                None => {
                    let word = split_first_space(line).0;
                    let arg = args_of(line);
                    if word == "if"@ {
                        let c = cond_spec(sh, k, trim(arg));
                        lemma_collect_if_trimmed(sh.vars, rest, 1, false, Seq::empty(), Seq::empty());
                        lemma_collect_if_len(sh.vars, rest, 1, false, Seq::empty(), Seq::empty());
                        let blk = collect_if(sh.vars, rest, 1, false, Seq::empty(), Seq::empty());
                        let body = if c { blk.0 } else { blk.1 };
                        match lines_spec(sh, k, body, d) {
                            Some(o1) => lemma_lines_trimmed(o1.shell, o1.kernel, blk.2, d),
                            None => {},
                        }
                    } else if word == "for"@ {
                        let var = split_first_space(arg).0;
                        let values = crate::ui::shell::for_values(arg);
                        lemma_collect_for_trimmed(sh.vars, rest, 1, Seq::empty());
                        lemma_collect_for_len(sh.vars, rest, 1, Seq::empty());
                        let blk = collect_for(sh.vars, rest, 1, Seq::empty());
                        match crate::ui::shell::for_spec(sh, k, var, values, blk.0, d) {
                            Some(o1) => lemma_lines_trimmed(o1.shell, o1.kernel, blk.1, d),
                            None => {},
                        }
                    } else if word == "else"@ || word == "end"@ {
                        lemma_lines_trimmed(sh, k, rest, d);
                    } else {
                        match crate::ui::shell::cmd_spec(sh, k, line, d) {
                            Some(o1) => lemma_lines_trimmed(o1.shell, o1.kernel, rest, d),
                            None => {},
                        }
                    }
                },
            }
        }
    }
}

/// Plain lines go into the branch being collected, trimmed.
proof fn lemma_collect_if_plain(
    vars: Seq<(Seq<char>, Seq<char>)>,
    a: Seq<Seq<char>>,
    x: Seq<Seq<char>>,
    depth: int,
    in_else: bool,
    ifb: Seq<Seq<char>>,
    elseb: Seq<Seq<char>>,
)
    requires
        forall|i: int| 0 <= i < a.len() ==> plain_line(vars, #[trigger] a[i]),
    ensures
        collect_if(vars, a + x, depth, in_else, ifb, elseb) == collect_if(
            vars,
            x,
            depth,
            in_else,
            if in_else { ifb } else { ifb + trimmed(a) },
            if in_else { elseb + trimmed(a) } else { elseb },
        ),
    decreases a.len(),
{
    if a.len() == 0 {
        assert(a + x =~= x);
        assert(ifb + trimmed(a) =~= ifb);
        assert(elseb + trimmed(a) =~= elseb);
    } else {
        let l = a + x;
        assert(l[0] == a[0]);
        assert(l.drop_first() =~= a.drop_first() + x);
        assert(plain_line(vars, a[0]));
        let inner = trim(a[0]);
        let ifb2 = if in_else { ifb } else { ifb.push(inner) };
        let elseb2 = if in_else { elseb.push(inner) } else { elseb };
        let rest = a.drop_first();
        assert forall|i: int| 0 <= i < rest.len() implies plain_line(vars, #[trigger] rest[i]) by {
            assert(rest[i] == a[i + 1]);
        }
        lemma_collect_if_plain(vars, rest, x, depth, in_else, ifb2, elseb2);
        assert(ifb.push(inner) + trimmed(rest) =~= ifb + trimmed(a));
        assert(elseb.push(inner) + trimmed(rest) =~= elseb + trimmed(a));
    }
}

/// An `if`/`else` block runs the branch that its condition picks (evaluated before the
/// block runs), then the lines after its `end`: the `if` line, lines `a`, an `else` line,
/// lines `b` and an `end` line, where no line of `a` or `b` opens or closes a block, run as
/// `a` (or `b`) followed by `rest`. `None` on both sides when a counter would overflow.
pub proof fn law_if_else_runs_branch(
    sh: ShellView,
    k: KernelView,
    if_text: Seq<char>,
    a: Seq<Seq<char>>,
    else_text: Seq<char>,
    b: Seq<Seq<char>>,
    end_text: Seq<char>,
    rest: Seq<Seq<char>>,
    d: nat,
)
    requires
        if_line(sh.vars, if_text),
        line_word(sh.vars, else_text) == "else"@,
        line_word(sh.vars, end_text) == "end"@,
        forall|i: int| 0 <= i < a.len() ==> plain_line(sh.vars, #[trigger] a[i]),
        forall|i: int| 0 <= i < b.len() ==> plain_line(sh.vars, #[trigger] b[i]),
    ensures
        lines_spec(sh, k, seq![if_text] + a + seq![else_text] + b + seq![end_text] + rest, d) == ({
            let branch = if cond_spec(sh, k, if_condition(sh.vars, if_text)) { a } else { b };
            match lines_spec(sh, k, branch, d) {
                Some(o) => join_outcomes(o, lines_spec(o.shell, o.kernel, rest, d)),
                None => None,
            }
        }),
{
    let vars = sh.vars;
    let all = seq![if_text] + a + seq![else_text] + b + seq![end_text] + rest;
    let after_if = a + seq![else_text] + b + seq![end_text] + rest;
    assert(all[0] == if_text);
    assert(all.drop_first() =~= after_if);
    let tail1 = seq![else_text] + b + seq![end_text] + rest;
    assert(after_if =~= a + tail1);
    lemma_collect_if_plain(vars, a, tail1, 1, false, Seq::empty(), Seq::empty());
    let ta = Seq::<Seq<char>>::empty() + trimmed(a);
    assert(ta =~= trimmed(a));
    // The `else` line switches to the second branch.
    let tail2 = b + seq![end_text] + rest;
    assert(tail1[0] == else_text);
    assert(tail1.drop_first() =~= tail2);
    lemma_collect_if_plain(vars, b, seq![end_text] + rest, 1, true, trimmed(a), Seq::empty());
    let tb = Seq::<Seq<char>>::empty() + trimmed(b);
    assert(tb =~= trimmed(b));
    let tail3 = seq![end_text] + rest;
    assert(tail2 =~= b + tail3);
    assert(tail3[0] == end_text);
    assert(tail3.drop_first() =~= rest);
    reveal_strlit("if");
    reveal_strlit("for");
    reveal_strlit("else");
    reveal_strlit("end");
    assert("if"@.len() == 2 && "for"@.len() == 3 && "else"@.len() == 4 && "end"@.len() == 3);
    assert("end"@[1] != "else"@[1]);
    assert("end"@ != "else"@);
    let we = first_word(trim(expand(vars, trim(tail1[0]))));
    assert(we == "else"@);
    assert(we != "if"@ && we != "for"@);
    let wn = first_word(trim(expand(vars, trim(tail3[0]))));
    assert(wn == "end"@);
    assert(wn != "if"@ && wn != "for"@ && wn != "else"@);
    assert(collect_if(vars, tail1, 1, false, trimmed(a), Seq::empty())
        == collect_if(vars, tail2, 1, true, trimmed(a), Seq::empty()));
    assert(collect_if(vars, tail3, 1, true, trimmed(a), tb) == (trimmed(a), trimmed(b), rest));
    assert(collect_if(vars, after_if, 1, false, Seq::empty(), Seq::empty()) == (trimmed(a), trimmed(b), rest));
    lemma_lines_trimmed(sh, k, a, d);
    lemma_lines_trimmed(sh, k, b, d);
}

/// Lines that a script text holds as they are: none holds a newline or ends in a carriage
/// return.
pub open spec fn clean_lines(ls: Seq<Seq<char>>) -> bool {
    &&& forall|i: int| 0 <= i < ls.len() ==> !(#[trigger] ls[i]).contains('\n')
    &&& forall|i: int| 0 <= i < ls.len() ==> strip_cr(#[trigger] ls[i]) == ls[i]
}

/// The script text of some lines: each line followed by a newline.
pub open spec fn script_text(ls: Seq<Seq<char>>) -> Seq<char> {
    join(ls, "\n"@) + "\n"@
}

/// A script that is one `if`/`else` block runs as the script of the branch that its
/// condition picks: the same shell, machine and editor request come out (or `None` on both
/// sides). The branches are non-empty lists of lines (a blank line stands for an empty
/// branch) that neither open nor close a block, and no line holds a newline or ends in a
/// carriage return.
pub proof fn law_if_else_script(
    sh: ShellView,
    k: KernelView,
    if_text: Seq<char>,
    a: Seq<Seq<char>>,
    else_text: Seq<char>,
    b: Seq<Seq<char>>,
    end_text: Seq<char>,
    d: nat,
)
    requires
        if_line(sh.vars, if_text),
        line_word(sh.vars, else_text) == "else"@,
        line_word(sh.vars, end_text) == "end"@,
        a.len() > 0,
        b.len() > 0,
        forall|i: int| 0 <= i < a.len() ==> plain_line(sh.vars, #[trigger] a[i]),
        forall|i: int| 0 <= i < b.len() ==> plain_line(sh.vars, #[trigger] b[i]),
        clean_lines(seq![if_text] + a + seq![else_text] + b + seq![end_text]),
    ensures
        lines_spec(sh, k, text_lines(script_text(seq![if_text] + a + seq![else_text] + b + seq![end_text])), d)
            == lines_spec(
            sh,
            k,
            text_lines(script_text(if cond_spec(sh, k, if_condition(sh.vars, if_text)) { a } else { b })),
            d,
        ),
{
    let all = seq![if_text] + a + seq![else_text] + b + seq![end_text];
    lemma_text_lines_join(all);
    assert(all + Seq::<Seq<char>>::empty() =~= all);
    law_if_else_runs_branch(sh, k, if_text, a, else_text, b, end_text, Seq::empty(), d);
    assert forall|i: int| 0 <= i < a.len() implies !(#[trigger] a[i]).contains('\n') && strip_cr(a[i]) == a[i] by {
        assert(a[i] == all[i + 1]);
    }
    assert forall|i: int| 0 <= i < b.len() implies !(#[trigger] b[i]).contains('\n') && strip_cr(b[i]) == b[i] by {
        assert(b[i] == all[i + a.len() + 2]);
    }
    lemma_text_lines_join(a);
    lemma_text_lines_join(b);
    let branch = if cond_spec(sh, k, if_condition(sh.vars, if_text)) { a } else { b };
    match lines_spec(sh, k, branch, d) {
        Some(o) => {
            assert(lines_spec(o.shell, o.kernel, Seq::<Seq<char>>::empty(), d) == crate::ui::shell::done(o.shell, o.kernel));
            assert(join_outcomes(o, crate::ui::shell::done(o.shell, o.kernel)) == Some(o));
        },
        None => {},
    }
}

/// A word without white space has itself as its only word.
proof fn lemma_words_state_plain(s: Seq<char>)
    requires
        forall|i: int| 0 <= i < s.len() ==> !is_space(#[trigger] s[i]),
    ensures
        words_state(s) == (Seq::<Seq<char>>::empty(), s),
    decreases s.len(),
{
    if s.len() > 0 {
        let t = s.drop_last();
        assert forall|i: int| 0 <= i < t.len() implies !is_space(#[trigger] t[i]) by {
            assert(t[i] == s[i]);
        }
        lemma_words_state_plain(t);
        assert(s.last() == s[s.len() - 1]);
        assert(t.push(s.last()) =~= s);
    } else {
        assert(s =~= Seq::<char>::empty());
    }
}

/// A line that is one word, without white space or `$`, reads as that word.
proof fn lemma_plain_word(vars: Seq<(Seq<char>, Seq<char>)>, w: Seq<char>)
    requires
        w.len() > 0,
        forall|i: int| 0 <= i < w.len() ==> !is_space(#[trigger] w[i]) && w[i] != '$',
    ensures
        script_line(vars, w) == w,
        line_word(vars, w) == w,
{
    assert(!is_space(w[0]));
    assert(trim_start(w) == w);
    assert(w.last() == w[w.len() - 1]);
    assert(trim_end(w) == w);
    assert(!w.contains('$')) by {
        if w.contains('$') {
            let j = choose|j: int| 0 <= j < w.len() && w[j] == '$';
            assert(w[j] != '$');
        }
    }
    law_expand_plain(vars, w);
    lemma_words_state_plain(w);
}

/// Text that starts with the word `if`: `i`, `f`, then the end or a space.
pub open spec fn if_shaped(s: Seq<char>) -> bool {
    &&& s.len() >= 2
    &&& s[0] == 'i'
    &&& s[1] == 'f'
    &&& s.len() == 2 || s[2] == ' '
}

/// Trimming the end keeps every character up to the last non-space one.
proof fn lemma_trim_end_keeps(t: Seq<char>, j: int)
    requires
        0 <= j < t.len(),
        !is_space(t[j]),
    ensures
        trim_end(t).len() > j,
    decreases t.len(),
{
    if t.len() > 0 && is_space(t.last()) {
        assert(j < t.len() - 1);
        assert(t.drop_last()[j] == t[j]);
        lemma_trim_end_keeps(t.drop_last(), j);
    }
}

proof fn lemma_trim_if_shaped(s: Seq<char>)
    requires
        if_shaped(s),
    ensures
        if_shaped(trim(s)),
{
    assert(!is_space(s[0]));
    assert(trim_start(s) == s);
    lemma_trim_end_prefix(s);
    assert(!is_space(s[1]));
    lemma_trim_end_keeps(s, 1);
    let u = trim_end(s);
    assert(u[0] == s[0] && u[1] == s[1]);
    if u.len() > 2 {
        assert(u[2] == s[2]);
    }
}

proof fn lemma_expand_if_shaped(vars: Seq<(Seq<char>, Seq<char>)>, s: Seq<char>)
    requires
        if_shaped(s),
    ensures
        if_shaped(expand(vars, s)),
{
    let s1 = s.drop_first();
    let s2 = s1.drop_first();
    assert(s1[0] == 'f');
    assert(expand(vars, s) == seq![s[0]] + expand(vars, s1));
    assert(expand(vars, s1) == seq![s1[0]] + expand(vars, s2));
    if s2.len() > 0 {
        assert(s2[0] == ' ');
        assert(expand(vars, s2) == seq![' '] + expand(vars, s2.drop_first()));
    } else {
        assert(expand(vars, s2) == Seq::<char>::empty());
    }
    let e = expand(vars, s);
    assert(e[0] == 'i');
    assert(e[1] == 'f');
    if e.len() > 2 {
        assert(e[2] == ' ');
    }
}

proof fn lemma_if_shaped_line(line: Seq<char>)
    requires
        if_shaped(line),
    ensures
        split_first_space(line).0 == "if"@,
        assignment(line) is None,
{
    reveal_strlit("if");
    lemma_find_char_range(line, ' ');
    match find_char(line, ' ') {
        Some(i) => {
            assert(i == 2);
            assert(line.take(2) =~= "if"@);
        },
        None => {
            if line.len() > 2 {
                assert(line[2] != ' ');
            }
            assert(line =~= "if"@);
        },
    }
    lemma_find_char_range(line, '=');
    match find_char(line, '=') {
        Some(eq) => {
            assert(eq >= 3);
            let key = line.take(eq);
            assert(key[2] == ' ');
            assert(!is_name_char(key[2]));
        },
        None => {},
    }
}

/// `if C` opens an `if` block, whatever `C` holds.
pub proof fn lemma_if_text_is_if_line(vars: Seq<(Seq<char>, Seq<char>)>, c: Seq<char>)
    ensures
        if_line(vars, "if "@ + c),
{
    reveal_strlit("if ");
    let x = "if "@ + c;
    assert(x[0] == 'i' && x[1] == 'f' && x[2] == ' ');
    lemma_trim_if_shaped(x);
    let raw = trim(x);
    lemma_expand_if_shaped(vars, raw);
    lemma_trim_if_shaped(expand(vars, raw));
    lemma_if_shaped_line(trim(expand(vars, raw)));
}

/// Joining two non-empty lists is joining each and putting the separator between them.
proof fn lemma_join_append(x: Seq<Seq<char>>, y: Seq<Seq<char>>, sep: Seq<char>)
    requires
        x.len() > 0,
        y.len() > 0,
    ensures
        join(x + y, sep) == join(x, sep) + sep + join(y, sep),
    decreases y.len(),
{
    if y.len() == 1 {
        assert((x + y).drop_last() =~= x);
        assert((x + y).last() == y[0]);
    } else {
        assert((x + y).drop_last() =~= x + y.drop_last());
        assert((x + y).last() == y.last());
        lemma_join_append(x, y.drop_last(), sep);
        assert(join(x, sep) + sep + join(y.drop_last(), sep) + sep + y.last()
            =~= join(x, sep) + sep + (join(y.drop_last(), sep) + sep + y.last()));
    }
}

/// Lines joined by newlines split back into the same lines, when none holds a newline or
/// ends in a carriage return and the last is not empty.
proof fn lemma_text_lines_of_join(ls: Seq<Seq<char>>)
    requires
        ls.len() > 0,
        clean_lines(ls),
        ls.last().len() > 0,
    ensures
        text_lines(join(ls, "\n"@)) == ls,
{
    lemma_lines_state_join(ls);
    assert(ls.drop_last().push(ls.last()) =~= ls);
}

/// The law of `if`/`else` in the form a script is written: the script
/// `if C⏎A⏎else⏎B⏎end` runs as the script `A` (or `B`) that the condition picks, with the
/// same shell, machine and editor request coming out (or `None` on both sides). `C` holds no
/// newline and does not end in a carriage return; `A` and `B` are non-empty texts that do not
/// end in a newline, none of whose lines ends in a carriage return or, read in the shell as
/// it is before the script, opens or closes a block.
pub proof fn law_if_else_text(
    sh: ShellView,
    k: KernelView,
    c: Seq<char>,
    a: Seq<Seq<char>>,
    b: Seq<Seq<char>>,
    d: nat,
)
    requires
        !c.contains('\n'),
        strip_cr("if "@ + c) == "if "@ + c,
        a.len() > 0,
        b.len() > 0,
        a.last().len() > 0,
        b.last().len() > 0,
        clean_lines(a),
        clean_lines(b),
        forall|i: int| 0 <= i < a.len() ==> plain_line(sh.vars, #[trigger] a[i]),
        forall|i: int| 0 <= i < b.len() ==> plain_line(sh.vars, #[trigger] b[i]),
    ensures
        lines_spec(
            sh,
            k,
            text_lines("if "@ + c + "\n"@ + join(a, "\n"@) + "\nelse\n"@ + join(b, "\n"@) + "\nend"@),
            d,
        ) == lines_spec(
            sh,
            k,
            text_lines(if cond_spec(sh, k, if_condition(sh.vars, "if "@ + c)) { join(a, "\n"@) } else { join(b, "\n"@) }),
            d,
        ),
{
    reveal_strlit("\n");
    reveal_strlit("\nelse\n");
    reveal_strlit("\nend");
    reveal_strlit("else");
    reveal_strlit("end");
    reveal_strlit("if ");
    let nl = "\n"@;
    let ifc = "if "@ + c;
    let e = "else"@;
    let n = "end"@;
    // The script is the lines joined by newlines.
    let p1 = seq![ifc] + a;
    let p2 = p1 + seq![e];
    let p3 = p2 + b;
    let all = p3 + seq![n];
    lemma_join_append(seq![ifc], a, nl);
    lemma_join_append(p1, seq![e], nl);
    lemma_join_append(p2, b, nl);
    lemma_join_append(p3, seq![n], nl);
    assert(join(seq![ifc], nl) == ifc);
    assert(join(seq![e], nl) == e);
    assert(join(seq![n], nl) == n);
    assert("\nelse\n"@ =~= nl + e + nl);
    assert("\nend"@ =~= nl + n);
    assert(ifc + nl + join(a, nl) + "\nelse\n"@ + join(b, nl) + "\nend"@ =~= join(all, nl));
    // Its lines are clean.
    assert(!ifc.contains('\n')) by {
        if ifc.contains('\n') {
            let j = choose|j: int| 0 <= j < ifc.len() && ifc[j] == '\n';
            if j >= 3 {
                assert(c[j - 3] == '\n');
                assert(c.contains('\n'));
            }
        }
    }
    assert(!e.contains('\n')) by {
        if e.contains('\n') {
            let j = choose|j: int| 0 <= j < e.len() && e[j] == '\n';
        }
    }
    assert(!n.contains('\n')) by {
        if n.contains('\n') {
            let j = choose|j: int| 0 <= j < n.len() && n[j] == '\n';
        }
    }
    assert(e.last() == 'e' && n.last() == 'd');
    assert(clean_lines(all)) by {
        assert forall|i: int| 0 <= i < all.len() implies !(#[trigger] all[i]).contains('\n') && strip_cr(all[i]) == all[i] by {
            if i == 0 {
                assert(all[i] == ifc);
            } else if i < a.len() + 1 {
                assert(all[i] == a[i - 1]);
            } else if i == a.len() + 1 {
                assert(all[i] == e);
            } else if i < a.len() + b.len() + 2 {
                assert(all[i] == b[i - a.len() - 2]);
            } else {
                assert(all[i] == n);
            }
        }
    }
    assert(all.last() == n);
    lemma_text_lines_of_join(all);
    lemma_text_lines_of_join(a);
    lemma_text_lines_of_join(b);
    // The block as lines.
    lemma_if_text_is_if_line(sh.vars, c);
    lemma_plain_word(sh.vars, e);
    lemma_plain_word(sh.vars, n);
    assert(all + Seq::<Seq<char>>::empty() =~= all);
    assert(all =~= seq![ifc] + a + seq![e] + b + seq![n]);
    law_if_else_runs_branch(sh, k, ifc, a, e, b, n, Seq::empty(), d);
    let branch = if cond_spec(sh, k, if_condition(sh.vars, ifc)) { a } else { b };
    match lines_spec(sh, k, branch, d) {
        Some(o) => {
            assert(lines_spec(o.shell, o.kernel, Seq::<Seq<char>>::empty(), d) == crate::ui::shell::done(o.shell, o.kernel));
            assert(join_outcomes(o, crate::ui::shell::done(o.shell, o.kernel)) == Some(o));
        },
        None => {},
    }
}

} // verus!
