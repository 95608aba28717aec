//! The layout of the file system's tree drawing, line by line.
use vstd::prelude::*;
use crate::kernel::fs::{InodeView, InodeType, tree_node, tree_children, branch, continuation, display_name};
use crate::text::{text_lines, lines_state, strip_cr, lemma_lines_state_extend};

verus! {

/// Each line followed by a newline.
pub open spec fn lines_text(ls: Seq<Seq<char>>) -> Seq<char>
    decreases ls.len(),
{
    if ls.len() == 0 {
        Seq::empty()
    } else {
        lines_text(ls.drop_last()) + ls.last() + "\n"@
    }
}

/// The entry line of inode `id` in the drawing: the root's name, or the indentation, the
/// branch and the entry's name.
pub open spec fn entry_line(m: Map<u32, InodeView>, id: u32, indent: Seq<char>, last: bool) -> Seq<char> {
    if id == 0 { m[id].name } else { indent + branch(last) + display_name(m[id]) }
}

/// The entries drawn for inode `id` and what lies below it, in depth-first order: the
/// entry itself, then (for a directory) the entries of each child in turn.
pub open spec fn tree_lines(m: Map<u32, InodeView>, id: u32, indent: Seq<char>, last: bool) -> Seq<Seq<char>>
    decreases u32::MAX - id, if m.contains_key(id) { m[id].children.len() + 1 } else { 0 },
{
    if !m.contains_key(id) {
        Seq::empty()
    } else {
        let n = m[id];
        if n.inode_type == InodeType::Directory {
            let below = if id == 0 { Seq::empty() } else { indent + continuation(last) };
            seq![entry_line(m, id, indent, last)] + tree_child_lines(m, id, below, n.children, n.children.len())
        } else {
            seq![entry_line(m, id, indent, last)]
        }
    }
}

/// The entries drawn for the first `k` of `children` (those numbered above `id`).
pub open spec fn tree_child_lines(m: Map<u32, InodeView>, id: u32, below: Seq<char>, children: Seq<u32>, k: nat) -> Seq<Seq<char>>
    decreases u32::MAX - id, k,
{
    if k == 0 || k > children.len() {
        Seq::empty()
    } else {
        let prev = tree_child_lines(m, id, below, children, (k - 1) as nat);
        let c = children[k - 1];
        if c > id {
            prev + tree_lines(m, c, below, k == children.len())
        } else {
            prev
        }
    }
}

/// Text with neither a newline nor a carriage return.
pub open spec fn one_line(s: Seq<char>) -> bool {
    forall|i: int| 0 <= i < s.len() ==> #[trigger] s[i] != '\n' && s[i] != '\r'
}

proof fn lemma_lines_text_append(a: Seq<Seq<char>>, b: Seq<Seq<char>>)
    ensures
        lines_text(a + b) == lines_text(a) + lines_text(b),
    decreases b.len(),
{
    if b.len() == 0 {
        assert(a + b =~= a);
        assert(lines_text(a) + Seq::<char>::empty() =~= lines_text(a));
    } else {
        assert((a + b).drop_last() =~= a + b.drop_last());
        assert((a + b).last() == b.last());
        lemma_lines_text_append(a, b.drop_last());
        assert(lines_text(a) + lines_text(b.drop_last()) + b.last() + "\n"@
            =~= lines_text(a) + (lines_text(b.drop_last()) + b.last() + "\n"@));
    }
}

proof fn lemma_lines_text_one(l: Seq<char>)
    ensures
        lines_text(seq![l]) == l + "\n"@,
{
    let one = seq![l];
    assert(one.drop_last() =~= Seq::<Seq<char>>::empty());
    assert(lines_text(one.drop_last()) == Seq::<char>::empty());
    assert(one.last() == l);
    assert(lines_text(one) == lines_text(one.drop_last()) + one.last() + "\n"@);
    assert(Seq::<char>::empty() + l + "\n"@ =~= l + "\n"@);
}

/// The drawing of a node is its entries, each on a line of its own.
proof fn lemma_tree_node_text(m: Map<u32, InodeView>, id: u32, indent: Seq<char>, last: bool)
    ensures
        tree_node(m, id, indent, last) == lines_text(tree_lines(m, id, indent, last)),
    decreases u32::MAX - id, if m.contains_key(id) { m[id].children.len() + 1 } else { 0 }, 0nat,
{
    if m.contains_key(id) {
        let n = m[id];
        let line = entry_line(m, id, indent, last);
        lemma_lines_text_one(line);
        if n.inode_type == InodeType::Directory {
            let below = if id == 0 { Seq::empty() } else { indent + continuation(last) };
            lemma_tree_children_text(m, id, below, n.children, n.children.len());
            lemma_lines_text_append(seq![line], tree_child_lines(m, id, below, n.children, n.children.len()));
        }
    }
}

/// The drawings of children are their entries, each on a line of its own.
proof fn lemma_tree_children_text(m: Map<u32, InodeView>, id: u32, below: Seq<char>, children: Seq<u32>, k: nat)
    ensures
        tree_children(m, id, below, children, k) == lines_text(tree_child_lines(m, id, below, children, k)),
    decreases u32::MAX - id, k, 1nat,
{
    if !(k == 0 || k > children.len()) {
        lemma_tree_children_text(m, id, below, children, (k - 1) as nat);
        let c = children[k - 1];
        if c > id {
            lemma_tree_node_text(m, c, below, k == children.len());
            lemma_lines_text_append(
                tree_child_lines(m, id, below, children, (k - 1) as nat),
                tree_lines(m, c, below, k == children.len()),
            );
        }
    } else {
        assert(lines_text(Seq::<Seq<char>>::empty()) == Seq::<char>::empty());
    }
}

proof fn lemma_one_line_concat(a: Seq<char>, b: Seq<char>)
    requires
        one_line(a),
        one_line(b),
    ensures
        one_line(a + b),
{
    assert forall|i: int| 0 <= i < (a + b).len() implies #[trigger] (a + b)[i] != '\n' && (a + b)[i] != '\r' by {
        if i < a.len() {
            assert((a + b)[i] == a[i]);
        } else {
            assert((a + b)[i] == b[i - a.len()]);
        }
    }
}

proof fn lemma_marks_one_line(last: bool)
    ensures
        one_line(branch(last)),
        one_line(continuation(last)),
        one_line("/"@),
{
    reveal_strlit("└── ");
    reveal_strlit("├── ");
    reveal_strlit("    ");
    reveal_strlit("│   ");
    reveal_strlit("/");
}

/// Every entry of a drawing whose names and indentation hold no line break is one line.
proof fn lemma_tree_lines_one_line(m: Map<u32, InodeView>, id: u32, indent: Seq<char>, last: bool)
    requires
        forall|j: u32| #[trigger] m.contains_key(j) ==> one_line(m[j].name),
        one_line(indent),
    ensures
        forall|i: int| 0 <= i < tree_lines(m, id, indent, last).len() ==> one_line(#[trigger] tree_lines(m, id, indent, last)[i]),
    decreases u32::MAX - id, if m.contains_key(id) { m[id].children.len() + 1 } else { 0 }, 0nat,
{
    if m.contains_key(id) {
        let n = m[id];
        let line = entry_line(m, id, indent, last);
        lemma_marks_one_line(last);
        lemma_one_line_concat(indent, branch(last));
        lemma_one_line_concat(n.name, "/"@);
        lemma_one_line_concat(indent + branch(last), display_name(n));
        assert(one_line(line));
        if n.inode_type == InodeType::Directory {
            let below = if id == 0 { Seq::empty() } else { indent + continuation(last) };
            lemma_one_line_concat(indent, continuation(last));
            lemma_tree_child_lines_one_line(m, id, below, n.children, n.children.len());
            let rest = tree_child_lines(m, id, below, n.children, n.children.len());
            let all = seq![line] + rest;
            assert forall|i: int| 0 <= i < all.len() implies one_line(#[trigger] all[i]) by {
                if i > 0 {
                    assert(all[i] == rest[i - 1]);
                }
            }
        }
    }
}

proof fn lemma_tree_child_lines_one_line(m: Map<u32, InodeView>, id: u32, below: Seq<char>, children: Seq<u32>, k: nat)
    requires
        forall|j: u32| #[trigger] m.contains_key(j) ==> one_line(m[j].name),
        one_line(below),
    ensures
        forall|i: int| 0 <= i < tree_child_lines(m, id, below, children, k).len()
            ==> one_line(#[trigger] tree_child_lines(m, id, below, children, k)[i]),
    decreases u32::MAX - id, k, 1nat,
{
    if !(k == 0 || k > children.len()) {
        lemma_tree_child_lines_one_line(m, id, below, children, (k - 1) as nat);
        let c = children[k - 1];
        if c > id {
            lemma_tree_lines_one_line(m, c, below, k == children.len());
            let prev = tree_child_lines(m, id, below, children, (k - 1) as nat);
            let mine = tree_lines(m, c, below, k == children.len());
            let all = prev + mine;
            assert forall|i: int| 0 <= i < all.len() implies one_line(#[trigger] all[i]) by {
                if i < prev.len() {
                    assert(all[i] == prev[i]);
                } else {
                    assert(all[i] == mine[i - prev.len()]);
                }
            }
        }
    }
}

/// Lines that are each one line, written one per line, read back as the same lines.
proof fn lemma_lines_text_read_back(ls: Seq<Seq<char>>)
    requires
        forall|i: int| 0 <= i < ls.len() ==> one_line(#[trigger] ls[i]),
    ensures
        lines_state(lines_text(ls)) == (ls, Seq::<char>::empty()),
        text_lines(lines_text(ls)) == ls,
    decreases ls.len(),
{
    reveal_strlit("\n");
    if ls.len() > 0 {
        let init = ls.drop_last();
        let l = ls.last();
        assert forall|i: int| 0 <= i < init.len() implies one_line(#[trigger] init[i]) by {
            assert(init[i] == ls[i]);
        }
        lemma_lines_text_read_back(init);
        assert(one_line(ls[ls.len() - 1]));
        assert(!l.contains('\n')) by {
            if l.contains('\n') {
                let j = choose|j: int| 0 <= j < l.len() && l[j] == '\n';
                assert(l[j] != '\n');
            }
        }
        let p = lines_text(init);
        lemma_lines_state_extend(p, l);
        let s = lines_text(ls);
        assert(s == p + l + "\n"@);
        assert(s.drop_last() =~= p + l);
        assert(s.last() == '\n');
        assert(Seq::<char>::empty() + l =~= l);
        if l.len() > 0 {
            assert(l.last() == l[l.len() - 1]);
        }
        assert(strip_cr(l) == l);
        assert(init.push(l) =~= ls);
    } else {
        assert(lines_text(ls) =~= Seq::<char>::empty());
    }
}

/// The tree drawing, split into lines, is one entry per line in depth-first order: the
/// root's name, then each entry below it as indentation, branch and name, every directory
/// followed by the entries inside it. This holds when no inode's name holds a line break.
pub proof fn law_tree_lines(m: Map<u32, InodeView>)
    requires
        forall|j: u32| #[trigger] m.contains_key(j) ==> one_line(m[j].name),
    ensures
        text_lines(tree_node(m, 0, Seq::empty(), true)) == tree_lines(m, 0, Seq::empty(), true),
{
    lemma_tree_node_text(m, 0, Seq::empty(), true);
    lemma_tree_lines_one_line(m, 0, Seq::empty(), true);
    lemma_lines_text_read_back(tree_lines(m, 0, Seq::empty(), true));
}

} // verus!
