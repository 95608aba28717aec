use vstd::prelude::*;
use crate::text::{chars_of, push_all, push_str, string_of, text_lines, texts_of, split_lines};

verus! {

/// Selection and scrolling of the file system browser.
#[derive(Clone, Copy, Debug, PartialEq, Eq, Structural)]
pub struct FsViewState {
    pub selected: usize,
    pub scroll: usize,
}

/// The scroll position kept within `total` lines (at most the last line; 0 when empty).
pub open spec fn clamped_scroll(scroll: usize, total: nat) -> usize {
    let last: int = if total > 0 { total - 1 } else { 0 };
    if scroll > last { last as usize } else { scroll }
}

/// The browser's lines: up to `height` tree lines from `scroll` on, the selected one marked
/// with `> ` and the others indented by two spaces.
pub open spec fn browser_lines(lines: Seq<Seq<char>>, scroll: usize, selected: usize, height: usize) -> Seq<Seq<char>> {
    let avail: int = lines.len() - scroll;
    let n: int = if avail < 0 { 0 } else if height < avail { height as int } else { avail };
    Seq::new(n as nat, |i: int| (if i + scroll == selected { "> "@ } else { "  "@ }) + lines[i + scroll])
}

impl FsViewState {
    /// Nothing selected beyond the first line, no scrolling.
    pub fn new() -> (s: Self)
        ensures
            s.selected == 0,
            s.scroll == 0,
    {
        FsViewState { selected: 0, scroll: 0 }
    }

    /// The lines to show for the tree text in a window `height` lines tall; the scroll
    /// position is first kept within the tree.
    pub fn browser_text(&mut self, tree: &str, height: usize) -> (r: Vec<String>)
        ensures
            final(self).selected == old(self).selected,
            final(self).scroll == clamped_scroll(old(self).scroll, text_lines(tree@).len()),
            texts_of(r@) == browser_lines(text_lines(tree@), final(self).scroll, final(self).selected, height),
    {
        let lines = split_lines(tree);
        let total = lines.len();
        let last = if total > 0 { total - 1 } else { 0 };
        if self.scroll > last {
            self.scroll = last;
        }
        let scroll = self.scroll;
        let ghost want = browser_lines(texts_of(lines@), scroll, self.selected, height);
        let mut out: Vec<String> = Vec::new();
        let mut i: usize = 0;
        let n: usize = if scroll >= total { 0 } else if height < total - scroll { height } else { total - scroll };
        while i < n
            invariant
                i <= n,
                n == want.len(),
                scroll + n <= total,
                total == lines@.len(),
                scroll == self.scroll,
                want == browser_lines(texts_of(lines@), scroll, self.selected, height),
                texts_of(out@) == want.take(i as int),
            decreases n - i,
        {
            let mut v: Vec<char> = Vec::new();
            if i + scroll == self.selected {
                push_str(&mut v, "> ");
            } else {
                push_str(&mut v, "  ");
            }
            let lc = chars_of(lines[i + scroll].as_str());
            push_all(&mut v, lc.as_slice());
            let ghost prev = out@;
            out.push(string_of(v.as_slice()));
            proof {
                assert(want[i as int] == v@);
                assert(texts_of(out@) =~= texts_of(prev).push(v@));
                assert(want.take(i + 1) =~= want.take(i as int).push(want[i as int]));
            }
            i = i + 1;
        }
        proof {
            assert(want.take(n as int) =~= want);
        }
        out
    }
}

} // verus!
