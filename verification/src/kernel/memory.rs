use vstd::prelude::*;

verus! {

/// Who a physical page belongs to.
#[derive(Clone, Copy, Debug, PartialEq, Eq, Structural)]
pub enum PageOwner {
    Free,
    Kernel,
    Process(u32),
    Reserved,
}

/// Metadata kept for every page.
#[derive(Clone, Copy, Debug)]
pub struct PageInfo {
    pub owner: PageOwner,
}

/// Page counts by owner kind.
pub struct MemStats {
    pub total: usize,
    pub used_kernel: usize,
    pub used_process: usize,
    pub free: usize,
    pub reserved: usize,
}

/// A paged physical memory of fixed size, each page tagged with its owner.
pub struct MemoryManager {
    pub pages: Vec<PageInfo>,
}

/// Number of pages the manager starts with.
pub const NUM_PAGES: usize = 256;

/// Number of leading pages reserved for the kernel at boot.
pub const KERNEL_PAGES: usize = 16;

/// The pages `start .. start + count` all exist and are free.
pub open spec fn run_is_free(pages: Seq<PageInfo>, start: int, count: int) -> bool {
    &&& 0 <= start
    &&& start + count <= pages.len()
    &&& forall|i: int| start <= i < start + count ==> (#[trigger] pages[i]).owner == PageOwner::Free
}

/// `pages` with every page of `start .. end` given to `owner`.
pub open spec fn assign_range(pages: Seq<PageInfo>, start: int, end: int, owner: PageOwner) -> Seq<PageInfo> {
    Seq::new(pages.len(), |i: int| if start <= i < end { PageInfo { owner } } else { pages[i] })
}

/// `pages` with every page owned by process `pid` made free.
pub open spec fn release_owner(pages: Seq<PageInfo>, pid: u32) -> Seq<PageInfo> {
    Seq::new(
        pages.len(),
        |i: int|
            if pages[i].owner == PageOwner::Process(pid) {
                PageInfo { owner: PageOwner::Free }
            } else {
                pages[i]
            },
    )
}

/// The first-fit start for `count` contiguous free pages, if any.
#[verifier::opaque]
pub open spec fn first_fit(pages: Seq<PageInfo>, count: int) -> Option<int> {
    if count > 0 && exists|s: int| run_is_free(pages, s, count) {
        Some(choose|s: int| run_is_free(pages, s, count) && forall|t: int| 0 <= t < s ==> !run_is_free(pages, t, count))
    } else {
        None
    }
}

/// Which kind of owner a page has: 0 free, 1 kernel, 2 process, 3 reserved.
pub open spec fn owner_kind(o: PageOwner) -> int {
    match o {
        PageOwner::Free => 0,
        PageOwner::Kernel => 1,
        PageOwner::Process(_) => 2,
        PageOwner::Reserved => 3,
    }
}

/// Number of pages in `pages` whose owner is of kind `k`.
pub open spec fn count_kind(pages: Seq<PageInfo>, k: int) -> nat
    decreases pages.len(),
{
    if pages.len() == 0 {
        0
    } else {
        count_kind(pages.drop_last(), k) + if owner_kind(pages.last().owner) == k { 1nat } else { 0nat }
    }
}

/// Every page is counted under exactly one kind.
pub proof fn lemma_count_kinds_total(pages: Seq<PageInfo>)
    ensures
        count_kind(pages, 0) + count_kind(pages, 1) + count_kind(pages, 2) + count_kind(pages, 3) == pages.len(),
    decreases pages.len(),
{
    if pages.len() > 0 {
        lemma_count_kinds_total(pages.drop_last());
    }
}

proof fn lemma_count_kind_bound(pages: Seq<PageInfo>, k: int)
    ensures
        count_kind(pages, k) <= pages.len(),
    decreases pages.len(),
{
    if pages.len() > 0 {
        lemma_count_kind_bound(pages.drop_last(), k);
    }
}

/// When a free run exists, a lowest one exists.
proof fn lemma_lowest_free_run(pages: Seq<PageInfo>, count: int, s0: int)
    requires
        run_is_free(pages, s0, count),
    ensures
        exists|s: int| run_is_free(pages, s, count) && forall|t: int| 0 <= t < s ==> !run_is_free(pages, t, count),
    decreases s0,
{
    if exists|t: int| 0 <= t < s0 && run_is_free(pages, t, count) {
        let t = choose|t: int| 0 <= t < s0 && run_is_free(pages, t, count);
        lemma_lowest_free_run(pages, count, t);
    } else {
        assert(forall|t: int| 0 <= t < s0 ==> !run_is_free(pages, t, count));
    }
}

/// First fit is the lowest start of a run of `count` free pages, and there is none when it
/// finds nothing (or asks for no pages).
pub proof fn lemma_first_fit_result(pages: Seq<PageInfo>, count: int)
    ensures
        match first_fit(pages, count) {
            Some(s) => {
                &&& count > 0
                &&& run_is_free(pages, s, count)
                &&& forall|t: int| 0 <= t < s ==> !run_is_free(pages, t, count)
            },
            None => count <= 0 || forall|s: int| !run_is_free(pages, s, count),
        },
{
    reveal(first_fit);
    if count > 0 && exists|s: int| run_is_free(pages, s, count) {
        let s0 = choose|s: int| run_is_free(pages, s, count);
        lemma_lowest_free_run(pages, count, s0);
    }
}

/// A minimal free run is unique: two starts that are both minimal coincide.
pub proof fn lemma_first_fit_unique(pages: Seq<PageInfo>, count: int, s: int)
    requires
        count > 0,
        run_is_free(pages, s, count),
        forall|t: int| 0 <= t < s ==> !run_is_free(pages, t, count),
    ensures
        first_fit(pages, count) == Some(s),
{
    reveal(first_fit);
    let c = choose|c: int| run_is_free(pages, c, count) && forall|t: int| 0 <= t < c ==> !run_is_free(pages, t, count);
    assert(run_is_free(pages, c, count) && forall|t: int| 0 <= t < c ==> !run_is_free(pages, t, count));
    if c < s {
        assert(!run_is_free(pages, c, count));
    }
    if s < c {
        assert(!run_is_free(pages, s, count));
    }
}

impl MemoryManager {
    /// The page table as a sequence.
    pub open spec fn view(&self) -> Seq<PageInfo> {
        self.pages@
    }

    /// Boot layout: `NUM_PAGES` pages, the first `KERNEL_PAGES` owned by the kernel, the rest free.
    pub fn new() -> (m: Self)
        ensures
            m@.len() == NUM_PAGES,
            forall|i: int| 0 <= i < KERNEL_PAGES ==> (#[trigger] m@[i]).owner == PageOwner::Kernel,
            forall|i: int| KERNEL_PAGES <= i < NUM_PAGES ==> (#[trigger] m@[i]).owner == PageOwner::Free,
    {
        let mut pages: Vec<PageInfo> = Vec::new();
        let mut i: usize = 0;
        while i < NUM_PAGES
            invariant
                i <= NUM_PAGES,
                pages@.len() == i,
                forall|j: int| 0 <= j < i && j < KERNEL_PAGES ==> (#[trigger] pages@[j]).owner == PageOwner::Kernel,
                forall|j: int| KERNEL_PAGES <= j < i ==> (#[trigger] pages@[j]).owner == PageOwner::Free,
            decreases NUM_PAGES - i,
        {
            if i < KERNEL_PAGES {
                pages.push(PageInfo { owner: PageOwner::Kernel });
            } else {
                pages.push(PageInfo { owner: PageOwner::Free });
            }
            i = i + 1;
        }
        MemoryManager { pages }
    }

    /// First-fit allocation of `count` contiguous free pages for `owner`.
    /// Returns the first page of the lowest free run of that length, or `None`
    /// (also for `count == 0`), in which case nothing changes.
    pub fn allocate_pages(&mut self, owner: PageOwner, count: usize) -> (r: Option<usize>)
        ensures
            match r {
                Some(s) => {
                    &&& first_fit(old(self)@, count as int) == Some(s as int)
                    &&& run_is_free(old(self)@, s as int, count as int)
                    &&& final(self)@ == assign_range(old(self)@, s as int, s + count, owner)
                },
                None => first_fit(old(self)@, count as int) is None && final(self)@ == old(self)@,
            },
    {
        let len = self.pages.len();
        let mut i: usize = 0;
        let mut run: usize = 0;
        let mut found = false;
        while i < len && !found
            invariant
                len == self.pages@.len(),
                self.pages@ == old(self)@,
                i <= len,
                run <= i,
                found ==> count > 0 && run == count,
                !found ==> (count > 0 ==> run < count),
                forall|j: int| i - run <= j < i ==> (#[trigger] self.pages@[j]).owner == PageOwner::Free,
                run < i ==> self.pages@[i - run - 1].owner != PageOwner::Free,
                count > 0 ==> forall|t: int| 0 <= t < i - run ==> !run_is_free(self.pages@, t, count as int),
            decreases len - i,
        {
            let ghost old_run = run;
            if self.pages[i].owner == PageOwner::Free {
                run = run + 1;
                if run == count {
                    found = true;
                }
            } else {
                run = 0;
                proof {
                    if count > 0 {
                        assert forall|t: int| 0 <= t < i + 1 implies !run_is_free(self.pages@, t, count as int) by {
                            if t >= i - old_run && t + count <= len {
                                assert(t <= i < t + count);
                            }
                        }
                    }
                }
            }
            i = i + 1;
        }
        if found {
            let s = i - count;
            proof {
                lemma_first_fit_unique(self.pages@, count as int, s as int);
            }
            let mut k: usize = s;
            while k < i
                invariant
                    s <= k <= i,
                    i == s + count,
                    i <= len,
                    len == old(self)@.len(),
                    self.pages@ == assign_range(old(self)@, s as int, k as int, owner),
                decreases i - k,
            {
                self.pages.set(k, PageInfo { owner });
                proof {
                    assert(self.pages@ =~= assign_range(old(self)@, s as int, k + 1, owner));
                }
                k = k + 1;
            }
            Some(s)
        } else {
            proof {
                reveal(first_fit);
                if count > 0 {
                    assert forall|t: int| !run_is_free(self.pages@, t, count as int) by {
                        if 0 <= t && t >= len - run && t + count <= len {
                        }
                    }
                }
            }
            None
        }
    }

    /// Frees the pages `start .. min(start + count, len)`; other pages keep their owner.
    pub fn free_pages(&mut self, start: usize, count: usize)
        requires
            start + count <= usize::MAX,
        ensures
            final(self)@ == assign_range(
                old(self)@,
                start as int,
                if start + count <= old(self)@.len() { start + count } else { old(self)@.len() as int },
                PageOwner::Free,
            ),
    {
        let len = self.pages.len();
        let end = if start + count <= len { start + count } else { len };
        if start >= end {
            proof {
                assert(self.pages@ =~= assign_range(old(self)@, start as int, end as int, PageOwner::Free));
            }
            return;
        }
        let mut k: usize = start;
        proof {
            assert(self.pages@ =~= assign_range(old(self)@, start as int, start as int, PageOwner::Free));
        }
        while k < end
            invariant
                start <= k <= end,
                end <= len,
                len == old(self)@.len(),
                self.pages@ == assign_range(old(self)@, start as int, k as int, PageOwner::Free),
            decreases end - k,
        {
            self.pages.set(k, PageInfo { owner: PageOwner::Free });
            proof {
                assert(self.pages@ =~= assign_range(old(self)@, start as int, k + 1, PageOwner::Free));
            }
            k = k + 1;
        }
    }

    /// Returns every page owned by process `pid` to the free pool.
    pub fn free_process_pages(&mut self, pid: u32)
        ensures
            final(self)@ == release_owner(old(self)@, pid),
            forall|i: int| 0 <= i < final(self)@.len() ==> (#[trigger] final(self)@[i]).owner != PageOwner::Process(pid),
    {
        let len = self.pages.len();
        let mut k: usize = 0;
        while k < len
            invariant
                k <= len,
                len == old(self)@.len(),
                self.pages@.len() == len,
                forall|j: int| 0 <= j < k ==> #[trigger] self.pages@[j] == release_owner(old(self)@, pid)[j],
                forall|j: int| k <= j < len ==> #[trigger] self.pages@[j] == old(self)@[j],
            decreases len - k,
        {
            if self.pages[k].owner == PageOwner::Process(pid) {
                self.pages.set(k, PageInfo { owner: PageOwner::Free });
            }
            k = k + 1;
        }
        proof {
            assert(self.pages@ =~= release_owner(old(self)@, pid));
        }
    }

    /// Counts the pages of each owner kind.
    pub fn get_stats(&self) -> (st: MemStats)
        ensures
            st.total == self@.len(),
            st.free == count_kind(self@, 0),
            st.used_kernel == count_kind(self@, 1),
            st.used_process == count_kind(self@, 2),
            st.reserved == count_kind(self@, 3),
            st.free + st.used_kernel + st.used_process + st.reserved == st.total,
    {
        let len = self.pages.len();
        let mut used_kernel: usize = 0;
        let mut used_process: usize = 0;
        let mut free: usize = 0;
        let mut reserved: usize = 0;
        let mut k: usize = 0;
        while k < len
            invariant
                k <= len,
                len == self@.len(),
                free == count_kind(self@.take(k as int), 0),
                used_kernel == count_kind(self@.take(k as int), 1),
                used_process == count_kind(self@.take(k as int), 2),
                reserved == count_kind(self@.take(k as int), 3),
            decreases len - k,
        {
            proof {
                let t = self@.take(k + 1);
                assert(t.drop_last() =~= self@.take(k as int));
                lemma_count_kinds_total(self@.take(k as int));
            }
            match self.pages[k].owner {
                PageOwner::Free => free = free + 1,
                PageOwner::Kernel => used_kernel = used_kernel + 1,
                PageOwner::Process(_) => used_process = used_process + 1,
                PageOwner::Reserved => reserved = reserved + 1,
            }
            k = k + 1;
        }
        proof {
            assert(self@.take(len as int) =~= self@);
            lemma_count_kinds_total(self@);
        }
        MemStats { total: len, used_kernel, used_process, free, reserved }
    }
}

/// Freeing what an allocation handed out restores the page table: when `start .. start +
/// count` was free, giving it to `owner` and then freeing it gives back the same pages.
pub proof fn law_free_undoes_allocate(pages: Seq<PageInfo>, start: int, count: int, owner: PageOwner)
    requires
        run_is_free(pages, start, count),
    ensures
        assign_range(assign_range(pages, start, start + count, owner), start, start + count, PageOwner::Free) == pages,
{
    assert(assign_range(assign_range(pages, start, start + count, owner), start, start + count, PageOwner::Free) =~= pages);
}

/// Counting over joined page lists adds up.
proof fn lemma_count_kind_concat(x: Seq<PageInfo>, y: Seq<PageInfo>, k: int)
    ensures
        count_kind(x + y, k) == count_kind(x, k) + count_kind(y, k),
    decreases y.len(),
{
    if y.len() == 0 {
        assert(x + y =~= x);
    } else {
        lemma_count_kind_concat(x, y.drop_last(), k);
        assert((x + y).drop_last() =~= x + y.drop_last());
        assert((x + y).last() == y.last());
    }
}

/// A run of pages with one owner counts wholly under that owner's kind.
proof fn lemma_count_kind_uniform(run: Seq<PageInfo>, o: PageOwner, k: int)
    requires
        forall|i: int| 0 <= i < run.len() ==> (#[trigger] run[i]).owner == o,
    ensures
        count_kind(run, k) == if owner_kind(o) == k { run.len() } else { 0 },
    decreases run.len(),
{
    if run.len() > 0 {
        assert forall|i: int| 0 <= i < run.drop_last().len() implies (#[trigger] run.drop_last()[i]).owner == o by {
            assert(run.drop_last()[i] == run[i]);
        }
        lemma_count_kind_uniform(run.drop_last(), o, k);
        assert(run.last() == run[run.len() - 1]);
    }
}

/// How the count of one kind changes when a free run is given to `owner`.
proof fn lemma_assign_free_run_count(pages: Seq<PageInfo>, start: int, count: int, owner: PageOwner, k: int)
    requires
        run_is_free(pages, start, count),
        count >= 0,
    ensures
        count_kind(assign_range(pages, start, start + count, owner), k) == count_kind(pages, k)
            - (if k == 0 { count } else { 0 }) + (if owner_kind(owner) == k { count } else { 0 }),
{
    let e = start + count;
    let n = pages.len() as int;
    let p2 = assign_range(pages, start, e, owner);
    let pre = pages.subrange(0, start);
    let mid = pages.subrange(start, e);
    let post = pages.subrange(e, n);
    let mid2 = p2.subrange(start, e);
    assert(pages =~= pre + mid + post);
    assert(p2.subrange(0, start) =~= pre);
    assert(p2.subrange(e, n) =~= post);
    assert(p2 =~= pre + mid2 + post);
    lemma_count_kind_concat(pre + mid, post, k);
    lemma_count_kind_concat(pre, mid, k);
    lemma_count_kind_concat(pre + mid2, post, k);
    lemma_count_kind_concat(pre, mid2, k);
    assert forall|i: int| 0 <= i < mid.len() implies (#[trigger] mid[i]).owner == PageOwner::Free by {
        assert(mid[i] == pages[start + i]);
    }
    lemma_count_kind_uniform(mid, PageOwner::Free, k);
    lemma_count_kind_uniform(mid2, owner, k);
}

/// Memory is conserved: giving a free run of `count` pages to a process moves `count` pages
/// from the free count to the process count, and the kernel and reserved counts stay.
pub proof fn law_allocate_moves_free_pages(pages: Seq<PageInfo>, start: int, count: int, pid: u32)
    requires
        run_is_free(pages, start, count),
        count >= 0,
    ensures
        ({
            let p2 = assign_range(pages, start, start + count, PageOwner::Process(pid));
            &&& count_kind(p2, 0) == count_kind(pages, 0) - count
            &&& count_kind(p2, 1) == count_kind(pages, 1)
            &&& count_kind(p2, 2) == count_kind(pages, 2) + count
            &&& count_kind(p2, 3) == count_kind(pages, 3)
        }),
{
    lemma_assign_free_run_count(pages, start, count, PageOwner::Process(pid), 0);
    lemma_assign_free_run_count(pages, start, count, PageOwner::Process(pid), 1);
    lemma_assign_free_run_count(pages, start, count, PageOwner::Process(pid), 2);
    lemma_assign_free_run_count(pages, start, count, PageOwner::Process(pid), 3);
}

} // verus!
