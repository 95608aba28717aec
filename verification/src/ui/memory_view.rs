use vstd::prelude::*;
use crate::kernel::memory::{MemoryManager, PageOwner, NUM_PAGES, count_kind};

verus! {

/// Pages per row of the memory map.
pub const MAP_WIDTH: usize = 16;

/// The sizes the memory legend shows, in KB (4 KB per page).
pub struct MemoryLegend {
    pub free_kb: usize,
    pub kernel_kb: usize,
    pub process_kb: usize,
    pub reserved_kb: usize,
    pub total_kb: usize,
    pub used_kb: usize,
}

/// The owners of the first 256 pages laid out as a 16 × 16 map, row by row.
pub fn memory_map(memory: &MemoryManager) -> (rows: Vec<Vec<PageOwner>>)
    requires
        memory@.len() >= NUM_PAGES,
    ensures
        rows@.len() == MAP_WIDTH,
        forall|r: int| 0 <= r < MAP_WIDTH ==> (#[trigger] rows@[r])@.len() == MAP_WIDTH,
        forall|r: int, c: int|
            0 <= r < MAP_WIDTH && 0 <= c < MAP_WIDTH ==> #[trigger] rows@[r]@[c] == memory@[r * 16 + c].owner,
{
    let mut rows: Vec<Vec<PageOwner>> = Vec::new();
    let mut r: usize = 0;
    while r < MAP_WIDTH
        invariant
            r <= MAP_WIDTH,
            memory@.len() >= NUM_PAGES,
            rows@.len() == r,
            forall|i: int| 0 <= i < r ==> (#[trigger] rows@[i])@.len() == MAP_WIDTH,
            forall|i: int, c: int|
                0 <= i < r && 0 <= c < MAP_WIDTH ==> #[trigger] rows@[i]@[c] == memory@[i * 16 + c].owner,
        decreases MAP_WIDTH - r,
    {
        let mut row: Vec<PageOwner> = Vec::new();
        let mut c: usize = 0;
        while c < MAP_WIDTH
            invariant
                c <= MAP_WIDTH,
                r < MAP_WIDTH,
                memory@.len() >= NUM_PAGES,
                row@.len() == c,
                forall|j: int| 0 <= j < c ==> row@[j] == memory@[r * 16 + j].owner,
            decreases MAP_WIDTH - c,
        {
            assert(r * 16 + c < 256) by (nonlinear_arith)
                requires
                    r < 16,
                    c < 16,
            ;
            row.push(memory.pages[r * 16 + c].owner);
            c = c + 1;
        }
        rows.push(row);
        r = r + 1;
    }
    rows
}

/// The legend's sizes: free, kernel, process and reserved pages, all pages, and the pages in
/// use (kernel and process), each times 4 KB (so the page count times 4 must fit).
pub fn memory_legend(memory: &MemoryManager) -> (l: MemoryLegend)
    requires
        memory@.len() * 4 <= usize::MAX,
    ensures
        l.free_kb == count_kind(memory@, 0) * 4,
        l.kernel_kb == count_kind(memory@, 1) * 4,
        l.process_kb == count_kind(memory@, 2) * 4,
        l.reserved_kb == count_kind(memory@, 3) * 4,
        l.total_kb == memory@.len() * 4,
        l.used_kb == (count_kind(memory@, 1) + count_kind(memory@, 2)) * 4,
{
    let st = memory.get_stats();
    MemoryLegend {
        free_kb: st.free * 4,
        kernel_kb: st.used_kernel * 4,
        process_kb: st.used_process * 4,
        reserved_kb: st.reserved * 4,
        total_kb: st.total * 4,
        used_kb: (st.used_kernel + st.used_process) * 4,
    }
}

} // verus!
