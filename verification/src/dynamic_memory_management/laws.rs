//! What holds of every heap, stated over the values that the contracts of
//! the heap speak of.

use crate::bits::{lemma_address_indices, lemma_or_zero};
use crate::dynamic_memory_management::allocator::{
    free_spec,
    grow_spec,
    malloc_spec,
    release_spec,
    sbrk_spec,
    shrink_spec,
    HeapView,
    HEADER_SIZE,
};
use crate::dynamic_memory_management::brk::{grow_page_spec, heap_flags, shrink_page_spec};
use crate::physical_memory_management::{
    lemma_lowest_free,
    lemma_page_aligned,
    lowest_free,
    page_aligned,
};
use crate::virtual_memory_management::page_structs::{
    lemma_map_translate,
    lemma_map_wf,
    lemma_unmap_keeps_others,
    lemma_unmap_translate,
    DirectoryView,
    TABLES_BASE,
};
use vstd::prelude::*;

verus! {

/// Two different chunks that are handed out share no byte, and both lie
/// inside the heap.
pub proof fn lemma_allocations_disjoint(heap: HeapView, a: u32, b: u32)
    requires
        heap.wf(),
        heap.is_allocated(a),
        heap.is_allocated(b),
        a != b,
    ensures
        a + heap.sizes[a] <= b || b + heap.sizes[b] <= a,
        heap.start <= a && a + heap.sizes[a] <= heap.brk,
        heap.start <= b && b + heap.sizes[b] <= heap.brk,
{
}

/// Where nothing is handed out, the free list of a heap that is not empty
/// is one chunk that covers the whole heap.
pub proof fn lemma_all_free_is_one_chunk(heap: HeapView)
    requires
        heap.wf(),
        heap.start < heap.brk,
        forall|chunk: u32| !heap.is_allocated(chunk),
    ensures
        heap.free =~= seq![heap.start],
        heap.sizes[heap.start] == heap.brk - heap.start,
        heap.head == Some(heap.start),
{
    let start = heap.start;
    assert(heap.sizes.contains_key(start));
    assert(!heap.is_allocated(start));
    let i = choose|i: int| 0 <= i < heap.free.len() && heap.free[i] == start;
    if i > 0 {
        assert(heap.sizes.contains_key(heap.free[0]));
        assert(heap.free[0] < heap.free[i]);
    }
    assert(heap.free[0] == start);
    assert(heap.continues(start));
    let end = (start + heap.sizes[start]) as u32;
    if start + heap.sizes[start] != heap.brk {
        assert(heap.sizes.contains_key(end));
        assert(!heap.is_allocated(end));
        let j = choose|j: int| 0 <= j < heap.free.len() && heap.free[j] == end;
        assert(j >= 1);
        assert(heap.sizes.contains_key(heap.free[1]));
        if j > 1 {
            assert(heap.free[1] < heap.free[j]);
        }
        assert(heap.apart(0));
        assert(false);
    }
    if heap.free.len() > 1 {
        assert(heap.sizes.contains_key(heap.free[1]));
        assert(heap.free[0] < heap.free[1]);
        assert(false);
    }
    match heap.head {
        Some(h) => {
            let k = choose|k: int| 0 <= k < heap.free.len() && heap.free[k] == h;
            assert(k == 0);
        },
        None => {},
    }
}

/// Growing moves the end of the heap up by whole pages, keeps it below the
/// addresses reserved for the page tables, and keeps the directory well
/// formed; if it succeeds, the end has moved by all the pages asked for.
pub proof fn lemma_grow_spec(
    dir: DirectoryView,
    used: Set<int>,
    brk: u32,
    pages: nat,
    supervisor: bool,
)
    requires
        dir.wf(),
        page_aligned(brk),
        brk <= TABLES_BASE,
    ensures
        grow_spec(dir, used, brk, pages, supervisor).0.wf(),
        brk <= grow_spec(dir, used, brk, pages, supervisor).2 <= TABLES_BASE,
        page_aligned(grow_spec(dir, used, brk, pages, supervisor).2),
        grow_spec(dir, used, brk, pages, supervisor).3 ==> grow_spec(
            dir,
            used,
            brk,
            pages,
            supervisor,
        ).2 == brk + 4096 * pages,
    decreases pages,
{
    if pages > 0 {
        let step = grow_page_spec(dir, used, brk, supervisor);
        if step.2 {
            lemma_page_aligned(brk);
            lemma_page_aligned((brk + 4096) as u32);
            if dir.paging_enabled {
                let frame = lowest_free(used, 0);
                lemma_map_wf(
                    dir,
                    used.insert(frame),
                    (frame * 4096) as u32,
                    brk,
                    heap_flags(supervisor),
                );
            }
            lemma_grow_spec(step.0, step.1, (brk + 4096) as u32, (pages - 1) as nat, supervisor);
        }
    }
}

/// What a request that finds a free chunk does to the chunks handed out.
proof fn lemma_malloc_found(heap: HeapView, required: u32, other: u32)
    requires
        heap.wf(),
        heap.is_allocated(other),
        required >= HEADER_SIZE,
        heap.first_fit(required) is Some,
    ensures
        ({
            let fit = heap.first_fit(required)->0;
            let after = heap.taken(fit, required);
            &&& after.wf()
            &&& after.is_allocated(other)
            &&& after.sizes[other] == heap.sizes[other]
            &&& fit != other
            &&& !heap.is_allocated(fit)
            &&& after.is_allocated(fit)
            &&& after.sizes[fit] >= required
        }),
{
    let fit = heap.first_fit(required)->0;
    lemma_first_fit(heap, required);
    heap.lemma_taken_wf(fit, required);
}

/// What a request that grows the heap does to the chunks handed out.
proof fn lemma_malloc_grown(heap: HeapView, brk: u32, required: u32, other: u32)
    requires
        heap.wf(),
        heap.is_allocated(other),
        required >= HEADER_SIZE,
        heap.brk < brk <= TABLES_BASE,
        page_aligned(brk),
        brk - heap.brk >= HEADER_SIZE,
    ensures
        heap.grown(brk).wf(),
        heap.grown(brk).is_allocated(other),
        heap.grown(brk).sizes[other] == heap.sizes[other],
        brk - heap.brk >= required ==> ({
            let more = heap.grown(brk);
            let fit = more.head->0;
            let after = more.taken(fit, required);
            &&& after.wf()
            &&& after.is_allocated(other)
            &&& after.sizes[other] == heap.sizes[other]
            &&& fit != other
            &&& !heap.is_allocated(fit)
            &&& after.is_allocated(fit)
            &&& after.sizes[fit] >= required
        }),
{
    heap.lemma_grown_wf(brk);
    let more = heap.grown(brk);
    if brk - heap.brk >= required {
        let fit = more.head->0;
        more.lemma_taken_wf(fit, required);
        if heap.is_allocated(fit) {
            assert(more.is_allocated(fit));
        }
    }
}

/// A request that is served hands out a chunk that was not handed out
/// before, with room for the bytes asked for, and leaves every chunk that
/// was handed out before as it was; a request that fails does so too.
pub proof fn lemma_malloc_keeps_allocations(
    heap: HeapView,
    dir: DirectoryView,
    used: Set<int>,
    size: u32,
    other: u32,
)
    requires
        heap.wf(),
        dir.wf(),
        heap.is_allocated(other),
    ensures
        malloc_spec(heap, dir, used, size).0.wf(),
        malloc_spec(heap, dir, used, size).0.is_allocated(other),
        malloc_spec(heap, dir, used, size).0.sizes[other] == heap.sizes[other],
        malloc_spec(heap, dir, used, size).3 matches Ok(address) ==> {
            let chunk = (address - HEADER_SIZE) as u32;
            &&& address >= HEADER_SIZE
            &&& chunk != other
            &&& !heap.is_allocated(chunk)
            &&& malloc_spec(heap, dir, used, size).0.is_allocated(chunk)
            &&& malloc_spec(heap, dir, used, size).0.sizes[chunk] >= size + HEADER_SIZE
        },
{
    if size + HEADER_SIZE <= u32::MAX {
        let required = (size + HEADER_SIZE) as u32;
        if heap.first_fit(required) is Some {
            lemma_malloc_found(heap, required, other);
        } else {
            let pages = crate::dynamic_memory_management::allocator::pages_for(required as int);
            let moved = grow_spec(dir, used, heap.brk, pages, heap.is_supervisor);
            assert(moved == sbrk_spec(
                dir,
                used,
                heap.start,
                heap.brk,
                required as int,
                heap.is_supervisor,
            ));
            lemma_grow_spec(dir, used, heap.brk, pages, heap.is_supervisor);
            if moved.2 > heap.brk {
                lemma_page_aligned(heap.brk);
                lemma_page_aligned(moved.2);
                assert(moved.2 - heap.brk >= 4096);
                if moved.3 {
                    assert(4096 * pages >= required);
                }
                lemma_malloc_grown(heap, moved.2, required, other);
            }
        }
    }
}

/// The chunk that a search finds is free and large enough.
pub proof fn lemma_first_fit(heap: HeapView, required: u32)
    requires
        heap.wf(),
    ensures
        heap.first_fit(required) matches Some(fit) ==> heap.free.contains(fit)
            && heap.sizes[fit] >= required,
{
    match heap.head {
        Some(h) => {
            heap.lemma_rank_splits(h);
            lemma_fit_from(heap, required, heap.rank(h), heap.free.len());
        },
        None => {},
    }
}

/// The chunk that a search finds from an index on is free and large enough.
pub proof fn lemma_fit_from(heap: HeapView, required: u32, from: int, steps: nat)
    requires
        0 <= from < heap.free.len(),
    ensures
        heap.fit_from(required, from, steps) matches Some(fit) ==> heap.free.contains(fit)
            && heap.sizes[fit] >= required,
    decreases steps,
{
    if steps > 0 && heap.sizes[heap.free[from]] < required {
        lemma_fit_from(
            heap,
            required,
            crate::dynamic_memory_management::allocator::succ(from, heap.free.len() as int),
            (steps - 1) as nat,
        );
    }
}

/// Releasing the last page keeps a heap well formed and touches no chunk
/// that is handed out.
pub proof fn lemma_release_wf(heap: HeapView, dir: DirectoryView, used: Set<int>)
    requires
        heap.wf(),
    ensures
        release_spec(heap, dir, used).0.wf(),
        forall|other: u32|
            heap.is_allocated(other) ==> release_spec(heap, dir, used).0.is_allocated(other)
                && release_spec(heap, dir, used).0.sizes[other] == heap.sizes[other],
{
    let after = release_spec(heap, dir, used).0;
    if after != heap {
        let node = heap.head->0;
        lemma_page_aligned(heap.brk);
        lemma_page_aligned(after.brk);
        assert forall|a: u32| #[trigger] after.continues(a) by {
            assert(heap.continues(a));
        }
        assert forall|j: int| 0 <= j < after.free.len() - 1 implies #[trigger] after.apart(j) by {
            assert(heap.apart(j));
            heap.lemma_rank_splits(node);
            if heap.free[j] == node {
                assert(heap.sizes.contains_key(heap.free[j + 1]));
                assert(heap.free[j] < heap.free[j + 1]);
            }
        }
    }
}

/// Giving a chunk back leaves every other chunk that is handed out as it
/// was, and the chunk itself is no longer handed out.
pub proof fn lemma_free_keeps_allocations(
    heap: HeapView,
    dir: DirectoryView,
    used: Set<int>,
    address: u32,
    other: u32,
)
    requires
        heap.wf(),
        address >= HEADER_SIZE,
        heap.is_allocated((address - HEADER_SIZE) as u32),
        heap.is_allocated(other),
        other != address - HEADER_SIZE,
    ensures
        free_spec(heap, dir, used, address).0.wf(),
        free_spec(heap, dir, used, address).0.is_allocated(other),
        free_spec(heap, dir, used, address).0.sizes[other] == heap.sizes[other],
        !free_spec(heap, dir, used, address).0.is_allocated((address - HEADER_SIZE) as u32),
{
    let chunk = (address - HEADER_SIZE) as u32;
    heap.lemma_inserted_wf(chunk);
    let back = heap.inserted(chunk);
    lemma_release_wf(back, dir, used);
    let after = release_spec(back, dir, used).0;
    if after.is_allocated(chunk) {
        assert(after.free == back.free);
        assert(back.sizes.contains_key(chunk) || after.sizes.contains_key(chunk));
    }
}

/// A page that was added to a heap can be released again, and then the
/// frames in use are those in use before, but for the frame of a page table
/// that the page may have needed; the page is not mapped afterwards.
pub proof fn lemma_grow_then_shrink(dir: DirectoryView, used: Set<int>, brk: u32, supervisor: bool)
    requires
        dir.wf(),
        page_aligned(brk),
        grow_page_spec(dir, used, brk, supervisor).2,
    ensures
        ({
            let grown = grow_page_spec(dir, used, brk, supervisor);
            let shrunk = shrink_page_spec(grown.0, grown.1, brk);
            &&& shrunk.2
            &&& !dir.paging_enabled ==> shrunk.1 =~= used && shrunk.0 == dir
            &&& dir.paging_enabled ==> !shrunk.0.is_mapped(brk) && (shrunk.1 =~= used
                || shrunk.1 =~= used.insert(
                lowest_free(used.insert(lowest_free(used, 0)), 0),
            ))
        }),
{
    let grown = grow_page_spec(dir, used, brk, supervisor);
    if dir.paging_enabled {
        let frame = lowest_free(used, 0);
        lemma_lowest_free(used, 0);
        let phys = (frame * 4096) as u32;
        lemma_page_aligned(phys);
        crate::bits::lemma_page_flags();
        lemma_map_wf(dir, used.insert(frame), phys, brk, heap_flags(supervisor));
        lemma_map_translate(dir, used.insert(frame), phys, brk, heap_flags(supervisor), 0);
        lemma_or_zero(phys);
        lemma_or_zero(brk);
        lemma_address_indices(brk);
        crate::bits::lemma_entry_fields(phys, heap_flags(supervisor));
        lemma_lowest_free(used.insert(frame), 0);
        lemma_unmap_translate(grown.0, grown.1, brk);
    }
}

/// Releasing pages moves the end of the heap down by whole pages and keeps
/// the directory well formed; if it succeeds, every page that was released
/// is unmapped, and the frame that backed it is available again.
pub proof fn lemma_shrink_releases(
    dir: DirectoryView,
    used: Set<int>,
    start: u32,
    brk: u32,
    pages: nat,
    page: u32,
)
    requires
        dir.wf(),
        page_aligned(brk),
        page_aligned(page),
        brk <= TABLES_BASE,
        shrink_spec(dir, used, start, brk, pages).3,
        brk - 4096 * pages <= page < brk,
    ensures
        shrink_spec(dir, used, start, brk, pages).0.wf(),
        shrink_spec(dir, used, start, brk, pages).2 == brk - 4096 * pages,
        shrink_spec(dir, used, start, brk, pages).2 >= start,
        forall|frame: int|
            shrink_spec(dir, used, start, brk, pages).1.contains(frame) ==> used.contains(frame),
        dir.paging_enabled ==> dir.is_mapped(page) && !shrink_spec(
            dir,
            used,
            start,
            brk,
            pages,
        ).0.is_mapped(page) && !shrink_spec(dir, used, start, brk, pages).1.contains(
            dir.page_entry(page).frame_address() as int / 4096,
        ),
        !dir.paging_enabled ==> used.contains(page as int / 4096) && !shrink_spec(
            dir,
            used,
            start,
            brk,
            pages,
        ).1.contains(page as int / 4096),
    decreases pages,
{
    if pages > 0 {
        let last = (brk - 4096) as u32;
        let step = shrink_page_spec(dir, used, last);
        lemma_page_aligned(brk);
        lemma_page_aligned(last);
        lemma_page_aligned(page);
        lemma_address_indices(last);
        assert(shrink_spec(dir, used, start, brk, pages) == shrink_spec(
            step.0,
            step.1,
            start,
            last,
            (pages - 1) as nat,
        ));
        if dir.paging_enabled {
            lemma_unmap_translate(dir, used, last);
        }
        lemma_shrink_rest(step.0, step.1, start, last, (pages - 1) as nat);
        if page < last {
            lemma_shrink_releases(step.0, step.1, start, last, (pages - 1) as nat, page);
            if !dir.paging_enabled {
                assert(step.1.contains(page as int / 4096));
                assert(used.contains(page as int / 4096));
            }
            if dir.paging_enabled {
                lemma_page_aligned(page);
                lemma_address_indices(page);
                crate::bits::lemma_page_of(page);
                lemma_or_zero(page);
                assert(page & 0xFFFF_F000 == page) by {
                    crate::bits::lemma_page_of(page);
                    assert(page & 0xFFF == 0);
                    lemma_or_zero(page & 0xFFFF_F000);
                }
                lemma_unmap_keeps_others(dir, used, last, page);
                crate::bits::lemma_distinct_pages(last, page);
            }
        } else {
            assert(page == last);
            let rest = shrink_spec(step.0, step.1, start, last, (pages - 1) as nat);
            if dir.paging_enabled {
                lemma_shrink_keeps_unmapped(step.0, step.1, start, last, (pages - 1) as nat, page);
            } else {
                assert(step.2);
                assert(used.contains(last as int / 4096));
                assert(step.1 == used.remove(last as int / 4096));
                assert(!step.1.contains(page as int / 4096));
                assert(!rest.1.contains(page as int / 4096));
            }
        }
    }
}

/// Releasing pages only ever gives frames back, moves the end of the heap
/// down by whole pages, and keeps the directory well formed.
pub proof fn lemma_shrink_rest(dir: DirectoryView, used: Set<int>, start: u32, brk: u32, pages: nat)
    requires
        dir.wf(),
        page_aligned(brk),
        start <= brk <= TABLES_BASE,
    ensures
        shrink_spec(dir, used, start, brk, pages).0.wf(),
        forall|frame: int|
            shrink_spec(dir, used, start, brk, pages).1.contains(frame) ==> used.contains(frame),
        shrink_spec(dir, used, start, brk, pages).3 ==> shrink_spec(
            dir,
            used,
            start,
            brk,
            pages,
        ).2 == brk - 4096 * pages && brk - 4096 * pages >= start,
    decreases pages,
{
    if pages > 0 {
        let last = (brk - 4096) as u32;
        let step = shrink_page_spec(dir, used, last);
        if !(brk < start + 4096 || !step.2) {
            lemma_page_aligned(brk);
            lemma_page_aligned(last);
            lemma_address_indices(last);
            if dir.paging_enabled {
                lemma_unmap_translate(dir, used, last);
            }
            lemma_shrink_rest(step.0, step.1, start, last, (pages - 1) as nat);
            let rest = shrink_spec(step.0, step.1, start, last, (pages - 1) as nat);
            assert(shrink_spec(dir, used, start, brk, pages) == rest);
            if rest.3 {
                assert(rest.2 == last - 4096 * (pages - 1));
                assert(last - 4096 * (pages - 1) == brk - 4096 * pages);
            }
        }
    }
}

/// A page above the end of the heap that is not mapped stays unmapped while
/// pages below it are released.
pub proof fn lemma_shrink_keeps_unmapped(
    dir: DirectoryView,
    used: Set<int>,
    start: u32,
    brk: u32,
    pages: nat,
    page: u32,
)
    requires
        dir.wf(),
        page_aligned(brk),
        page_aligned(page),
        brk <= page < TABLES_BASE,
        !dir.is_mapped(page),
    ensures
        !shrink_spec(dir, used, start, brk, pages).0.is_mapped(page),
    decreases pages,
{
    if pages > 0 {
        let last = (brk - 4096) as u32;
        let step = shrink_page_spec(dir, used, last);
        if !(brk < start + 4096 || !step.2) {
            lemma_page_aligned(brk);
            lemma_page_aligned(last);
            lemma_address_indices(last);
            if dir.paging_enabled {
                lemma_unmap_translate(dir, used, last);
                crate::bits::lemma_page_of(page);
                lemma_or_zero(page & 0xFFFF_F000);
                lemma_unmap_keeps_others(dir, used, last, page);
            }
            lemma_shrink_keeps_unmapped(step.0, step.1, start, last, (pages - 1) as nat, page);
        }
    }
}

} // verus!
