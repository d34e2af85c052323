//! The free-list heap.
//!
//! The heap owns the addresses from `start` up to `brk`. They are divided
//! into chunks, each beginning with a header; the free chunks form a circular
//! doubly-linked list, sorted by address, in which no two chunks touch.

use crate::dynamic_memory_management::brk::{
    grow_page,
    grow_page_spec,
    shrink_page,
    shrink_page_spec,
};
use crate::physical_memory_management::{
    lemma_page_aligned,
    page_aligned,
    FrameManager,
    PAGE_SIZE_4K,
};
use crate::virtual_memory_management::page_structs::{DirectoryView, PageDirectory, TABLES_BASE};
use std::collections::HashMap;
use vstd::prelude::*;

verus! {

broadcast use vstd::std_specs::hash::group_hash_axioms;

/// Size of a chunk header in bytes: three words of four bytes.
pub const HEADER_SIZE: u32 = 12;

/// The heap could not grow, or could not shrink.
#[derive(Debug, Copy, Clone, PartialEq, Eq, Structural)]
pub struct AllocError;

/// The header at the start of a chunk: the size of the chunk in bytes, header
/// included, and the addresses of its neighbours in the free list.
#[derive(Copy, Clone, PartialEq, Eq, Structural)]
pub struct Chunk {
    pub size: u32,
    pub prev: u32,
    pub next: u32,
}

/// Number of pages by which an increment of `increment` bytes moves the end
/// of the heap: its magnitude in pages, rounded up.
pub open spec fn pages_for(increment: int) -> nat {
    let magnitude = if increment < 0 {
        -increment
    } else {
        increment
    };
    (magnitude / 4096 + if magnitude % 4096 != 0 {
        1int
    } else {
        0int
    }) as nat
}

/// Growing by `pages` pages from `brk`, one page after the other, until a
/// page cannot be backed: the directory, the frames in use and the end of
/// the heap as they are then, and whether all pages were added.
pub open spec fn grow_spec(
    dir: DirectoryView,
    used: Set<int>,
    brk: u32,
    pages: nat,
    supervisor: bool,
) -> (DirectoryView, Set<int>, u32, bool)
    decreases pages,
{
    let step = grow_page_spec(dir, used, brk, supervisor);
    if pages == 0 {
        (dir, used, brk, true)
    } else if !step.2 {
        (dir, used, brk, false)
    } else {
        grow_spec(step.0, step.1, (brk + 4096) as u32, (pages - 1) as nat, supervisor)
    }
}

/// Shrinking by `pages` pages from `brk`, one page after the other, until
/// `start` is reached or a page cannot be released: the directory, the
/// frames in use and the end of the heap as they are then, and whether all
/// pages were released.
pub open spec fn shrink_spec(
    dir: DirectoryView,
    used: Set<int>,
    start: u32,
    brk: u32,
    pages: nat,
) -> (DirectoryView, Set<int>, u32, bool)
    decreases pages,
{
    let step = shrink_page_spec(dir, used, (brk - 4096) as u32);
    if pages == 0 {
        (dir, used, brk, true)
    } else if brk < start + 4096 || !step.2 {
        (dir, used, brk, false)
    } else {
        shrink_spec(step.0, step.1, start, (brk - 4096) as u32, (pages - 1) as nat)
    }
}

/// Moving the end of a heap by `increment` bytes, rounded up to pages.
pub open spec fn sbrk_spec(
    dir: DirectoryView,
    used: Set<int>,
    start: u32,
    brk: u32,
    increment: int,
    supervisor: bool,
) -> (DirectoryView, Set<int>, u32, bool) {
    if increment < 0 {
        shrink_spec(dir, used, start, brk, pages_for(increment))
    } else {
        grow_spec(dir, used, brk, pages_for(increment), supervisor)
    }
}

/// What a request for `size` bytes does to a heap, to the directory and to
/// the frames in use, and what it returns.
///
/// The first free chunk that holds `size` bytes and a header is handed out.
/// Where there is none, the heap grows by as many pages as the request
/// needs; the new range becomes a free chunk, also where not all of the
/// pages could be had, and the request is served from it if all could.
/// The address returned lies one header past the start of the chunk.
pub open spec fn malloc_spec(heap: HeapView, dir: DirectoryView, used: Set<int>, size: u32) -> (
    HeapView,
    DirectoryView,
    Set<int>,
    Result<u32, AllocError>,
) {
    let required = (size + HEADER_SIZE) as u32;
    let moved = sbrk_spec(
        dir,
        used,
        heap.start,
        heap.brk,
        required as int,
        heap.is_supervisor,
    );
    let more = if moved.2 > heap.brk {
        heap.grown(moved.2)
    } else {
        heap
    };
    if size + HEADER_SIZE > u32::MAX {
        (heap, dir, used, Err(AllocError))
    } else if heap.first_fit(required) is Some {
        (
            heap.taken(heap.first_fit(required)->0, required),
            dir,
            used,
            Ok((heap.first_fit(required)->0 + HEADER_SIZE) as u32),
        )
    } else if moved.3 {
        (
            more.taken(more.head->0, required),
            moved.0,
            moved.1,
            Ok((more.head->0 + HEADER_SIZE) as u32),
        )
    } else {
        (more, moved.0, moved.1, Err(AllocError))
    }
}

/// What giving back the bytes at `address` does to a heap, to the directory
/// and to the frames in use.
///
/// The chunk enters the free list. Then, where the chunk at the head of the
/// list ends where the heap ends, spans more than a page and keeps room for
/// its header without its last page, that page is released, if it can be.
pub open spec fn free_spec(heap: HeapView, dir: DirectoryView, used: Set<int>, address: u32) -> (
    HeapView,
    DirectoryView,
    Set<int>,
) {
    release_spec(heap.inserted((address - HEADER_SIZE) as u32), dir, used)
}

/// Releasing the last page of a heap whose head chunk ends where the heap
/// ends, spans more than a page and keeps room for its header without it.
pub open spec fn release_spec(heap: HeapView, dir: DirectoryView, used: Set<int>) -> (
    HeapView,
    DirectoryView,
    Set<int>,
) {
    let node = heap.head->0;
    let size = heap.sizes[node];
    let step = shrink_page_spec(dir, used, (heap.brk - 4096) as u32);
    if heap.head is Some && size > 4096 && node + size == heap.brk && size - 4096 >= HEADER_SIZE
        && step.2 {
        (
            HeapView {
                brk: (heap.brk - 4096) as u32,
                sizes: heap.sizes.insert(node, (size - 4096) as u32),
                ..heap
            },
            step.0,
            step.1,
        )
    } else {
        (heap, dir, used)
    }
}

/// Index of the chunk after `i` in a circular list of `n` chunks.
pub open spec fn succ(i: int, n: int) -> int {
    if i + 1 == n {
        0
    } else {
        i + 1
    }
}

/// Index of the chunk `steps` places after `first` in a circular list of `n`
/// chunks.
pub open spec fn cyc(first: int, steps: int, n: int) -> int {
    if first + steps < n {
        first + steps
    } else {
        first + steps - n
    }
}

/// Index of the chunk before `i` in a circular list of `n` chunks.
pub open spec fn pred(i: int, n: int) -> int {
    if i == 0 {
        n - 1
    } else {
        i - 1
    }
}

/// Whether the addresses in `order` grow strictly.
pub open spec fn ascending(order: Seq<u32>) -> bool {
    forall|i: int, j: int| 0 <= i < j < order.len() ==> order[i] < order[j]
}

/// Whether chunk `i` of `order` names its successor and its predecessor in
/// the circular list.
pub open spec fn link_ok(chunks: Map<u32, Chunk>, order: Seq<u32>, i: int) -> bool {
    &&& chunks.contains_key(order[i])
    &&& chunks[order[i]].next == order[succ(i, order.len() as int)]
    &&& chunks[order[i]].prev == order[pred(i, order.len() as int)]
}

/// Whether the chunks of `order` form a circular doubly-linked list in that
/// order.
pub open spec fn links(chunks: Map<u32, Chunk>, order: Seq<u32>) -> bool {
    forall|i: int| 0 <= i < order.len() ==> #[trigger] link_ok(chunks, order, i)
}

/// What a heap is: its range of addresses, the size of every chunk in it by
/// address, the addresses of the free chunks in ascending order, and the free
/// chunk at which a search starts.
pub struct HeapView {
    pub start: u32,
    pub brk: u32,
    pub head: Option<u32>,
    pub is_supervisor: bool,
    pub sizes: Map<u32, u32>,
    pub free: Seq<u32>,
}

impl HeapView {
    /// The range is page-aligned and ends below the addresses reserved for
    /// the page tables.
    pub open spec fn range_wf(self) -> bool {
        &&& page_aligned(self.start)
        &&& page_aligned(self.brk)
        &&& self.start <= self.brk <= TABLES_BASE
    }

    /// The chunks cover the range exactly: each holds at least its header,
    /// no two overlap, and each ends where another begins or where the heap
    /// ends.
    pub open spec fn tiled(self) -> bool {
        &&& forall|a: u32| #[trigger]
            self.sizes.contains_key(a) ==> self.start <= a && self.sizes[a] >= HEADER_SIZE && a
                + self.sizes[a] <= self.brk
        &&& forall|a: u32, b: u32|
            #[trigger] self.sizes.contains_key(a) && #[trigger] self.sizes.contains_key(b) && a
                < b ==> a + self.sizes[a] <= b
        &&& forall|a: u32| #[trigger] self.continues(a)
        &&& self.start < self.brk ==> self.sizes.contains_key(self.start)
    }

    /// Whether the chunk at `a`, if there is one, ends where another chunk
    /// begins or where the heap ends.
    pub open spec fn continues(self, a: u32) -> bool {
        self.sizes.contains_key(a) ==> a + self.sizes[a] == self.brk || self.sizes.contains_key(
            (a + self.sizes[a]) as u32,
        )
    }

    /// The free chunks are chunks of the heap, in ascending order.
    pub open spec fn sorted(self) -> bool {
        &&& forall|i: int|
            0 <= i < self.free.len() ==> self.sizes.contains_key(#[trigger] self.free[i])
        &&& ascending(self.free)
    }

    /// Whether free chunk `i` ends before the next free chunk begins.
    pub open spec fn apart(self, i: int) -> bool {
        self.free[i] + self.sizes[self.free[i]] != self.free[i + 1]
    }

    /// No free chunk ends where the next free chunk begins.
    pub open spec fn separated(self) -> bool {
        forall|i: int| 0 <= i < self.free.len() - 1 ==> #[trigger] self.apart(i)
    }

    /// The search starts at a free chunk, if there is one.
    pub open spec fn head_wf(self) -> bool {
        match self.head {
            None => self.free.len() == 0,
            Some(h) => self.free.contains(h),
        }
    }

    pub open spec fn wf(self) -> bool {
        &&& self.range_wf()
        &&& self.tiled()
        &&& self.sorted()
        &&& self.separated()
        &&& self.head_wf()
    }

    /// Whether `chunk` is a chunk of the heap that is handed out.
    pub open spec fn is_allocated(self, chunk: u32) -> bool {
        self.sizes.contains_key(chunk) && !self.free.contains(chunk)
    }

    /// Whether exactly the first `p` free chunks lie below `chunk`.
    pub open spec fn splits_at(self, chunk: u32, p: int) -> bool {
        &&& 0 <= p <= self.free.len()
        &&& forall|i: int| 0 <= i < p ==> #[trigger] self.free[i] < chunk
        &&& forall|i: int| p <= i < self.free.len() ==> #[trigger] self.free[i] >= chunk
    }

    /// Number of free chunks that lie below `chunk`: the index of `chunk` in
    /// the free list if it is free, and the index at which it would be
    /// inserted if it is not.
    pub open spec fn rank(self, chunk: u32) -> int {
        choose|p: int| self.splits_at(chunk, p)
    }

    /// The first chunk of at least `required` bytes among the `steps` free
    /// chunks that follow index `from` in the circular list, `from` included.
    pub open spec fn fit_from(self, required: u32, from: int, steps: nat) -> Option<u32>
        decreases steps,
    {
        if steps == 0 {
            None
        } else if self.sizes[self.free[from]] >= required {
            Some(self.free[from])
        } else {
            self.fit_from(required, succ(from, self.free.len() as int), (steps - 1) as nat)
        }
    }

    /// The first free chunk of at least `required` bytes, searching once
    /// round the list from the head.
    pub open spec fn first_fit(self, required: u32) -> Option<u32> {
        match self.head {
            None => None,
            Some(h) => self.fit_from(required, self.rank(h), self.free.len()),
        }
    }

    /// The heap after the free chunk `chunk` was handed out for a request of
    /// `required` bytes, header included.
    ///
    /// Where more than a header is left over, the chunk is cut: its first
    /// `required` bytes are handed out, and the rest takes its place in the
    /// free list and becomes the head. Otherwise the whole chunk is handed
    /// out; where the search started at it, it starts at the next chunk.
    pub open spec fn taken(self, chunk: u32, required: u32) -> HeapView {
        let i = self.rank(chunk);
        let n = self.free.len() as int;
        let size = self.sizes[chunk];
        let rest = (chunk + required) as u32;
        if size - required <= HEADER_SIZE {
            HeapView {
                head: if n == 1 {
                    None
                } else if self.head == Some(chunk) {
                    Some(self.free[succ(i, n)])
                } else {
                    self.head
                },
                free: self.free.remove(i),
                ..self
            }
        } else {
            HeapView {
                head: Some(rest),
                sizes: self.sizes.insert(chunk, required).insert(rest, (size - required) as u32),
                free: self.free.update(i, rest),
                ..self
            }
        }
    }

    /// The heap after the handed-out chunk `chunk` was given back.
    ///
    /// The chunk enters the free list at its place by address, and becomes
    /// one with the free chunk that begins where it ends and with the free
    /// chunk that ends where it begins. The resulting chunk becomes the head.
    pub open spec fn inserted(self, chunk: u32) -> HeapView {
        let p = self.rank(chunk);
        let size = self.sizes[chunk];
        let next = self.free[p];
        let prev = self.free[p - 1];
        let joins_next = self.joins_next(chunk);
        let joins_prev = self.joins_prev(chunk);
        if joins_next && joins_prev {
            HeapView {
                head: Some(prev),
                sizes: self.sizes.remove(chunk).remove(next).insert(
                    prev,
                    (self.sizes[prev] + size + self.sizes[next]) as u32,
                ),
                free: self.free.remove(p),
                ..self
            }
        } else if joins_next {
            HeapView {
                head: Some(chunk),
                sizes: self.sizes.remove(next).insert(chunk, (size + self.sizes[next]) as u32),
                free: self.free.update(p, chunk),
                ..self
            }
        } else if joins_prev {
            HeapView {
                head: Some(prev),
                sizes: self.sizes.remove(chunk).insert(prev, (self.sizes[prev] + size) as u32),
                ..self
            }
        } else {
            HeapView { head: Some(chunk), free: self.free.insert(p, chunk), ..self }
        }
    }

    /// The heap after its end moved up to `brk` and the new range was given
    /// to the free list as one chunk.
    pub open spec fn grown(self, brk: u32) -> HeapView {
        (HeapView {
            brk,
            sizes: self.sizes.insert(self.brk, (brk - self.brk) as u32),
            ..self
        }).inserted(self.brk)
    }

    /// Handing out a free chunk that is large enough keeps the heap well
    /// formed, and the chunk is then handed out with at least the bytes asked for.
    pub proof fn lemma_taken_wf(self, chunk: u32, required: u32)
        requires
            self.wf(),
            self.free.contains(chunk),
            HEADER_SIZE <= required <= self.sizes[chunk],
        ensures
            self.taken(chunk, required).wf(),
            self.taken(chunk, required).is_allocated(chunk),
            self.taken(chunk, required).sizes[chunk] >= required,
            forall|other: u32|
                self.is_allocated(other) ==> self.taken(chunk, required).is_allocated(other)
                    && self.taken(chunk, required).sizes[other] == self.sizes[other],
    {
        self.lemma_rank_splits(chunk);
        let i = self.rank(chunk);
        let n = self.free.len() as int;
        let size = self.sizes[chunk];
        let after = self.taken(chunk, required);
        assert(self.free[i] == chunk);
        if size - required <= HEADER_SIZE {
            assert forall|j: int| 0 <= j < after.free.len() implies after.free[j] == self.free[if j
                < i {
                j
            } else {
                j + 1
            }] by {}
            assert forall|j: int| 0 <= j < after.free.len() - 1 implies #[trigger] after.apart(
                j,
            ) by {
                if j + 1 < i {
                    assert(self.apart(j));
                } else if j >= i {
                    assert(self.apart(j + 1));
                } else {
                    assert(self.apart(j));
                    assert(self.apart(j + 1));
                }
            }
            assert(!after.free.contains(chunk));
            assert forall|a: u32| #[trigger] after.continues(a) by {
                assert(self.continues(a));
            }
            if n > 1 {
                match after.head {
                    Some(h) => {
                        let k = if self.head == Some(chunk) {
                            succ(i, n)
                        } else {
                            choose|k: int| 0 <= k < n && self.free[k] == h
                        };
                        assert(self.free[k] == h);
                        assert(after.free[if k < i {
                            k
                        } else {
                            k - 1
                        }] == h);
                    },
                    None => {},
                }
            }
            assert forall|other: u32| self.is_allocated(other) implies after.is_allocated(
                other,
            ) by {
                if after.free.contains(other) {
                    let j = choose|j: int| 0 <= j < after.free.len() && after.free[j] == other;
                    assert(self.free[if j < i {
                        j
                    } else {
                        j + 1
                    }] == other);
                }
            }
        } else {
            let rest = (chunk + required) as u32;
            assert(!self.sizes.contains_key(rest));
            assert forall|a: u32| #[trigger] after.continues(a) by {
                assert(self.continues(a));
                assert(self.continues(chunk));
            }
            assert forall|j: int| 0 <= j < after.free.len() - 1 implies #[trigger] after.apart(
                j,
            ) by {
                assert(self.apart(j));
                if j + 1 == i {
                    assert(self.free[j] + self.sizes[self.free[j]] <= chunk);
                }
            }
            assert(after.free[i] == rest);
            assert(!after.free.contains(chunk));
            assert forall|other: u32| self.is_allocated(other) implies after.is_allocated(
                other,
            ) by {
                if after.free.contains(other) {
                    let j = choose|j: int| 0 <= j < after.free.len() && after.free[j] == other;
                    assert(self.free[j] == other);
                }
            }
        }
    }

    /// Growing keeps the heap well formed; the head is then a free chunk that
    /// holds the whole new range, and the handed-out chunks stay as they are.
    pub proof fn lemma_grown_wf(self, brk: u32)
        requires
            self.wf(),
            self.brk < brk <= TABLES_BASE,
            page_aligned(brk),
            brk - self.brk >= HEADER_SIZE,
        ensures
            self.grown(brk).wf(),
            self.grown(brk).brk == brk,
            self.grown(brk).head is Some,
            self.grown(brk).free.contains(self.grown(brk).head->0),
            self.grown(brk).sizes[self.grown(brk).head->0] >= brk - self.brk,
            forall|other: u32|
                self.is_allocated(other) ==> self.grown(brk).is_allocated(other) && self.grown(
                    brk,
                ).sizes[other] == self.sizes[other],
    {
        let extended = HeapView {
            brk,
            sizes: self.sizes.insert(self.brk, (brk - self.brk) as u32),
            ..self
        };
        assert(!self.sizes.contains_key(self.brk));
        assert forall|a: u32| #[trigger] extended.continues(a) by {
            assert(self.continues(a));
        }
        assert forall|i: int| 0 <= i < extended.free.len() - 1 implies #[trigger] extended.apart(
            i,
        ) by {
            assert(self.apart(i));
        }
        assert(extended.tiled());
        if extended.free.contains(self.brk) {
            let j = choose|j: int| 0 <= j < self.free.len() && self.free[j] == self.brk;
            assert(self.sizes.contains_key(self.free[j]));
        }
        assert(extended.wf());
        extended.lemma_inserted_wf(self.brk);
        extended.lemma_rank_splits(self.brk);
        extended.lemma_rank(self.brk, self.free.len() as int);
        let p = extended.rank(self.brk);
        if p > 0 {
            assert(self.sizes.contains_key(self.free[p - 1]));
        }
        let after = self.grown(brk);
        if extended.joins_prev(self.brk) {
            assert(after.free[p - 1] == after.head->0);
        } else {
            assert(after.free[p] == after.head->0);
        }
        assert forall|other: u32| self.is_allocated(other) implies after.is_allocated(other)
            && after.sizes[other] == self.sizes[other] by {
            assert(extended.is_allocated(other));
        }
    }

    /// Whether the handed-out chunk `chunk` ends where a free chunk begins.
    pub open spec fn joins_next(self, chunk: u32) -> bool {
        self.rank(chunk) < self.free.len() && chunk + self.sizes[chunk] == self.free[self.rank(
            chunk,
        )]
    }

    /// Whether the handed-out chunk `chunk` begins where a free chunk ends.
    pub open spec fn joins_prev(self, chunk: u32) -> bool {
        self.rank(chunk) > 0 && self.free[self.rank(chunk) - 1] + self.sizes[self.free[self.rank(
            chunk,
        ) - 1]] == chunk
    }

    proof fn lemma_inserted_both(self, chunk: u32)
        requires
            self.wf(),
            self.is_allocated(chunk),
            self.joins_next(chunk),
            self.joins_prev(chunk),
        ensures
            self.inserted(chunk).wf(),
            !self.inserted(chunk).is_allocated(chunk),
            forall|other: u32|
                other != chunk && self.is_allocated(other) ==> self.inserted(chunk).is_allocated(
                    other,
                ) && self.inserted(chunk).sizes[other] == self.sizes[other],
    {
        self.lemma_rank_splits(chunk);
        let p = self.rank(chunk);
        let n = self.free.len() as int;
        let size = self.sizes[chunk];
        let next = self.free[p];
        let prev = self.free[p - 1];
        let after = self.inserted(chunk);
        if p < n {
            assert(self.sizes.contains_key(self.free[p]));
        }
        if p > 0 {
            assert(self.sizes.contains_key(self.free[p - 1]));
        }
        assert forall|j: int| 0 <= j < after.free.len() implies after.free[j] == self.free[if j
            < p {
            j
        } else {
            j + 1
        }] by {}
        assert forall|j: int| 0 <= j < after.free.len() - 1 implies #[trigger] after.apart(j) by {
            if j + 1 < p {
                assert(self.apart(j));
            } else if j >= p {
                assert(self.apart(j + 1));
            } else {
                assert(self.apart(p));
            }
        }
        assert(after.free[p - 1] == prev);
        assert(after.head_wf());
        assert(after.sorted());
        assert forall|a: u32| #[trigger] after.continues(a) by {
            assert(self.continues(a));
            assert(self.continues(next));
        }
        assert(after.tiled());
        assert forall|other: u32|
            other != chunk && self.is_allocated(other) implies after.is_allocated(other) by {
            if after.free.contains(other) {
                let j = choose|j: int| 0 <= j < after.free.len() && after.free[j] == other;
                assert(self.free[if j < p {
                    j
                } else {
                    j + 1
                }] == other);
            }
        }
    }

    proof fn lemma_inserted_next(self, chunk: u32)
        requires
            self.wf(),
            self.is_allocated(chunk),
            self.joins_next(chunk),
            !self.joins_prev(chunk),
        ensures
            self.inserted(chunk).wf(),
            !self.inserted(chunk).is_allocated(chunk),
            forall|other: u32|
                other != chunk && self.is_allocated(other) ==> self.inserted(chunk).is_allocated(
                    other,
                ) && self.inserted(chunk).sizes[other] == self.sizes[other],
    {
        self.lemma_rank_splits(chunk);
        let p = self.rank(chunk);
        let n = self.free.len() as int;
        let size = self.sizes[chunk];
        let next = self.free[p];
        let prev = self.free[p - 1];
        let after = self.inserted(chunk);
        if p < n {
            assert(self.sizes.contains_key(self.free[p]));
        }
        if p > 0 {
            assert(self.sizes.contains_key(self.free[p - 1]));
        }
        assert forall|j: int| 0 <= j < after.free.len() - 1 implies #[trigger] after.apart(j) by {
            assert(self.apart(j));
            if j == p {
                assert(self.apart(p));
            }
        }
        assert(after.free[p] == chunk);
        assert(after.head_wf());
        assert(after.sorted());
        assert forall|a: u32| #[trigger] after.continues(a) by {
            assert(self.continues(a));
            assert(self.continues(next));
        }
        assert(after.tiled());
        assert forall|other: u32|
            other != chunk && self.is_allocated(other) implies after.is_allocated(other) by {
            if after.free.contains(other) {
                let j = choose|j: int| 0 <= j < after.free.len() && after.free[j] == other;
                assert(self.free[j] == other);
            }
        }
    }

    proof fn lemma_inserted_prev(self, chunk: u32)
        requires
            self.wf(),
            self.is_allocated(chunk),
            !self.joins_next(chunk),
            self.joins_prev(chunk),
        ensures
            self.inserted(chunk).wf(),
            !self.inserted(chunk).is_allocated(chunk),
            forall|other: u32|
                other != chunk && self.is_allocated(other) ==> self.inserted(chunk).is_allocated(
                    other,
                ) && self.inserted(chunk).sizes[other] == self.sizes[other],
    {
        self.lemma_rank_splits(chunk);
        let p = self.rank(chunk);
        let n = self.free.len() as int;
        let size = self.sizes[chunk];
        let next = self.free[p];
        let prev = self.free[p - 1];
        let after = self.inserted(chunk);
        if p < n {
            assert(self.sizes.contains_key(self.free[p]));
        }
        if p > 0 {
            assert(self.sizes.contains_key(self.free[p - 1]));
        }
        assert forall|j: int| 0 <= j < after.free.len() - 1 implies #[trigger] after.apart(j) by {
            assert(self.apart(j));
        }
        assert(after.free[p - 1] == prev);
        assert(after.head_wf());
        assert(after.sorted());
        assert forall|a: u32| #[trigger] after.continues(a) by {
            assert(self.continues(a));
            assert(self.continues(chunk));
        }
        assert(after.tiled());
        assert(!after.free.contains(chunk));
    }

    proof fn lemma_inserted_none(self, chunk: u32)
        requires
            self.wf(),
            self.is_allocated(chunk),
            !self.joins_next(chunk),
            !self.joins_prev(chunk),
        ensures
            self.inserted(chunk).wf(),
            !self.inserted(chunk).is_allocated(chunk),
            forall|other: u32|
                other != chunk && self.is_allocated(other) ==> self.inserted(chunk).is_allocated(
                    other,
                ) && self.inserted(chunk).sizes[other] == self.sizes[other],
    {
        self.lemma_rank_splits(chunk);
        let p = self.rank(chunk);
        let n = self.free.len() as int;
        let size = self.sizes[chunk];
        let next = self.free[p];
        let prev = self.free[p - 1];
        let after = self.inserted(chunk);
        if p < n {
            assert(self.sizes.contains_key(self.free[p]));
        }
        if p > 0 {
            assert(self.sizes.contains_key(self.free[p - 1]));
        }
        assert forall|j: int| 0 <= j < after.free.len() implies after.free[j] == (if j < p {
            self.free[j]
        } else if j == p {
            chunk
        } else {
            self.free[j - 1]
        }) by {}
        assert forall|j: int| 0 <= j < after.free.len() - 1 implies #[trigger] after.apart(j) by {
            if j + 1 < p {
                assert(self.apart(j));
            } else if j > p {
                assert(self.apart(j - 1));
            }
        }
        assert(after.free[p] == chunk);
        assert(after.head_wf());
        assert(after.sorted());
        assert forall|a: u32| #[trigger] after.continues(a) by {
            assert(self.continues(a));
        }
        assert forall|other: u32|
            other != chunk && self.is_allocated(other) implies after.is_allocated(other) by {
            if after.free.contains(other) {
                let j = choose|j: int| 0 <= j < after.free.len() && after.free[j] == other;
                assert(self.free[if j < p {
                    j
                } else {
                    j - 1
                }] == other);
            }
        }
    }

    /// Giving back a handed-out chunk keeps the heap well formed, and the
    /// chunks that are still handed out stay as they are.
    pub proof fn lemma_inserted_wf(self, chunk: u32)
        requires
            self.wf(),
            self.is_allocated(chunk),
        ensures
            self.inserted(chunk).wf(),
            !self.inserted(chunk).is_allocated(chunk),
            forall|other: u32|
                other != chunk && self.is_allocated(other) ==> self.inserted(chunk).is_allocated(
                    other,
                ) && self.inserted(chunk).sizes[other] == self.sizes[other],
    {
        if self.joins_next(chunk) {
            if self.joins_prev(chunk) {
                self.lemma_inserted_both(chunk);
            } else {
                self.lemma_inserted_next(chunk);
            }
        } else {
            if self.joins_prev(chunk) {
                self.lemma_inserted_prev(chunk);
            } else {
                self.lemma_inserted_none(chunk);
            }
        }
    }

    /// Where the free chunks are sorted, a split position is the rank.
    pub proof fn lemma_rank(self, chunk: u32, p: int)
        requires
            self.splits_at(chunk, p),
        ensures
            self.rank(chunk) == p,
    {
        let q = self.rank(chunk);
        assert(self.splits_at(chunk, q));
        if q < p {
            assert(self.free[q] < chunk);
        } else if p < q {
            assert(self.free[p] < chunk);
        }
    }

    /// In a sorted free list every address has a rank.
    pub proof fn lemma_split(self, chunk: u32, upto: int) -> (p: int)
        requires
            self.sorted(),
            0 <= upto <= self.free.len(),
        ensures
            0 <= p <= upto,
            forall|i: int| 0 <= i < p ==> #[trigger] self.free[i] < chunk,
            forall|i: int| p <= i < upto ==> #[trigger] self.free[i] >= chunk,
        decreases upto,
    {
        if upto == 0 {
            0
        } else {
            let q = self.lemma_split(chunk, upto - 1);
            if self.free[upto - 1] < chunk {
                upto
            } else {
                q
            }
        }
    }

    /// The rank of a free chunk is its index in the free list.
    pub proof fn lemma_rank_of_free(self, i: int)
        requires
            self.sorted(),
            0 <= i < self.free.len(),
        ensures
            self.rank(self.free[i]) == i,
    {
        self.lemma_rank(self.free[i], i);
    }

    /// The rank of any address splits the sorted free list there.
    pub proof fn lemma_rank_splits(self, chunk: u32)
        requires
            self.sorted(),
        ensures
            self.splits_at(chunk, self.rank(chunk)),
            self.free.contains(chunk) ==> self.rank(chunk) < self.free.len() && self.free[self.rank(
                chunk,
            )] == chunk,
    {
        let p = self.lemma_split(chunk, self.free.len() as int);
        assert(self.splits_at(chunk, p));
        if self.free.contains(chunk) {
            let i = choose|i: int| 0 <= i < self.free.len() && self.free[i] == chunk;
            self.lemma_rank_of_free(i);
        }
    }
}

/// A heap: a range of addresses with a free list of chunks.
pub struct Heap {
    start: u32,
    brk: u32,
    free_list: Option<u32>,
    is_supervisor: bool,
    chunks: HashMap<u32, Chunk>,
    order: Ghost<Seq<u32>>,
}

impl Heap {
    pub closed spec fn view(&self) -> HeapView {
        HeapView {
            start: self.start,
            brk: self.brk,
            head: self.free_list,
            is_supervisor: self.is_supervisor,
            sizes: Map::new(
                |a: u32| self.chunks@.contains_key(a),
                |a: u32| self.chunks@[a].size,
            ),
            free: self.order@,
        }
    }

    /// Every free chunk names its successor and its predecessor in the list.
    pub closed spec fn linked(&self) -> bool {
        links(self.chunks@, self.order@)
    }

    pub open spec fn wf(&self) -> bool {
        self@.wf() && self.linked()
    }

    /// Whether two heaps hold the same headers and the same free list.
    pub closed spec fn same_chunks(&self, other: &Heap) -> bool {
        self.chunks@ == other.chunks@ && self.order@ == other.order@
    }

    /// An empty heap that begins at `start_add`.
    pub fn new(start_add: u32, is_supervisor: bool) -> (heap: Heap)
        requires
            page_aligned(start_add),
            start_add <= TABLES_BASE,
        ensures
            heap.wf(),
            heap@ == (HeapView {
                start: start_add,
                brk: start_add,
                head: None,
                is_supervisor,
                sizes: Map::empty(),
                free: Seq::empty(),
            }),
    {
        let heap = Heap {
            start: start_add,
            brk: start_add,
            free_list: None,
            is_supervisor,
            chunks: HashMap::new(),
            order: Ghost(Seq::empty()),
        };
        assert(heap@.sizes =~= Map::empty());
        heap
    }

    pub fn get_brk(&self) -> (brk: u32)
        ensures
            brk == self@.brk,
    {
        self.brk
    }

    fn set_brk(&mut self, new_brk: u32)
        ensures
            final(self)@ == (HeapView { brk: new_brk, ..old(self)@ }),
            final(self).same_chunks(old(self)),
    {
        self.brk = new_brk;
    }

    /// The header at `address`.
    fn chunk(&self, address: u32) -> (c: Chunk)
        requires
            self.chunks@.contains_key(address),
        ensures
            c == self.chunks@[address],
    {
        match self.chunks.get(&address) {
            Some(c) => *c,
            None => Chunk { size: 0, prev: 0, next: 0 },
        }
    }

    /// Writes the header at `address`.
    fn set_chunk(&mut self, address: u32, c: Chunk)
        ensures
            final(self).chunks@ == old(self).chunks@.insert(address, c),
            final(self).start == old(self).start,
            final(self).brk == old(self).brk,
            final(self).free_list == old(self).free_list,
            final(self).is_supervisor == old(self).is_supervisor,
            final(self).order == old(self).order,
    {
        self.chunks.insert(address, c);
    }

    /// Forgets the header at `address`: the chunk has become part of another.
    fn forget_chunk(&mut self, address: u32)
        ensures
            final(self).chunks@ == old(self).chunks@.remove(address),
            final(self).start == old(self).start,
            final(self).brk == old(self).brk,
            final(self).free_list == old(self).free_list,
            final(self).is_supervisor == old(self).is_supervisor,
            final(self).order == old(self).order,
    {
        self.chunks.remove(&address);
    }

    fn set_size(&mut self, address: u32, size: u32)
        requires
            old(self).chunks@.contains_key(address),
        ensures
            final(self).chunks@ == old(self).chunks@.insert(
                address,
                Chunk { size, ..old(self).chunks@[address] },
            ),
            final(self).start == old(self).start,
            final(self).brk == old(self).brk,
            final(self).free_list == old(self).free_list,
            final(self).is_supervisor == old(self).is_supervisor,
            final(self).order == old(self).order,
    {
        let c = self.chunk(address);
        self.set_chunk(address, Chunk { size, prev: c.prev, next: c.next });
    }

    fn set_next(&mut self, address: u32, next: u32)
        requires
            old(self).chunks@.contains_key(address),
        ensures
            final(self).chunks@ == old(self).chunks@.insert(
                address,
                Chunk { next, ..old(self).chunks@[address] },
            ),
            final(self).start == old(self).start,
            final(self).brk == old(self).brk,
            final(self).free_list == old(self).free_list,
            final(self).is_supervisor == old(self).is_supervisor,
            final(self).order == old(self).order,
    {
        let c = self.chunk(address);
        self.set_chunk(address, Chunk { size: c.size, prev: c.prev, next });
    }

    fn set_prev(&mut self, address: u32, prev: u32)
        requires
            old(self).chunks@.contains_key(address),
        ensures
            final(self).chunks@ == old(self).chunks@.insert(
                address,
                Chunk { prev, ..old(self).chunks@[address] },
            ),
            final(self).start == old(self).start,
            final(self).brk == old(self).brk,
            final(self).free_list == old(self).free_list,
            final(self).is_supervisor == old(self).is_supervisor,
            final(self).order == old(self).order,
    {
        let c = self.chunk(address);
        self.set_chunk(address, Chunk { size: c.size, prev, next: c.next });
    }

    /// The first free chunk of at least `size` bytes, searching once round
    /// the free list from its head.
    pub fn find_block(&self, size: u32) -> (r: Option<u32>)
        requires
            self.wf(),
        ensures
            r == self@.first_fit(size),
            r matches Some(c) ==> self@.free.contains(c) && self@.sizes[c] >= size,
    {
        let start: u32 = match self.free_list {
            Some(start) => start,
            None => {
                return None;
            },
        };
        proof {
            self@.lemma_rank_splits(start);
        }
        let ghost n = self.order@.len() as int;
        let ghost first = self@.rank(start);
        let ghost mut k: int = first;
        let ghost mut steps: int = 0;
        let mut head: u32 = start;
        loop
            invariant
                self.wf(),
                self.free_list == Some(start),
                n == self.order@.len(),
                0 <= first < n,
                self.order@[first] == start,
                first == self@.rank(start),
                0 <= k < n,
                0 <= steps < n,
                head == self.order@[k],
                k == if first + steps < n {
                    first + steps
                } else {
                    first + steps - n
                },
                self@.first_fit(size) == self@.fit_from(size, k, (n - steps) as nat),
            decreases n - steps,
        {
            assert(link_ok(self.chunks@, self.order@, k));
            let c = self.chunk(head);
            if c.size >= size {
                assert(self@.free.contains(head));
                return Some(head);
            }
            head = c.next;
            proof {
                k = succ(k, n);
                steps = steps + 1;
            }
            if head == start {
                proof {
                    if steps < n {
                        assert(self.order@[k] == self.order@[first]);
                        assert(k != first);
                    }
                    assert(self@.fit_from(size, k, 0) == None::<u32>);
                }
                return None;
            }
            proof {
                if steps == n {
                    assert(k == first);
                }
            }
        }
    }

    /// Links `new` into the free list behind `head`, the chunk after which
    /// it belongs by address.
    fn link_after(&mut self, head: u32, new: u32, Ghost(pos): Ghost<int>)
        requires
            old(self)@.sorted(),
            old(self).linked(),
            old(self).order@.len() >= 1,
            old(self)@.splits_at(new, pos),
            old(self).chunks@.contains_key(new),
            !old(self).order@.contains(new),
            head == old(self).order@[pred(pos, old(self).order@.len() as int)],
        ensures
            final(self)@.sorted(),
            final(self).linked(),
            final(self).order@ == old(self).order@.insert(pos, new),
            final(self)@ == (HeapView { free: final(self).order@, ..old(self)@ }),
    {
        let ghost o = self.order@;
        let ghost n = o.len() as int;
        let ghost c0 = self.chunks@;
        proof {
            assert(ascending(o));
            assert(link_ok(c0, o, pred(pos, n)));
            assert(link_ok(c0, o, succ(pred(pos, n), n)));
        }
        let next: u32 = self.chunk(head).next;
        self.set_next(new, next);
        self.set_prev(next, new);
        self.set_prev(new, head);
        self.set_next(head, new);
        proof {
            self.order = Ghost(o.insert(pos, new));
            let o2 = self.order@;
            let c2 = self.chunks@;
            assert(next == o[succ(pred(pos, n), n)]);
            assert forall|j: int| 0 <= j < n + 1 implies o2[j] == (if j < pos {
                o[j]
            } else if j == pos {
                new
            } else {
                o[j - 1]
            }) by {}
            assert forall|j: int| 0 <= j < o2.len() implies #[trigger] link_ok(c2, o2, j) by {
                if j != pos {
                    let k = if j < pos {
                        j
                    } else {
                        j - 1
                    };
                    assert(o2[j] == o[k]);
                    assert(link_ok(c0, o, k));
                }
            }
            assert(self@.sizes =~= old(self)@.sizes);
        }
    }

    /// Makes the free chunk `chunk` one with the free chunk that follows it
    /// in memory and in the list.
    fn absorb_next(&mut self, chunk: u32, Ghost(i): Ghost<int>)
        requires
            old(self)@.sorted(),
            old(self).linked(),
            0 <= i < old(self).order@.len() - 1,
            chunk == old(self).order@[i],
            old(self)@.sizes[chunk] + old(self)@.sizes[old(self).order@[i + 1]] <= u32::MAX,
        ensures
            final(self)@.sorted(),
            final(self).linked(),
            final(self).order@ == old(self).order@.remove(i + 1),
            final(self)@ == (HeapView {
                free: final(self).order@,
                sizes: old(self)@.sizes.remove(old(self).order@[i + 1]).insert(
                    chunk,
                    (old(self)@.sizes[chunk] + old(self)@.sizes[old(self).order@[i + 1]]) as u32,
                ),
                ..old(self)@
            }),
    {
        let ghost o = self.order@;
        let ghost n = o.len() as int;
        let ghost c0 = self.chunks@;
        proof {
            assert(ascending(o));
            assert(link_ok(c0, o, i));
            assert(link_ok(c0, o, i + 1));
            assert(link_ok(c0, o, succ(i + 1, n)));
        }
        let header = self.chunk(chunk);
        let next: u32 = header.next;
        assert(next == o[i + 1]);
        let absorbed = self.chunk(next);
        assert(absorbed.next == o[succ(i + 1, n)]);
        self.set_size(chunk, header.size + absorbed.size);
        self.set_next(chunk, absorbed.next);
        self.forget_chunk(next);
        self.set_prev(absorbed.next, chunk);
        proof {
            self.order = Ghost(o.remove(i + 1));
            let o2 = self.order@;
            let c2 = self.chunks@;
            assert forall|j: int| 0 <= j < n - 1 implies o2[j] == (if j <= i {
                o[j]
            } else {
                o[j + 1]
            }) by {}
            assert forall|j: int| 0 <= j < o2.len() implies #[trigger] link_ok(c2, o2, j) by {
                let k = if j <= i {
                    j
                } else {
                    j + 1
                };
                assert(o2[j] == o[k]);
                assert(link_ok(c0, o, k));
                assert(o[k] != next);
            }
            assert(self@.sizes =~= old(self)@.sizes.remove(next).insert(
                chunk,
                (header.size + absorbed.size) as u32,
            ));
        }
    }

    /// Takes `head` out of the free list. Where the search started at
    /// `head`, it starts at the chunk after it from now on.
    fn remove_chunk(&mut self, head: u32)
        requires
            old(self)@.sorted(),
            old(self).linked(),
            old(self)@.head_wf(),
            old(self)@.free.contains(head),
        ensures
            final(self)@.sorted(),
            final(self).linked(),
            final(self)@.head_wf(),
            final(self)@ == (HeapView {
                free: old(self)@.free.remove(old(self)@.rank(head)),
                head: if old(self)@.free.len() == 1 {
                    None
                } else if old(self)@.head == Some(head) {
                    Some(
                        old(self)@.free[succ(
                            old(self)@.rank(head),
                            old(self)@.free.len() as int,
                        )],
                    )
                } else {
                    old(self)@.head
                },
                ..old(self)@
            }),
    {
        proof {
            self@.lemma_rank_splits(head);
        }
        let ghost o = self.order@;
        let ghost n = o.len() as int;
        let ghost c0 = self.chunks@;
        let ghost i = self@.rank(head);
        proof {
            assert(ascending(o));
            assert(link_ok(c0, o, i));
            assert(link_ok(c0, o, succ(i, n)));
            assert(link_ok(c0, o, pred(i, n)));
        }
        let header = self.chunk(head);
        if header.next == head {
            proof {
                if n > 1 {
                    assert(o[succ(i, n)] == o[i]);
                }
            }
            self.free_list = None;
        } else {
            self.set_prev(header.next, header.prev);
            self.set_next(header.prev, header.next);
            if self.free_list == Some(head) {
                self.free_list = Some(header.next);
            }
        }
        proof {
            self.order = Ghost(o.remove(i));
            let o2 = self.order@;
            let c2 = self.chunks@;
            assert forall|j: int| 0 <= j < n - 1 implies o2[j] == (if j < i {
                o[j]
            } else {
                o[j + 1]
            }) by {}
            assert forall|j: int| 0 <= j < o2.len() implies #[trigger] link_ok(c2, o2, j) by {
                let k = if j < i {
                    j
                } else {
                    j + 1
                };
                assert(o2[j] == o[k]);
                assert(link_ok(c0, o, k));
                assert(o[k] != head);
            }
            assert(self@.sizes =~= old(self)@.sizes);
            match self.free_list {
                None => {},
                Some(h) => {
                    if h == header.next {
                        let k = succ(i, n);
                        assert(o[k] == h);
                        assert(o2[if k < i {
                            k
                        } else {
                            k - 1
                        }] == h);
                    } else {
                        let k = choose|k: int| 0 <= k < n && o[k] == h;
                        assert(o2[if k < i {
                            k
                        } else {
                            k - 1
                        }] == h);
                    }
                },
            }
        }
    }

    /// Puts `new` in the place that `head` has in the free list, and starts
    /// the search at `new` from now on.
    fn replace_chunk(&mut self, head: u32, new: u32)
        requires
            old(self)@.sorted(),
            old(self).linked(),
            old(self)@.free.contains(head),
            old(self)@.sizes.contains_key(new),
            head < new,
            old(self)@.rank(head) + 1 < old(self)@.free.len() ==> new < old(self)@.free[old(
                self,
            )@.rank(head) + 1],
        ensures
            final(self)@.sorted(),
            final(self).linked(),
            final(self)@.head_wf(),
            final(self)@ == (HeapView {
                free: old(self)@.free.update(old(self)@.rank(head), new),
                head: Some(new),
                ..old(self)@
            }),
    {
        proof {
            self@.lemma_rank_splits(head);
        }
        let ghost o = self.order@;
        let ghost n = o.len() as int;
        let ghost c0 = self.chunks@;
        let ghost i = self@.rank(head);
        proof {
            assert(ascending(o));
            assert(link_ok(c0, o, i));
            assert(link_ok(c0, o, succ(i, n)));
            assert(link_ok(c0, o, pred(i, n)));
        }
        let header = self.chunk(head);
        if header.next == head {
            proof {
                if n > 1 {
                    assert(o[succ(i, n)] == o[i]);
                }
            }
            self.set_next(new, new);
            self.set_prev(new, new);
        } else {
            self.set_next(new, header.next);
            self.set_prev(new, header.prev);
            self.set_prev(header.next, new);
            self.set_next(header.prev, new);
        }
        self.free_list = Some(new);
        proof {
            self.order = Ghost(o.update(i, new));
            let o2 = self.order@;
            let c2 = self.chunks@;
            assert forall|j: int| 0 <= j < o2.len() implies #[trigger] link_ok(c2, o2, j) by {
                if j != i {
                    assert(o2[j] == o[j]);
                    assert(link_ok(c0, o, j));
                    assert(o[j] != new);
                }
            }
            assert(self@.sizes =~= old(self)@.sizes);
            assert(o2[i] == new);
        }
    }

    /// The free chunk behind which `new` belongs in the circular list: the
    /// last one below it, or the highest one where none lies below it.
    fn find_predecessor(&self, start: u32, new: u32, Ghost(pos): Ghost<int>) -> (head: u32)
        requires
            self@.sorted(),
            self.linked(),
            self@.free.contains(start),
            self@.splits_at(new, pos),
            !self@.free.contains(new),
        ensures
            head == self@.free[pred(pos, self@.free.len() as int)],
    {
        let ghost v0 = self@;
        let ghost o = self.order@;
        let ghost n = o.len() as int;
        proof {
            v0.lemma_rank_splits(start);
            assert(ascending(o));
        }
        let ghost target = pred(pos, n);
        let ghost mut pi: int = v0.rank(start);
        let mut head: u32 = start;
        assert(link_ok(self.chunks@, o, pi));
        let mut next: u32 = self.chunk(head).next;
        if next == start {
            proof {
                if n > 1 {
                    assert(o[succ(pi, n)] == o[pi]);
                }
            }
            return head;
        }
        while !((head < new && new < next) || (head > next && (new > head || new < next)))
            invariant
                self.linked(),
                self.order@ == o,
                n == o.len(),
                n >= 2,
                ascending(o),
                v0.free == o,
                v0.splits_at(new, pos),
                !o.contains(new),
                target == pred(pos, n),
                0 <= pi < n,
                head == o[pi],
                next == o[succ(pi, n)],
            decreases
                    (if pi <= target {
                        target - pi
                    } else {
                        target + n - pi
                    }),
        {
            proof {
                if pi == target {
                    if pos == 0 || pos == n {
                        assert(o[0] < o[n - 1]);
                        assert(o[0] != new && o[n - 1] != new);
                    } else {
                        assert(o[pos - 1] != new && o[pos] != new);
                    }
                    assert(false);
                }
                pi = succ(pi, n);
                assert(link_ok(self.chunks@, o, pi));
            }
            head = next;
            next = self.chunk(head).next;
        }
        proof {
            if head < new && new < next {
                if pi == n - 1 {
                    assert(o[0] <= o[n - 1]);
                }
                v0.lemma_rank(new, pi + 1);
            } else {
                if pi < n - 1 {
                    assert(o[pi] < o[pi + 1]);
                }
                if new > head {
                    v0.lemma_rank(new, n);
                } else {
                    v0.lemma_rank(new, 0);
                }
            }
            v0.lemma_rank(new, pos);
        }
        head
    }

    /// Makes `new`, just linked in behind `head`, one with the free chunks
    /// that touch it, and starts the search at the resulting chunk.
    fn coalesce(&mut self, head: u32, new: u32, Ghost(v0): Ghost<HeapView>)
        requires
            v0.wf(),
            v0.is_allocated(new),
            v0.free.len() >= 1,
            head == v0.free[pred(v0.rank(new), v0.free.len() as int)],
            old(self)@ == (HeapView { free: v0.free.insert(v0.rank(new), new), ..v0 }),
            old(self)@.sorted(),
            old(self).linked(),
        ensures
            final(self).linked(),
            final(self)@ == v0.inserted(new),
    {
        let ghost o = v0.free;
        let ghost n = o.len() as int;
        let ghost pos = v0.rank(new);
        let ghost o1 = self.order@;
        proof {
            v0.lemma_rank_splits(new);
            assert(ascending(o));
            assert(o1[pos] == new);
            assert(link_ok(self.chunks@, o1, pos));
            assert forall|j: int| 0 <= j < n + 1 implies o1[j] == (if j < pos {
                o[j]
            } else if j == pos {
                new
            } else {
                o[j - 1]
            }) by {}
            if pos < n {
                assert(v0.sizes.contains_key(o[pos]));
            }
            if pos > 0 {
                assert(v0.sizes.contains_key(o[pos - 1]));
            }
        }
        let header = self.chunk(new);
        let mut ret: u32 = new;
        proof {
            assert(header.size == v0.sizes[new]);
            assert(header.next == o1[succ(pos, n + 1)]);
            if pos == n {
                assert(o[0] < new);
                assert(!v0.joins_next(new));
            } else {
                assert(header.next == o[pos]);
            }
            assert((new + header.size == header.next) == v0.joins_next(new));
        }
        if new + header.size == header.next {
            self.absorb_next(new, Ghost(pos));
        }
        let ghost o2 = self.order@;
        let ghost s2 = self@.sizes;
        proof {
            if v0.joins_next(new) {
                assert(o2 =~= o.update(pos, new));
                assert(s2 =~= v0.sizes.remove(o[pos]).insert(
                    new,
                    (v0.sizes[new] + v0.sizes[o[pos]]) as u32,
                ));
            } else {
                assert(o2 == o1);
                assert(s2 == v0.sizes);
            }
            assert(o2[pos] == new);
        }
        if head < new {
            proof {
                if pos == 0 {
                    assert(o[n - 1] > new);
                }
                assert(head == o[pos - 1]);
                assert(o2[pos - 1] == head);
                assert(v0.sizes.contains_key(head));
                assert(s2.contains_key(head));
                assert(s2[head] == v0.sizes[head]);
                assert(link_ok(self.chunks@, o2, pos - 1));
            }
            let before = self.chunk(head);
            assert((head + before.size == new) == v0.joins_prev(new));
            if head + before.size == new {
                self.absorb_next(head, Ghost(pos - 1));
                ret = head;
            }
        } else {
            proof {
                if pos > 0 {
                    assert(o[pos - 1] < new);
                }
                assert(!v0.joins_prev(new));
            }
        }
        self.free_list = Some(ret);
        proof {
            let after = v0.inserted(new);
            let o3 = self.order@;
            if v0.joins_prev(new) {
                assert(o3 == o2.remove(pos));
                if v0.joins_next(new) {
                    assert(o3 =~= o.remove(pos));
                } else {
                    assert(o3 =~= o);
                }
            } else {
                assert(o3 == o2);
            }
            assert(self@.free =~= after.free);
            assert(self@.sizes =~= after.sizes);
        }
    }

    /// Gives the handed-out chunk `new` back to the free list.
    ///
    /// The chunk is linked in at its place by address and made one with the
    /// free chunks that touch it; the resulting chunk becomes the head of
    /// the list.
    pub fn insert_chunk(&mut self, new: u32)
        requires
            old(self).wf(),
            old(self)@.is_allocated(new),
        ensures
            final(self).wf(),
            final(self)@ == old(self)@.inserted(new),
    {
        let ghost v0 = self@;
        let ghost pos = v0.rank(new);
        proof {
            v0.lemma_rank_splits(new);
            v0.lemma_inserted_wf(new);
        }
        match self.free_list {
            None => {
                self.set_next(new, new);
                self.set_prev(new, new);
                proof {
                    self.order = Ghost(v0.free.insert(0, new));
                    assert(link_ok(self.chunks@, self.order@, 0));
                    assert(self@.sizes =~= v0.sizes);
                }
                self.free_list = Some(new);
            },
            Some(start) => {
                let head = self.find_predecessor(start, new, Ghost(pos));
                self.link_after(head, new, Ghost(pos));
                self.coalesce(head, new, Ghost(v0));
            },
        }
    }

    /// Hands out the free chunk `fit` for a request of `required` bytes,
    /// header included: the whole chunk, or its first `required` bytes where
    /// more than a header is left over.
    fn carve(&mut self, fit: u32, required: u32)
        requires
            old(self).wf(),
            old(self)@.free.contains(fit),
            HEADER_SIZE <= required <= old(self)@.sizes[fit],
        ensures
            final(self).wf(),
            final(self)@ == old(self)@.taken(fit, required),
    {
        let ghost v0 = self@;
        let ghost o = self.order@;
        let ghost c0 = self.chunks@;
        proof {
            v0.lemma_rank_splits(fit);
            v0.lemma_taken_wf(fit, required);
        }
        let ghost i = v0.rank(fit);
        let header = self.chunk(fit);
        if header.size - required <= HEADER_SIZE {
            self.remove_chunk(fit);
        } else {
            let new: u32 = fit + required;
            assert(!v0.sizes.contains_key(new));
            self.set_chunk(new, Chunk { size: header.size - required, prev: 0, next: 0 });
            self.set_size(fit, required);
            proof {
                let c1 = self.chunks@;
                assert(!c0.contains_key(new));
                assert forall|j: int| 0 <= j < o.len() implies #[trigger] link_ok(c1, o, j) by {
                    assert(link_ok(c0, o, j));
                    assert(c0.contains_key(o[j]));
                    assert(o[j] != new);
                }
                assert(self@.free == v0.free);
                self@.lemma_rank(fit, i);
                if i + 1 < o.len() {
                    assert(v0.sizes.contains_key(o[i + 1]));
                    assert(ascending(o));
                    assert(o[i] < o[i + 1]);
                }
            }
            self.replace_chunk(fit, new);
            proof {
                assert(self@.sizes =~= v0.taken(fit, required).sizes);
            }
        }
    }

    /// Grows the heap by at least `required_space` bytes and gives the new
    /// range to the free list. Returns the head of the free list, which then
    /// holds the new range.
    ///
    /// Where only some of the pages could be had, they are given to the free
    /// list all the same, and the call fails.
    pub fn morecore(
        &mut self,
        required_space: u32,
        dir: &mut PageDirectory,
        bitmap: &mut FrameManager,
    ) -> (r: Result<u32, AllocError>)
        requires
            old(self).wf(),
            old(dir).wf(),
            old(bitmap).wf(),
            required_space >= HEADER_SIZE,
        ensures
            final(self).wf(),
            final(dir).wf(),
            final(bitmap).wf(),
            ({
                let moved = sbrk_spec(
                    old(dir)@,
                    old(bitmap)@,
                    old(self)@.start,
                    old(self)@.brk,
                    required_space as int,
                    old(self)@.is_supervisor,
                );
                &&& final(dir)@ == moved.0
                &&& final(bitmap)@ == moved.1
                &&& final(self)@ == if moved.2 > old(self)@.brk {
                    old(self)@.grown(moved.2)
                } else {
                    old(self)@
                }
                &&& r is Ok == moved.3
            }),
            r matches Ok(c) ==> final(self)@.head == Some(c) && final(self)@.free.contains(c)
                && final(self)@.sizes[c] >= required_space,
    {
        let ghost v0 = self@;
        let ghost o = self.order@;
        let ghost c0 = self.chunks@;
        let old_brk: u32 = self.get_brk();
        let r = self.sbrk(required_space as i64, dir, bitmap);
        let new_brk: u32 = self.get_brk();
        if new_brk > old_brk {
            proof {
                lemma_page_aligned(old_brk);
                lemma_page_aligned(new_brk);
                v0.lemma_grown_wf(new_brk);
                assert(!v0.sizes.contains_key(old_brk));
            }
            self.set_chunk(old_brk, Chunk { size: new_brk - old_brk, prev: 0, next: 0 });
            proof {
                let c1 = self.chunks@;
                assert forall|j: int| 0 <= j < o.len() implies #[trigger] link_ok(c1, o, j) by {
                    assert(link_ok(c0, o, j));
                    assert(v0.sizes.contains_key(o[j]));
                }
                let extended = HeapView {
                    brk: new_brk,
                    sizes: v0.sizes.insert(old_brk, (new_brk - old_brk) as u32),
                    ..v0
                };
                assert(self@.sizes =~= extended.sizes);
                assert(self@ == extended);
                assert forall|a: u32| #[trigger] extended.continues(a) by {
                    assert(v0.continues(a));
                }
                assert forall|i: int|
                    0 <= i < extended.free.len() - 1 implies #[trigger] extended.apart(i) by {
                    assert(v0.apart(i));
                }
                if extended.free.contains(old_brk) {
                    let j = choose|j: int| 0 <= j < v0.free.len() && v0.free[j] == old_brk;
                    assert(v0.sizes.contains_key(v0.free[j]));
                }
            }
            self.insert_chunk(old_brk);
        }
        match r {
            Ok(_) => {
                assert(new_brk > old_brk);
                match self.free_list {
                    Some(c) => Ok(c),
                    None => Err(AllocError),
                }
            },
            Err(e) => Err(e),
        }
    }

    /// Hands out `size` bytes and returns their address.
    pub fn malloc(&mut self, size: u32, dir: &mut PageDirectory, bitmap: &mut FrameManager) -> (r:
        Result<u32, AllocError>)
        requires
            old(self).wf(),
            old(dir).wf(),
            old(bitmap).wf(),
        ensures
            final(self).wf(),
            final(dir).wf(),
            final(bitmap).wf(),
            (final(self)@, final(dir)@, final(bitmap)@, r) == malloc_spec(
                old(self)@,
                old(dir)@,
                old(bitmap)@,
                size,
            ),
            r matches Ok(address) ==> final(self)@.is_allocated((address - HEADER_SIZE) as u32)
                && final(self)@.sizes[(address - HEADER_SIZE) as u32] >= size + HEADER_SIZE,
    {
        if size > u32::MAX - HEADER_SIZE {
            return Err(AllocError);
        }
        let required_space: u32 = size + HEADER_SIZE;
        let fit_chunk: u32 = match self.find_block(required_space) {
            Some(c) => c,
            None => match self.morecore(required_space, dir, bitmap) {
                Ok(c) => c,
                Err(e) => {
                    return Err(e);
                },
            },
        };
        proof {
            self@.lemma_taken_wf(fit_chunk, required_space);
            assert(self@.sizes.contains_key(fit_chunk));
        }
        self.carve(fit_chunk, required_space);
        Ok(fit_chunk + HEADER_SIZE)
    }

    /// Whether a chunk begins at `chunk` that is handed out.
    pub fn is_allocated(&self, chunk: u32) -> (allocated: bool)
        requires
            self.wf(),
        ensures
            allocated == self@.is_allocated(chunk),
    {
        if !self.chunks.contains_key(&chunk) {
            return false;
        }
        let start: u32 = match self.free_list {
            Some(start) => start,
            None => {
                return true;
            },
        };
        proof {
            self@.lemma_rank_splits(start);
        }
        let ghost n = self.order@.len() as int;
        let ghost first = self@.rank(start);
        let ghost mut k: int = first;
        let ghost mut steps: int = 0;
        let mut head: u32 = start;
        loop
            invariant
                self.wf(),
                self.free_list == Some(start),
                n == self.order@.len(),
                0 <= first < n,
                self.order@[first] == start,
                0 <= k < n,
                0 <= steps < n,
                head == self.order@[k],
                k == cyc(first, steps, n),
                self.chunks@.contains_key(chunk),
                forall|j: int| 0 <= j < steps ==> self.order@[cyc(first, j, n)] != chunk,
            decreases n - steps,
        {
            if head == chunk {
                return false;
            }
            assert(link_ok(self.chunks@, self.order@, k));
            assert(self.order@[cyc(first, steps, n)] != chunk);
            head = self.chunk(head).next;
            proof {
                k = succ(k, n);
                steps = steps + 1;
            }
            if head == start {
                proof {
                    assert(ascending(self.order@));
                    if steps < n {
                        assert(self.order@[k] == self.order@[first]);
                        assert(k != first);
                        assert(false);
                    }
                    assert forall|m: int| 0 <= m < n implies self.order@[m] != chunk by {
                        let j = if m >= first {
                            m - first
                        } else {
                            m + n - first
                        };
                        assert(cyc(first, j, n) == m);
                    }
                    if self@.free.contains(chunk) {
                        let m = choose|m: int| 0 <= m < n && self.order@[m] == chunk;
                        assert(false);
                    }
                }
                return true;
            }
            proof {
                if steps == n {
                    assert(k == first);
                }
            }
        }
    }

    /// Size in bytes, header included, of the chunk handed out at `address`.
    pub fn size(&self, address: u32) -> (size: u32)
        requires
            self.wf(),
            address >= HEADER_SIZE,
            self@.is_allocated((address - HEADER_SIZE) as u32),
        ensures
            size == self@.sizes[(address - HEADER_SIZE) as u32],
    {
        self.chunk(address - HEADER_SIZE).size
    }

    /// Gives the bytes at `address` back to the heap; they were handed out
    /// by `malloc` and not given back since.
    pub fn free(&mut self, address: u32, dir: &mut PageDirectory, bitmap: &mut FrameManager)
        requires
            old(self).wf(),
            old(dir).wf(),
            old(bitmap).wf(),
            address >= HEADER_SIZE,
            old(self)@.is_allocated((address - HEADER_SIZE) as u32),
        ensures
            final(self).wf(),
            final(dir).wf(),
            final(bitmap).wf(),
            (final(self)@, final(dir)@, final(bitmap)@) == free_spec(
                old(self)@,
                old(dir)@,
                old(bitmap)@,
                address,
            ),
    {
        self.free_in(address);
        self.release_memory(dir, bitmap);
    }

    /// Gives the chunk that holds the bytes at `address` back to the free list.
    pub fn free_in(&mut self, address: u32)
        requires
            old(self).wf(),
            address >= HEADER_SIZE,
            old(self)@.is_allocated((address - HEADER_SIZE) as u32),
        ensures
            final(self).wf(),
            final(self)@ == old(self)@.inserted((address - HEADER_SIZE) as u32),
    {
        let new_chunk: u32 = address - HEADER_SIZE;
        self.insert_chunk(new_chunk);
    }

    /// Releases the last page of the heap where the chunk at the head of the
    /// free list ends where the heap ends, spans more than a page and keeps
    /// room for its header without that page.
    pub fn release_memory(&mut self, dir: &mut PageDirectory, bitmap: &mut FrameManager)
        requires
            old(self).wf(),
            old(dir).wf(),
            old(bitmap).wf(),
        ensures
            final(self).wf(),
            final(dir).wf(),
            final(bitmap).wf(),
            (final(self)@, final(dir)@, final(bitmap)@) == release_spec(
                old(self)@,
                old(dir)@,
                old(bitmap)@,
            ),
    {
        let ghost v0 = self@;
        let ghost o = self.order@;
        let ghost c0 = self.chunks@;
        if let Some(node) = self.free_list {
            proof {
                v0.lemma_rank_splits(node);
                assert(v0.sizes.contains_key(node));
                assert(link_ok(c0, o, v0.rank(node)));
                assert(ascending(o));
                reveal_with_fuel(shrink_spec, 2);
            }
            let ghost i = v0.rank(node);
            let header = self.chunk(node);
            proof {
                if node + header.size == self.brk && i < o.len() - 1 {
                    assert(v0.sizes.contains_key(o[i + 1]));
                    assert(o[i] < o[i + 1]);
                }
            }
            if header.size > PAGE_SIZE_4K && header.next <= node && node + header.size == self.brk
                && header.size - PAGE_SIZE_4K >= HEADER_SIZE {
                if self.sbrk(-4096, dir, bitmap).is_ok() {
                    self.set_size(node, header.size - PAGE_SIZE_4K);
                    proof {
                        let c1 = self.chunks@;
                        let after = self@;
                        assert forall|j: int| 0 <= j < o.len() implies #[trigger] link_ok(
                            c1,
                            o,
                            j,
                        ) by {
                            assert(link_ok(c0, o, j));
                        }
                        assert(after.sizes =~= v0.sizes.insert(
                            node,
                            (header.size - 4096) as u32,
                        ));
                        assert forall|a: u32| #[trigger] after.continues(a) by {
                            assert(v0.continues(a));
                        }
                        assert forall|j: int|
                            0 <= j < after.free.len() - 1 implies #[trigger] after.apart(j) by {
                            assert(v0.apart(j));
                        }
                        assert(after.free.contains(node));
                    }
                }
            }
        }
    }

    /// Address and size of every free chunk, in the order of the free list,
    /// from its head once round.
    pub fn free_chunks(&self) -> (list: Vec<(u32, u32)>)
        requires
            self.wf(),
        ensures
            list@.len() == self@.free.len(),
            forall|j: int|
                0 <= j < list@.len() ==> (#[trigger] list@[j]).0 == self@.free[cyc(
                    self@.rank(self@.head->0),
                    j,
                    self@.free.len() as int,
                )] && list@[j].1 == self@.sizes[list@[j].0],
    {
        let mut list: Vec<(u32, u32)> = Vec::new();
        let start: u32 = match self.free_list {
            Some(start) => start,
            None => {
                return list;
            },
        };
        proof {
            self@.lemma_rank_splits(start);
        }
        let ghost n = self.order@.len() as int;
        let ghost first = self@.rank(start);
        let ghost mut k: int = first;
        let mut head: u32 = start;
        loop
            invariant
                self.wf(),
                self.free_list == Some(start),
                n == self.order@.len(),
                0 <= first < n,
                self.order@[first] == start,
                first == self@.rank(start),
                0 <= k < n,
                list@.len() < n,
                head == self.order@[k],
                k == cyc(first, list@.len() as int, n),
                forall|j: int|
                    0 <= j < list@.len() ==> (#[trigger] list@[j]).0 == self.order@[cyc(
                        first,
                        j,
                        n,
                    )] && list@[j].1 == self@.sizes[list@[j].0],
            decreases n - list@.len(),
        {
            assert(link_ok(self.chunks@, self.order@, k));
            let c = self.chunk(head);
            list.push((head, c.size));
            head = c.next;
            proof {
                k = succ(k, n);
            }
            if head == start {
                proof {
                    if list@.len() < n {
                        assert(self.order@[k] == self.order@[first]);
                        assert(ascending(self.order@));
                        assert(k != first);
                    }
                }
                return list;
            }
            proof {
                if list@.len() == n {
                    assert(k == first);
                }
            }
        }
    }

    /// Gives up the heap: releases its pages one by one, from the last to
    /// the first, and stops at the first page that cannot be released.
    pub fn release_all(self, dir: &mut PageDirectory, bitmap: &mut FrameManager) -> (r: Result<
        (),
        AllocError,
    >)
        requires
            self@.range_wf(),
            old(dir).wf(),
            old(bitmap).wf(),
        ensures
            final(dir).wf(),
            final(bitmap).wf(),
            ({
                let released = shrink_spec(
                    old(dir)@,
                    old(bitmap)@,
                    self@.start,
                    self@.brk,
                    ((self@.brk - self@.start) / 4096) as nat,
                );
                &&& final(dir)@ == released.0
                &&& final(bitmap)@ == released.1
                &&& r is Ok == released.3
            }),
    {
        let mut heap = self;
        let ghost first_brk = heap.brk;
        let ghost first_start = heap.start;
        proof {
            lemma_page_aligned(heap.brk);
            lemma_page_aligned(heap.start);
        }
        while heap.brk > heap.start
            invariant
                dir.wf(),
                bitmap.wf(),
                page_aligned(heap.brk),
                page_aligned(heap.start),
                heap.start % 4096 == 0,
                heap.brk % 4096 == 0,
                heap.start == first_start,
                first_start == self@.start,
                first_brk == self@.brk,
                heap.start <= heap.brk <= first_brk,
                shrink_spec(
                    old(dir)@,
                    old(bitmap)@,
                    heap.start,
                    first_brk,
                    ((first_brk - heap.start) / 4096) as nat,
                ) == shrink_spec(
                    dir@,
                    bitmap@,
                    heap.start,
                    heap.brk,
                    ((heap.brk - heap.start) / 4096) as nat,
                ),
            decreases heap.brk - heap.start,
        {
            let ghost d = dir@;
            let ghost u = bitmap@;
            let ghost brk = heap.brk;
            let ghost pages = (heap.brk - heap.start) / 4096;
            proof {
                reveal_with_fuel(shrink_spec, 2);
                let step = shrink_page_spec(d, u, (brk - 4096) as u32);
                assert(pages >= 1);
                assert(pages_for(-4096) == 1);
                assert(((brk - 4096) - heap.start) / 4096 == pages - 1);
                assert(shrink_spec(d, u, heap.start, brk, 1) == if brk < heap.start + 4096
                    || !step.2 {
                    (d, u, brk, false)
                } else {
                    (step.0, step.1, (brk - 4096) as u32, true)
                });
                assert(shrink_spec(d, u, heap.start, brk, pages as nat) == if brk < heap.start
                    + 4096 || !step.2 {
                    (d, u, brk, false)
                } else {
                    shrink_spec(
                        step.0,
                        step.1,
                        heap.start,
                        (brk - 4096) as u32,
                        (pages - 1) as nat,
                    )
                });
            }
            match heap.sbrk(-4096, dir, bitmap) {
                Ok(_) => {},
                Err(e) => {
                    return Err(e);
                },
            }
            proof {
                lemma_page_aligned(heap.brk);
            }
        }
        Ok(())
    }

    /// Whether only the supervisor may access the pages of the heap.
    pub fn is_supervisor(&self) -> (supervisor: bool)
        ensures
            supervisor == self@.is_supervisor,
    {
        self.is_supervisor
    }

    /// Address at which the heap begins.
    pub fn get_start(&self) -> (start: u32)
        ensures
            start == self@.start,
    {
        self.start
    }

    /// Moves the end of the heap by `increment` bytes, rounded up to whole
    /// pages, one page at a time, and returns where the end was before.
    ///
    /// Stops at the first page that cannot be added or released, and keeps
    /// the pages moved until then. The chunks are left as they are: a range
    /// that was added belongs to no chunk yet, and a range that was released
    /// must not have held one.
    pub fn sbrk(
        &mut self,
        increment: i64,
        dir: &mut PageDirectory,
        bitmap: &mut FrameManager,
    ) -> (r: Result<u32, AllocError>)
        requires
            page_aligned(old(self)@.brk),
            old(dir).wf(),
            old(bitmap).wf(),
            increment > i64::MIN,
        ensures
            final(dir).wf(),
            final(bitmap).wf(),
            page_aligned(final(self)@.brk),
            final(self)@ == (HeapView { brk: final(self)@.brk, ..old(self)@ }),
            final(self).same_chunks(old(self)),
            (final(dir)@, final(bitmap)@, final(self)@.brk, r is Ok) == sbrk_spec(
                old(dir)@,
                old(bitmap)@,
                old(self)@.start,
                old(self)@.brk,
                increment as int,
                old(self)@.is_supervisor,
            ),
            r is Ok ==> r == Ok::<u32, AllocError>(old(self)@.brk),
            old(self)@.brk <= TABLES_BASE ==> final(self)@.brk <= TABLES_BASE,
            increment >= 0 ==> final(self)@.brk >= old(self)@.brk,
            increment < 0 && old(self)@.start <= old(self)@.brk ==> old(self)@.start
                <= final(self)@.brk <= old(self)@.brk,
            r is Ok && increment >= 0 ==> final(self)@.brk == old(self)@.brk + 4096 * pages_for(
                increment as int,
            ),
            r is Ok && increment < 0 ==> final(self)@.brk == old(self)@.brk - 4096 * pages_for(
                increment as int,
            ),
    {
        let old_brk: u32 = self.get_brk();
        let is_neg: bool = increment < 0;
        let magnitude: u64 = if is_neg {
            (0 - increment) as u64
        } else {
            increment as u64
        };
        let mut required_pages: u64 = magnitude / (PAGE_SIZE_4K as u64) + if magnitude % (
        PAGE_SIZE_4K as u64) != 0 {
            1u64
        } else {
            0u64
        };
        assert(required_pages == pages_for(increment as int));
        let ghost total = required_pages;
        while required_pages > 0
            invariant
                required_pages <= total,
                total == pages_for(increment as int),
                old_brk <= TABLES_BASE ==> self.brk <= TABLES_BASE,
                !is_neg ==> self.brk == old_brk + 4096 * (total - required_pages),
                is_neg ==> self.brk == old_brk - 4096 * (total - required_pages),
                is_neg && self.start <= old_brk ==> self.start <= self.brk,
                dir.wf(),
                bitmap.wf(),
                page_aligned(self.brk),
                self@ == (HeapView { brk: self.brk, ..old(self)@ }),
                self.same_chunks(old(self)),
                is_neg == (increment < 0),
                old_brk == old(self)@.brk,
                sbrk_spec(
                    old(dir)@,
                    old(bitmap)@,
                    old(self)@.start,
                    old(self)@.brk,
                    increment as int,
                    old(self)@.is_supervisor,
                ) == if is_neg {
                    shrink_spec(dir@, bitmap@, self.start, self.brk, required_pages as nat)
                } else {
                    grow_spec(dir@, bitmap@, self.brk, required_pages as nat, self.is_supervisor)
                },
            decreases required_pages,
        {
            let current_brk: u32 = self.get_brk();
            proof {
                lemma_page_aligned(current_brk);
            }
            if is_neg {
                if current_brk < PAGE_SIZE_4K || current_brk - PAGE_SIZE_4K < self.start {
                    return Err(AllocError);
                }
                let new_brk: u32 = current_brk - PAGE_SIZE_4K;
                proof {
                    lemma_page_aligned(new_brk);
                }
                if !shrink_page(dir, bitmap, new_brk) {
                    return Err(AllocError);
                }
                self.set_brk(new_brk);
            } else {
                if !grow_page(dir, bitmap, current_brk, self.is_supervisor) {
                    return Err(AllocError);
                }
                let new_brk: u32 = current_brk + PAGE_SIZE_4K;
                proof {
                    lemma_page_aligned(new_brk);
                }
                self.set_brk(new_brk);
            }
            required_pages -= 1;
        }
        Ok(old_brk)
    }
}

} // verus!
