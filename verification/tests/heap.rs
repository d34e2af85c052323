use kfs::dynamic_memory_management::allocator::{AllocError, Heap, HEADER_SIZE};
use kfs::physical_memory_management::FrameManager;
use kfs::virtual_memory_management::page_structs::PageDirectory;

const START: u32 = 0x40_0000;

fn identity_memory() -> (PageDirectory, FrameManager) {
    (PageDirectory::new(0x21000), FrameManager::new())
}

fn paged_memory() -> (PageDirectory, FrameManager) {
    let mut bitmap = FrameManager::new();
    bitmap.alloc_frame_by_address(0x21000).unwrap();
    let mut dir = PageDirectory::new(0x21000);
    dir.set_recursive_entry();
    dir.activate();
    (dir, bitmap)
}

#[test]
fn freed_region_is_reused_and_list_coalesces() {
    let (mut dir, mut bitmap) = identity_memory();
    let mut heap = Heap::new(START, true);
    let a = heap.malloc(16, &mut dir, &mut bitmap).unwrap();
    let b = heap.malloc(16, &mut dir, &mut bitmap).unwrap();
    assert_eq!(a, START + HEADER_SIZE);
    assert_eq!(b, a + 16 + HEADER_SIZE);
    heap.free(a, &mut dir, &mut bitmap);
    let c = heap.malloc(16, &mut dir, &mut bitmap).unwrap();
    assert_eq!(c, a);
    heap.free(b, &mut dir, &mut bitmap);
    heap.free(c, &mut dir, &mut bitmap);
    let end = heap.get_brk();
    assert_eq!(heap.free_chunks(), vec![(START, end - START)]);
    assert_eq!(end - START, 0x1000);
}

#[test]
fn growing_beyond_one_page_takes_two_frames() {
    let (mut dir, mut bitmap) = identity_memory();
    let mut heap = Heap::new(START, true);
    let p = heap.malloc(5000, &mut dir, &mut bitmap).unwrap();
    assert_eq!(p, START + HEADER_SIZE);
    assert_eq!(heap.get_brk(), START + 0x2000);
    assert!(!bitmap.is_available(START));
    assert!(!bitmap.is_available(START + 0x1000));
    assert!(bitmap.is_available(START + 0x2000));
    assert_eq!(heap.size(p), 5000 + HEADER_SIZE);
    heap.free(p, &mut dir, &mut bitmap);
    assert_eq!(heap.get_brk(), START + 0x1000);
    assert!(bitmap.is_available(START + 0x1000));
    assert_eq!(heap.free_chunks(), vec![(START, 0x1000)]);
    assert_eq!(heap.release_all(&mut dir, &mut bitmap), Ok(()));
    assert!(bitmap.is_available(START));
    assert!(bitmap.is_available(START + 0x1000));
}

#[test]
fn dropping_a_heap_releases_every_frame() {
    let (mut dir, mut bitmap) = paged_memory();
    let mut heap = Heap::new(0xc0_0000, false);
    let a = heap.malloc(42, &mut dir, &mut bitmap).unwrap();
    let b = heap.malloc(9000, &mut dir, &mut bitmap).unwrap();
    assert_eq!(a, 0xc0_0000 + HEADER_SIZE);
    assert!(b > a);
    let brk = heap.get_brk();
    assert_eq!(brk, 0xc0_0000 + 0x4000);
    // frame 0x21000 holds the directory, the lowest frames back the heap's
    // first page and the page table it needed
    assert!(!bitmap.is_available(0x0));
    assert!(!bitmap.is_available(0x1000));
    let mut page = 0xc0_0000;
    let mut frames = Vec::new();
    while page < brk {
        frames.push(dir.translate(page).unwrap());
        page += 0x1000;
    }
    assert_eq!(heap.release_all(&mut dir, &mut bitmap), Ok(()));
    for frame in frames {
        assert!(bitmap.is_available(frame));
    }
    let mut page = 0xc0_0000;
    while page < brk {
        assert!(dir.translate(page).is_err());
        page += 0x1000;
    }
}

#[test]
fn allocations_do_not_overlap() {
    let (mut dir, mut bitmap) = paged_memory();
    let mut heap = Heap::new(START, true);
    let sizes = [1u32, 24, 4000, 100, 8200, 0, 77];
    let mut live: Vec<(u32, u32)> = Vec::new();
    for n in sizes {
        let p = heap.malloc(n, &mut dir, &mut bitmap).unwrap();
        for (q, m) in &live {
            assert!(p + n <= *q - HEADER_SIZE || *q + *m <= p - HEADER_SIZE);
        }
        assert!(p - HEADER_SIZE >= START && p + n <= heap.get_brk());
        live.push((p, n));
    }
}

#[test]
fn middle_chunk_merges_with_both_neighbours() {
    let (mut dir, mut bitmap) = identity_memory();
    let mut heap = Heap::new(START, true);
    let a = heap.malloc(100, &mut dir, &mut bitmap).unwrap();
    let b = heap.malloc(200, &mut dir, &mut bitmap).unwrap();
    let c = heap.malloc(300, &mut dir, &mut bitmap).unwrap();
    assert_eq!(b, a + 100 + HEADER_SIZE);
    assert_eq!(c, b + 200 + HEADER_SIZE);
    heap.free(b, &mut dir, &mut bitmap);
    assert_eq!(heap.free_chunks()[0], (a + 100, 200 + HEADER_SIZE));
    heap.free(a, &mut dir, &mut bitmap);
    assert_eq!(heap.free_chunks()[0], (START, 300 + 2 * HEADER_SIZE));
    heap.free(c, &mut dir, &mut bitmap);
    assert_eq!(heap.free_chunks(), vec![(START, 0x1000)]);
}

#[test]
fn exhausted_memory_is_reported() {
    let (mut dir, mut bitmap) = identity_memory();
    let top = 0x800_0000 - 0x2000;
    let mut heap = Heap::new(top, false);
    assert!(heap.malloc(0x1800, &mut dir, &mut bitmap).is_ok());
    assert_eq!(heap.malloc(0x1000, &mut dir, &mut bitmap), Err(AllocError));
    assert_eq!(heap.get_brk(), 0x800_0000);
}

#[test]
fn request_too_large_for_a_header_is_refused() {
    let (mut dir, mut bitmap) = identity_memory();
    let mut heap = Heap::new(START, true);
    assert_eq!(heap.malloc(u32::MAX - 4, &mut dir, &mut bitmap), Err(AllocError));
    assert_eq!(heap.get_brk(), START);
}

#[test]
fn search_starts_at_the_head_and_takes_the_first_fit() {
    let (mut dir, mut bitmap) = identity_memory();
    let mut heap = Heap::new(START, true);
    let a = heap.malloc(100, &mut dir, &mut bitmap).unwrap();
    let _b = heap.malloc(10, &mut dir, &mut bitmap).unwrap();
    let c = heap.malloc(300, &mut dir, &mut bitmap).unwrap();
    let _d = heap.malloc(10, &mut dir, &mut bitmap).unwrap();
    heap.free(c, &mut dir, &mut bitmap);
    heap.free(a, &mut dir, &mut bitmap);
    // free list, from the head, in ascending order: a's chunk, c's chunk,
    // the rest of the page
    let chunks = heap.free_chunks();
    assert_eq!(chunks.len(), 3);
    assert_eq!(chunks[0], (a - HEADER_SIZE, 100 + HEADER_SIZE));
    assert_eq!(chunks[1], (c - HEADER_SIZE, 300 + HEADER_SIZE));
    assert_eq!(chunks[2].0, START + 100 + 10 + 300 + 10 + 4 * HEADER_SIZE);
    assert_eq!(chunks[2].0 + chunks[2].1, heap.get_brk());
    assert_eq!(heap.find_block(100 + HEADER_SIZE), Some(a - HEADER_SIZE));
    assert_eq!(heap.find_block(200), Some(c - HEADER_SIZE));
    assert_eq!(heap.find_block(313), Some(chunks[2].0));
    assert_eq!(heap.find_block(5000), None);
    // a request that a's chunk cannot hold goes to the next chunk that can
    let e = heap.malloc(200, &mut dir, &mut bitmap).unwrap();
    assert_eq!(e, c);
    // what is left of c's chunk is the head now, and the search starts there
    assert_eq!(heap.free_chunks()[0], (c + 200, 100));
    assert_eq!(heap.find_block(50), Some(c + 200));
}

#[test]
fn small_remainder_is_handed_out_with_the_chunk() {
    let (mut dir, mut bitmap) = identity_memory();
    let mut heap = Heap::new(START, true);
    let a = heap.malloc(0x1000 - 2 * HEADER_SIZE, &mut dir, &mut bitmap).unwrap();
    assert_eq!(heap.size(a), 0x1000);
    assert!(heap.free_chunks().is_empty());
    assert!(heap.is_allocated(START));
    heap.free(a, &mut dir, &mut bitmap);
    assert!(!heap.is_allocated(START));
    let b = heap.malloc(0x1000 - 2 * HEADER_SIZE - 1, &mut dir, &mut bitmap).unwrap();
    assert_eq!(heap.size(b), 0x1000 - HEADER_SIZE - 1);
    assert_eq!(heap.free_chunks(), vec![(START + 0x1000 - HEADER_SIZE - 1, HEADER_SIZE + 1)]);
}

#[test]
fn only_handed_out_chunks_count_as_allocated() {
    let (mut dir, mut bitmap) = identity_memory();
    let mut heap = Heap::new(START, false);
    assert!(!heap.is_supervisor());
    assert_eq!(heap.get_start(), START);
    let a = heap.malloc(64, &mut dir, &mut bitmap).unwrap();
    assert!(heap.is_allocated(a - HEADER_SIZE));
    assert!(!heap.is_allocated(a));
    assert!(!heap.is_allocated(a + 64));
    heap.free_in(a);
    assert!(!heap.is_allocated(a - HEADER_SIZE));
}

#[test]
fn growing_joins_the_free_chunk_at_the_end() {
    let (mut dir, mut bitmap) = paged_memory();
    let mut heap = Heap::new(START, true);
    let a = heap.malloc(3000, &mut dir, &mut bitmap).unwrap();
    assert_eq!(heap.free_chunks(), vec![(a + 3000, 0x1000 - 3000 - HEADER_SIZE)]);
    let head = heap.morecore(2000, &mut dir, &mut bitmap).unwrap();
    assert_eq!(head, a + 3000);
    assert_eq!(heap.free_chunks(), vec![(a + 3000, 0x2000 - 3000 - HEADER_SIZE)]);
    assert_eq!(heap.get_brk(), START + 0x2000);
    assert_eq!(heap.sbrk(0, &mut dir, &mut bitmap), Ok(START + 0x2000));
    assert_eq!(heap.get_brk(), START + 0x2000);
}

#[test]
fn heap_pages_carry_the_flags_of_their_heap() {
    let (mut dir, mut bitmap) = paged_memory();
    let mut kernel = Heap::new(START, true);
    let mut user = Heap::new(0x80_0000, false);
    kernel.malloc(8, &mut dir, &mut bitmap).unwrap();
    user.malloc(8, &mut dir, &mut bitmap).unwrap();
    let kernel_entry = dir.get_table(1).unwrap().ref_table()[0];
    let user_entry = dir.get_table(2).unwrap().ref_table()[0];
    assert_eq!(kernel_entry.0 & 0xFFF, 0x3);
    assert_eq!(user_entry.0 & 0xFFF, 0x7);
}

#[test]
fn failed_growth_gives_the_frame_back() {
    let (mut dir, mut bitmap) = paged_memory();
    // one frame is left: enough for the page, not for the page table
    bitmap.reserve_range(0x1000, 0x800_0000);
    assert!(bitmap.is_available(0x0));
    let mut heap = Heap::new(START, true);
    assert_eq!(heap.malloc(8, &mut dir, &mut bitmap), Err(AllocError));
    assert!(bitmap.is_available(0x0));
    assert_eq!(heap.get_brk(), START);
    assert!(!dir.ref_dir()[1].is_present());
}

#[test]
fn partial_growth_stays_usable() {
    let (mut dir, mut bitmap) = identity_memory();
    bitmap.alloc_frame_by_address(START + 0x2000).unwrap();
    let mut heap = Heap::new(START, true);
    // three pages are asked for, two can be had
    assert_eq!(heap.malloc(0x2800, &mut dir, &mut bitmap), Err(AllocError));
    assert_eq!(heap.get_brk(), START + 0x2000);
    assert_eq!(heap.free_chunks(), vec![(START, 0x2000)]);
    assert_eq!(heap.malloc(0x1800, &mut dir, &mut bitmap), Ok(START + HEADER_SIZE));
}

#[test]
fn shrinking_stops_at_the_start() {
    let (mut dir, mut bitmap) = identity_memory();
    let mut heap = Heap::new(START, true);
    assert_eq!(heap.sbrk(0x1001, &mut dir, &mut bitmap), Ok(START));
    assert_eq!(heap.get_brk(), START + 0x2000);
    assert_eq!(heap.sbrk(-0x3000, &mut dir, &mut bitmap), Err(AllocError));
    assert_eq!(heap.get_brk(), START);
    assert!(bitmap.is_available(START));
    assert!(bitmap.is_available(START + 0x1000));
}

#[test]
fn used_frames_are_listed_in_order() {
    let mut bitmap = FrameManager::new();
    bitmap.alloc_frame_by_address(0x5000).unwrap();
    bitmap.alloc_frame_by_address(0x1000).unwrap();
    bitmap.alloc_frame_by_address(0x7FF_F000).unwrap();
    assert_eq!(bitmap.used_frames(), vec![0x1000, 0x5000, 0x7FF_F000]);
}
