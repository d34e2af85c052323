//! Moving the end of a heap by one page: the step that takes a frame for a
//! new page, and the step that gives the frame of the last page back.

use crate::bits::lemma_or_zero;
use crate::physical_memory_management::{
    lemma_lowest_free,
    lemma_page_aligned,
    lowest_free,
    page_aligned,
    FrameManager,
    N_FRAMES,
    RAM_SIZE,
};
use crate::virtual_memory_management::page_structs::{
    map_pages_spec,
    unmap_pages_spec,
    DirectoryView,
    PageDirectory,
    TABLES_BASE,
};
use vstd::prelude::*;

verus! {

/// Flags of a page that only the supervisor may access: present, writable.
pub const SUPERVISOR_FLAGS: u32 = 0x3;

/// Flags of a page that user code may access: present, writable, user.
pub const USER_FLAGS: u32 = 0x7;

/// The flags with which a heap maps its pages.
pub open spec fn heap_flags(supervisor: bool) -> u32 {
    if supervisor {
        SUPERVISOR_FLAGS
    } else {
        USER_FLAGS
    }
}

/// What backing the page at `brk` with a frame does, and whether it succeeds.
///
/// With paging on, the lowest available frame is mapped at `brk`; this fails,
/// and changes nothing, where `brk` has reached the addresses reserved for
/// the page tables, where a page is already mapped there, or where no frame
/// is left for the page or for the page table it needs. With paging off,
/// memory is identity-mapped: the frame at `brk` itself is taken, which fails
/// where it lies outside physical memory or is already in use.
pub open spec fn grow_page_spec(dir: DirectoryView, used: Set<int>, brk: u32, supervisor: bool) -> (
    DirectoryView,
    Set<int>,
    bool,
) {
    let frame = lowest_free(used, 0);
    let mapped = map_pages_spec(
        dir,
        used.insert(frame),
        (frame * 4096) as u32,
        brk,
        heap_flags(supervisor),
    );
    if dir.paging_enabled {
        if brk >= TABLES_BASE || dir.is_mapped(brk) || frame >= N_FRAMES || mapped.2 is Err {
            (dir, used, false)
        } else {
            (mapped.0, mapped.1, true)
        }
    } else {
        if brk >= RAM_SIZE || used.contains(brk as int / 4096) {
            (dir, used, false)
        } else {
            (dir, used.insert(brk as int / 4096), true)
        }
    }
}

/// What releasing the page at `page` does, and whether it succeeds.
///
/// With paging on, the page is unmapped and its frame given back; this fails,
/// and changes nothing, where no page is mapped there or where its frame lies
/// outside physical memory or is not in use. With paging off, the frame at
/// `page` itself is given back, which fails where it is not in use.
pub open spec fn shrink_page_spec(dir: DirectoryView, used: Set<int>, page: u32) -> (
    DirectoryView,
    Set<int>,
    bool,
) {
    let unmapped = unmap_pages_spec(dir, used, page);
    if dir.paging_enabled {
        if page >= TABLES_BASE || !dir.is_mapped(page) || dir.page_entry(page).frame_address()
            >= RAM_SIZE || unmapped.2 is Err {
            (dir, used, false)
        } else {
            (unmapped.0, unmapped.1, true)
        }
    } else {
        if page >= RAM_SIZE || !used.contains(page as int / 4096) {
            (dir, used, false)
        } else {
            (dir, used.remove(page as int / 4096), true)
        }
    }
}

/// Backs the page at `brk` with a frame.
pub fn grow_page(dir: &mut PageDirectory, bitmap: &mut FrameManager, brk: u32, supervisor: bool) -> (ok:
    bool)
    requires
        old(dir).wf(),
        old(bitmap).wf(),
        page_aligned(brk),
    ensures
        final(dir).wf(),
        final(bitmap).wf(),
        (final(dir)@, final(bitmap)@, ok) == grow_page_spec(
            old(dir)@,
            old(bitmap)@,
            brk,
            supervisor,
        ),
{
    if dir.is_enabled() {
        if brk >= TABLES_BASE {
            return false;
        }
        match dir.translate(brk) {
            Ok(_) => {
                return false;
            },
            Err(_) => {},
        }
        let p_add: u32 = match bitmap.alloc_frame() {
            Ok(address) => address,
            Err(_) => {
                return false;
            },
        };
        proof {
            lemma_page_aligned(p_add);
        }
        let flags: u32 = if supervisor {
            SUPERVISOR_FLAGS
        } else {
            USER_FLAGS
        };
        match dir.map_pages(bitmap, p_add, brk, flags) {
            Ok(()) => true,
            Err(_) => {
                let freed = bitmap.free_frame(p_add);
                proof {
                    lemma_lowest_free(old(bitmap)@, 0);
                    assert(bitmap@ =~= old(bitmap)@);
                }
                false
            },
        }
    } else {
        if brk >= RAM_SIZE {
            return false;
        }
        match bitmap.alloc_frame_by_address(brk) {
            Ok(()) => true,
            Err(_) => false,
        }
    }
}

/// Releases the page at `page` and gives its frame back.
pub fn shrink_page(dir: &mut PageDirectory, bitmap: &mut FrameManager, page: u32) -> (ok: bool)
    requires
        old(dir).wf(),
        old(bitmap).wf(),
        page_aligned(page),
    ensures
        final(dir).wf(),
        final(bitmap).wf(),
        (final(dir)@, final(bitmap)@, ok) == shrink_page_spec(old(dir)@, old(bitmap)@, page),
{
    if dir.is_enabled() {
        if page >= TABLES_BASE {
            return false;
        }
        proof {
            lemma_or_zero(dir@.page_entry(page).frame_address());
        }
        match dir.translate(page) {
            Ok(physical) => {
                if physical >= RAM_SIZE {
                    return false;
                }
            },
            Err(_) => {
                return false;
            },
        }
        match dir.unmap_pages(bitmap, page) {
            Ok(()) => true,
            Err(_) => false,
        }
    } else {
        if page >= RAM_SIZE {
            return false;
        }
        match bitmap.free_frame(page) {
            Ok(()) => true,
            Err(_) => false,
        }
    }
}

} // verus!
