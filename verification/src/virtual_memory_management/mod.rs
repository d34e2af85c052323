//! Paging management
//!
//! Keeps track of the page directory and manages its page tables.

pub mod page_structs;

use crate::bits::lemma_zero_entry;
use crate::multiboot_info::memory_map::MemoryMap;
use crate::physical_memory_management::{
    lemma_page_aligned,
    page_aligned,
    reserved_frames,
    FrameManager,
    PAGE_SIZE_4K,
    RAM_SIZE,
};
use crate::virtual_memory_management::page_structs::{
    map_pages_spec,
    DirectoryView,
    PageDirectory,
    PageDirectoryEntry,
    VirtualMemoryError,
    ENTRIES,
    RECURSIVE_INDEX,
    TABLES_BASE,
};
use vstd::prelude::*;

verus! {

/// Physical address of the page directory frame
pub const PAGE_DIR_ADDRESS: u32 = 0x21000;

/// Physical address of the text screen.
pub const VGA_ADDRESS: u32 = 0xb8000;

/// Flags of the pages that the kernel maps for itself: present, writable.
pub const KERNEL_FLAGS: u32 = 0x3;

/// Whether paging is switched on.
pub struct Paging(pub bool);

impl Paging {
    pub fn is_enabled(&self) -> (enabled: bool)
        ensures
            enabled == self.0,
    {
        self.0
    }

    pub fn activate(&mut self)
        ensures
            final(self).0,
    {
        self.0 = true;
    }

    pub fn deactivate(&mut self)
        ensures
            !final(self).0,
    {
        self.0 = false;
    }
}

/// The frames in use after the frame at `page` was reserved: it is marked if
/// it lies in physical memory, whether it was in use before or not.
pub open spec fn reserve_spec(used: Set<int>, page: u32) -> Set<int> {
    if page < RAM_SIZE {
        used.insert(page as int / 4096)
    } else {
        used
    }
}

/// What mapping the page at `page` to the frame at the same address does:
/// the frame is reserved, and the page is mapped unless it already is.
pub open spec fn identity_map_spec(dir: DirectoryView, used: Set<int>, page: u32) -> (
    DirectoryView,
    Set<int>,
    Result<(), VirtualMemoryError>,
) {
    if dir.is_mapped(page) {
        (dir, reserve_spec(used, page), Ok(()))
    } else {
        map_pages_spec(dir, reserve_spec(used, page), page, page, KERNEL_FLAGS)
    }
}

/// What mapping `count` pages from `page` on to the frames at the same
/// addresses does, one after the other, up to the first that fails.
pub open spec fn identity_map_range_spec(
    dir: DirectoryView,
    used: Set<int>,
    page: u32,
    count: nat,
) -> (DirectoryView, Set<int>, Result<(), VirtualMemoryError>)
    decreases count,
{
    let step = identity_map_spec(dir, used, page);
    if count == 0 {
        (dir, used, Ok(()))
    } else if step.2 is Err {
        step
    } else {
        identity_map_range_spec(step.0, step.1, (page + 4096) as u32, (count - 1) as nat)
    }
}

/// Number of pages from `first` up to `last`, both included.
pub open spec fn pages_between(first: u32, last: u32) -> nat {
    if first <= last {
        ((last - first) / 4096 + 1) as nat
    } else {
        0
    }
}

/// Marks the frame at `page` as used, if it lies in physical memory.
pub fn reserve(bitmap: &mut FrameManager, page: u32)
    requires
        old(bitmap).wf(),
        page_aligned(page),
    ensures
        final(bitmap).wf(),
        final(bitmap)@ == reserve_spec(old(bitmap)@, page),
{
    if page < RAM_SIZE {
        let taken = bitmap.alloc_frame_by_address(page);
        assert(bitmap@ =~= old(bitmap)@.insert(page as int / 4096));
    }
}

/// Maps the page at `page` to the frame at the same address, and reserves
/// that frame.
pub fn identity_map(dir: &mut PageDirectory, bitmap: &mut FrameManager, page: u32) -> (r: Result<
    (),
    VirtualMemoryError,
>)
    requires
        old(dir).wf(),
        old(bitmap).wf(),
        page_aligned(page),
        page < TABLES_BASE,
    ensures
        final(dir).wf(),
        final(bitmap).wf(),
        (final(dir)@, final(bitmap)@, r) == identity_map_spec(old(dir)@, old(bitmap)@, page),
{
    reserve(bitmap, page);
    match dir.translate(page) {
        Ok(_) => Ok(()),
        Err(_) => dir.map_pages(bitmap, page, page, KERNEL_FLAGS),
    }
}

/// Maps every page from `first` up to `last`, both included, to the frame at
/// the same address, and reserves those frames.
pub fn identity_map_range(
    dir: &mut PageDirectory,
    bitmap: &mut FrameManager,
    first: u32,
    last: u32,
) -> (r: Result<(), VirtualMemoryError>)
    requires
        old(dir).wf(),
        old(bitmap).wf(),
        page_aligned(first),
        page_aligned(last),
        last < TABLES_BASE,
    ensures
        final(dir).wf(),
        final(bitmap).wf(),
        (final(dir)@, final(bitmap)@, r) == identity_map_range_spec(
            old(dir)@,
            old(bitmap)@,
            first,
            pages_between(first, last),
        ),
{
    let mut i: u32 = first;
    proof {
        lemma_page_aligned(first);
        lemma_page_aligned(last);
    }
    while i <= last
        invariant
            dir.wf(),
            bitmap.wf(),
            page_aligned(i),
            i % 4096 == 0,
            last % 4096 == 0,
            last < TABLES_BASE,
            first <= i,
            first > last || i <= last + 4096,
            identity_map_range_spec(old(dir)@, old(bitmap)@, first, pages_between(first, last))
                == identity_map_range_spec(dir@, bitmap@, i, pages_between(i, last)),
        decreases last + 4096 - i,
    {
        proof {
            assert(pages_between(i, last) >= 1);
            if i < last {
                assert(pages_between((i + 4096) as u32, last) == pages_between(i, last) - 1);
            } else {
                assert(pages_between((i + 4096) as u32, last) == 0);
            }
        }
        match identity_map(dir, bitmap, i) {
            Ok(()) => {},
            Err(e) => {
                return Err(e);
            },
        }
        i += PAGE_SIZE_4K;
        proof {
            lemma_page_aligned(i);
        }
    }
    Ok(())
}

/// Marks as used the frame of every page from `first` up to `last`, both
/// included, as far as it lies in physical memory.
pub fn reserve_pages(bitmap: &mut FrameManager, first: u32, last: u32)
    requires
        old(bitmap).wf(),
        page_aligned(first),
        page_aligned(last),
        last < TABLES_BASE,
    ensures
        final(bitmap).wf(),
        final(bitmap)@ == old(bitmap)@.union(
            Set::new(
                |frame: int| first as int / 4096 <= frame <= last as int / 4096 && frame * 4096 < RAM_SIZE,
            ),
        ),
{
    let mut i: u32 = first;
    proof {
        lemma_page_aligned(first);
        lemma_page_aligned(last);
        assert(bitmap@ =~= old(bitmap)@.union(
            Set::new(
                |frame: int| first as int / 4096 <= frame < i as int / 4096 && frame * 4096 < RAM_SIZE,
            ),
        ));
    }
    while i <= last
        invariant
            bitmap.wf(),
            i % 4096 == 0,
            first % 4096 == 0,
            last % 4096 == 0,
            last < TABLES_BASE,
            first <= i,
            first > last || i <= last + 4096,
            first > last ==> i == first,
            bitmap@ == old(bitmap)@.union(
                Set::new(
                    |frame: int|
                        first as int / 4096 <= frame < i as int / 4096 && frame * 4096 < RAM_SIZE,
                ),
            ),
        decreases last + 4096 - i,
    {
        proof {
            lemma_page_aligned(i);
        }
        let ghost page = i;
        let ghost before = bitmap@;
        reserve(bitmap, i);
        i += PAGE_SIZE_4K;
        proof {
            assert(i as int / 4096 == page as int / 4096 + 1);
            assert((page as int / 4096) * 4096 == page);
            assert(bitmap@ == reserve_spec(before, page));
            assert(bitmap@ =~= old(bitmap)@.union(
                Set::new(
                    |frame: int|
                        first as int / 4096 <= frame < i as int / 4096 && frame * 4096 < RAM_SIZE,
                ),
            ));
        }
    }
    proof {
        if first <= last {
            assert(i == last + 4096);
            assert(i as int / 4096 == last as int / 4096 + 1);
        } else {
            assert(first as int / 4096 > last as int / 4096);
        }
        assert(bitmap@ =~= old(bitmap)@.union(
            Set::new(
                |frame: int| first as int / 4096 <= frame <= last as int / 4096 && frame * 4096 < RAM_SIZE,
            ),
        ));
    }
}

/// The directory with every entry set to zero.
pub open spec fn cleared(dir: DirectoryView) -> DirectoryView {
    DirectoryView { entries: Seq::new(ENTRIES as nat, |d: int| PageDirectoryEntry(0)), ..dir }
}

/// What setting up memory does to the directory and to the frames in use,
/// and what it returns.
///
/// The frames of all memory that the map does not describe as available are
/// reserved. Then the first page (descriptor table, controller ports), the
/// text screen, the kernel from `kernel_first_page` up to `kernel_last_page`
/// and the page of the boot information are reserved and, where paging is
/// asked for, mapped to themselves in a cleared directory whose last entry is
/// then made to refer to the directory itself.
pub open spec fn init_spec(
    enable_paging: bool,
    kernel_first_page: u32,
    kernel_last_page: u32,
    multiboot_frame_add: u32,
    entries: Seq<crate::multiboot_info::memory_map::MemoryMapEntry>,
    dir: DirectoryView,
    used: Set<int>,
) -> (DirectoryView, Set<int>, Result<(), VirtualMemoryError>) {
    let imported = used.union(reserved_frames(entries));
    let low = identity_map_spec(cleared(dir), imported, 0);
    let screen = identity_map_spec(low.0, low.1, VGA_ADDRESS);
    let kernel = identity_map_range_spec(
        screen.0,
        screen.1,
        kernel_first_page,
        pages_between(kernel_first_page, kernel_last_page),
    );
    let boot = identity_map_spec(kernel.0, kernel.1, multiboot_frame_add);
    if !enable_paging {
        (
            dir,
            reserve_spec(
                reserve_spec(reserve_spec(imported, 0), VGA_ADDRESS).union(
                    Set::new(
                        |frame: int|
                            kernel_first_page as int / 4096 <= frame <= kernel_last_page as int
                                / 4096 && frame * 4096 < RAM_SIZE,
                    ),
                ),
                multiboot_frame_add,
            ),
            Ok(()),
        )
    } else if low.2 is Err {
        low
    } else if screen.2 is Err {
        screen
    } else if kernel.2 is Err {
        kernel
    } else if boot.2 is Err {
        boot
    } else {
        (
            boot.0.with_entry(RECURSIVE_INDEX as int, PageDirectoryEntry(boot.0.frame | 0x3)),
            boot.1,
            Ok(()),
        )
    }
}

/// Setup memory
///
/// Tags the memory that must not be handed out as used in `bitmap`. If
/// `enable_paging` is true it also maps those areas to themselves and sets
/// up the last entry of the page directory to refer to the directory, so
/// that paging can be switched on.
///
/// Target memory areas:
/// - Global Descriptor Table
/// - Ps2 ports
/// - VGA screen memory map
/// - The whole kernel
/// - The boot information
pub fn init(
    enable_paging: bool,
    kernel_first_page: u32,
    kernel_last_page: u32,
    multiboot_frame_add: u32,
    mem_map: &MemoryMap,
    dir: &mut PageDirectory,
    bitmap: &mut FrameManager,
) -> (r: Result<(), VirtualMemoryError>)
    requires
        old(dir).wf(),
        !old(dir)@.paging_enabled,
        old(bitmap).wf(),
        page_aligned(kernel_first_page),
        page_aligned(kernel_last_page),
        page_aligned(multiboot_frame_add),
        kernel_last_page < TABLES_BASE,
        multiboot_frame_add < TABLES_BASE,
    ensures
        final(dir).wf(),
        final(bitmap).wf(),
        (final(dir)@, final(bitmap)@, r) == init_spec(
            enable_paging,
            kernel_first_page,
            kernel_last_page,
            multiboot_frame_add,
            mem_map@,
            old(dir)@,
            old(bitmap)@,
        ),
        r is Ok && enable_paging ==> final(dir)@.entries[RECURSIVE_INDEX as int].present(),
{
    proof {
        lemma_zero_entry();
    }
    bitmap.import_memory_map(mem_map);
    if enable_paging {
        dir.clear();
        assert(dir@ == cleared(old(dir)@));
        match identity_map(dir, bitmap, 0x0) {
            Ok(()) => {},
            Err(e) => {
                return Err(e);
            },
        }
        proof {
            assert(0xb8000u32 & 0xFFF == 0) by (bit_vector);
        }
        match identity_map(dir, bitmap, VGA_ADDRESS) {
            Ok(()) => {},
            Err(e) => {
                return Err(e);
            },
        }
        match identity_map_range(dir, bitmap, kernel_first_page, kernel_last_page) {
            Ok(()) => {},
            Err(e) => {
                return Err(e);
            },
        }
        match identity_map(dir, bitmap, multiboot_frame_add) {
            Ok(()) => {},
            Err(e) => {
                return Err(e);
            },
        }
        dir.set_recursive_entry();
        Ok(())
    } else {
        proof {
            assert(0xb8000u32 & 0xFFF == 0) by (bit_vector);
        }
        reserve(bitmap, 0x0);
        reserve(bitmap, VGA_ADDRESS);
        reserve_pages(bitmap, kernel_first_page, kernel_last_page);
        reserve(bitmap, multiboot_frame_add);
        Ok(())
    }
}

} // verus!
