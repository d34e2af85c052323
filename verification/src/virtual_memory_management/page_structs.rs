//! Page directory, page tables and their entries.
//!
//! An entry is a 32-bit word: the high 20 bits hold the address of the frame
//! it refers to, the low 12 bits hold flags (bit 0: present, bit 1: writable,
//! bit 2: accessible from user mode).

use crate::bits::{
    lemma_address_indices,
    lemma_directory_range,
    lemma_distinct_pages,
    lemma_or_zero,
    lemma_page_of,
    lemma_entry_fields,
    lemma_page_flags,
    lemma_page_offset,
    lemma_recursive_address,
    lemma_table_page,
    lemma_zero_entry,
};
use crate::physical_memory_management::{
    lemma_lowest_free,
    lemma_page_aligned,
    lowest_free,
    page_aligned,
    FrameManager,
    PhysicalMemoryError,
    N_FRAMES,
    RAM_SIZE,
};
use vstd::prelude::*;

verus! {

/// Number of entries in a page table and in the page directory.
pub const ENTRIES: usize = 1024;

/// Index of the directory entry that refers to the directory itself.
pub const RECURSIVE_INDEX: usize = 1023;

/// First address of the four mebibytes through which the page tables are
/// reached once paging is on.
pub const TABLES_BASE: u32 = 0xFFC0_0000;

/// Address at which the directory is reached once paging is on.
pub const DIRECTORY_LINEAR_ADDRESS: u32 = 0xFFFF_F000;

#[derive(Debug, Copy, Clone, PartialEq, Eq, Structural)]
pub enum VirtualMemoryError {
    PhysicalMemoryError(PhysicalMemoryError),
    DirectoryEntryAbsent,
    PageEntryAlreadyPresent,
    PageEntryAbsent,
}

/// Index of the directory entry that covers `address`.
pub open spec fn dir_index(address: u32) -> int {
    (address >> 22) as int
}

/// Index, in its page table, of the entry that covers `address`.
pub open spec fn table_index(address: u32) -> int {
    ((address & 0x3F_F000) >> 12) as int
}

#[derive(Copy, Clone)]
pub struct PageTableEntry(pub u32);

impl PageTableEntry {
    /// Address of the frame that the entry refers to.
    pub open spec fn frame_address(self) -> u32 {
        self.0 & 0xFFFF_F000
    }

    pub open spec fn present(self) -> bool {
        self.0 & 0x1 != 0
    }

    pub open spec fn writable(self) -> bool {
        self.0 & 0x2 != 0
    }

    pub fn new(address: u32, flags: u32) -> (entry: PageTableEntry)
        requires
            page_aligned(address),
        ensures
            entry.0 == address | flags,
    {
        PageTableEntry(address | flags)
    }

    pub fn page_frame_address(&self) -> (address: u32)
        ensures
            address == self.frame_address(),
            page_aligned(address),
    {
        proof {
            lemma_address_indices(self.0);
        }
        self.0 & 0xFFFF_F000
    }

    pub fn is_present(&self) -> (present: bool)
        ensures
            present == self.present(),
    {
        self.0 & 0x1 != 0
    }

    pub fn is_wr(&self) -> (writable: bool)
        ensures
            writable == self.writable(),
    {
        self.0 & 0x2 != 0
    }
}

/// A table of 1024 all-zero entries.
pub open spec fn zeroed_table() -> Seq<PageTableEntry> {
    Seq::new(ENTRIES as nat, |i: int| PageTableEntry(0))
}

/// What a page table is: the frame it occupies and its entries.
pub struct TableView {
    pub address: u32,
    pub entries: Seq<PageTableEntry>,
}

/// A page table: a frame that holds 1024 entries.
pub struct PageTable {
    address: u32,
    entries: Vec<PageTableEntry>,
}

impl PageTable {
    pub closed spec fn view(&self) -> TableView {
        TableView { address: self.address, entries: self.entries@ }
    }

    /// A cleared table in the frame at `address`.
    pub fn new(address: u32) -> (table: PageTable)
        requires
            page_aligned(address),
        ensures
            table@ == (TableView { address, entries: zeroed_table() }),
    {
        let mut entries: Vec<PageTableEntry> = Vec::new();
        let mut i: usize = 0;
        while i < ENTRIES
            invariant
                i <= ENTRIES,
                entries@.len() == i,
                forall|k: int| 0 <= k < i ==> entries@[k] == PageTableEntry(0),
            decreases ENTRIES - i,
        {
            proof {
                lemma_zero_entry();
            }
            entries.push(PageTableEntry::new(0, 0));
            i += 1;
        }
        assert(entries@ =~= zeroed_table());
        PageTable { address, entries }
    }

    /// Address of the frame that holds the table.
    pub fn address(&self) -> (address: u32)
        ensures
            address == self@.address,
    {
        self.address
    }

    pub fn ref_table(&self) -> (entries: &Vec<PageTableEntry>)
        ensures
            entries@ == self@.entries,
    {
        &self.entries
    }

    /// Sets every entry to zero: nothing is mapped through the table.
    pub fn clear(&mut self)
        requires
            old(self)@.entries.len() == ENTRIES,
        ensures
            final(self)@ == (TableView { address: old(self)@.address, entries: zeroed_table() }),
    {
        let mut i: usize = 0;
        while i < ENTRIES
            invariant
                i <= ENTRIES,
                self.entries@.len() == ENTRIES,
                self.address == old(self).address,
                forall|k: int| 0 <= k < i ==> self.entries@[k] == PageTableEntry(0),
            decreases ENTRIES - i,
        {
            proof {
                lemma_zero_entry();
            }
            self.entries.set(i, PageTableEntry::new(0, 0));
            i += 1;
        }
        assert(self.entries@ =~= zeroed_table());
    }

    pub fn set_entry(&mut self, index: usize, address: u32, flags: u32)
        requires
            index < old(self)@.entries.len(),
            page_aligned(address),
        ensures
            final(self)@ == (TableView {
                address: old(self)@.address,
                entries: old(self)@.entries.update(index as int, PageTableEntry(address | flags)),
            }),
    {
        self.entries.set(index, PageTableEntry::new(address, flags));
    }
}

#[derive(Copy, Clone)]
pub struct PageDirectoryEntry(pub u32);

impl PageDirectoryEntry {
    /// Address of the page table that the entry refers to.
    pub open spec fn table_address(self) -> u32 {
        self.0 & 0xFFFF_F000
    }

    pub open spec fn present(self) -> bool {
        self.0 & 0x1 != 0
    }

    pub open spec fn writable(self) -> bool {
        self.0 & 0x2 != 0
    }

    pub fn new(address: u32, flags: u32) -> (entry: PageDirectoryEntry)
        requires
            page_aligned(address),
        ensures
            entry.0 == address | flags,
    {
        PageDirectoryEntry(address | flags)
    }

    pub fn page_table_address(&self) -> (address: u32)
        ensures
            address == self.table_address(),
            page_aligned(address),
    {
        proof {
            lemma_address_indices(self.0);
        }
        self.0 & 0xFFFF_F000
    }

    pub fn is_present(&self) -> (present: bool)
        ensures
            present == self.present(),
    {
        self.0 & 0x1 != 0
    }

    pub fn is_wr(&self) -> (writable: bool)
        ensures
            writable == self.writable(),
    {
        self.0 & 0x2 != 0
    }
}

/// What a page directory is: the frame it occupies, whether paging is on,
/// its entries, and for each entry the page table that it refers to, as far
/// as one was installed there.
pub struct DirectoryView {
    pub frame: u32,
    pub paging_enabled: bool,
    pub entries: Seq<PageDirectoryEntry>,
    pub tables: Seq<Option<TableView>>,
}

impl DirectoryView {
    /// The directory and its tables are complete, every present entry but
    /// the last refers to the table held for it, and the last entry, where
    /// present, refers to the directory itself, as it must while paging is on.
    pub open spec fn wf(self) -> bool {
        &&& page_aligned(self.frame)
        &&& self.entries.len() == ENTRIES
        &&& self.tables.len() == ENTRIES
        &&& forall|d: int|
            0 <= d < ENTRIES ==> (#[trigger] self.tables[d] matches Some(table)
                ==> table.entries.len() == ENTRIES)
        &&& forall|d: int|
            0 <= d < RECURSIVE_INDEX && (#[trigger] self.entries[d]).present() ==> self.tables[d]
                is Some && self.tables[d]->0.address == self.entries[d].table_address()
        &&& self.entries[RECURSIVE_INDEX as int].present() ==> self.entries[RECURSIVE_INDEX as int].table_address()
            == self.frame
        &&& self.paging_enabled ==> self.entries[RECURSIVE_INDEX as int].present()
    }

    /// The word that the page walk reads for `address` in the second step:
    /// an entry of the page table, or of the directory itself in the last
    /// four mebibytes.
    pub open spec fn page_entry(self, address: u32) -> PageTableEntry {
        if dir_index(address) == RECURSIVE_INDEX {
            PageTableEntry(self.entries[table_index(address)].0)
        } else {
            self.tables[dir_index(address)]->0.entries[table_index(address)]
        }
    }

    /// Whether a page is mapped at `address`.
    pub open spec fn is_mapped(self, address: u32) -> bool {
        self.entries[dir_index(address)].present() && self.page_entry(address).present()
    }

    /// The physical address that the page walk finds for `address`.
    pub open spec fn translate(self, address: u32) -> Result<u32, VirtualMemoryError> {
        if !self.entries[dir_index(address)].present() {
            Err(VirtualMemoryError::DirectoryEntryAbsent)
        } else if !self.page_entry(address).present() {
            Err(VirtualMemoryError::PageEntryAbsent)
        } else {
            Ok(self.page_entry(address).frame_address() | (address & 0xFFF))
        }
    }

    /// The directory with entry `index` replaced.
    pub open spec fn with_entry(self, index: int, entry: PageDirectoryEntry) -> DirectoryView {
        DirectoryView {
            frame: self.frame,
            paging_enabled: self.paging_enabled,
            entries: self.entries.update(index, entry),
            tables: self.tables,
        }
    }

    /// The directory with a cleared table in the frame at `address` installed
    /// at `index`, present and writable.
    pub open spec fn with_table(self, index: int, address: u32) -> DirectoryView {
        DirectoryView {
            frame: self.frame,
            paging_enabled: self.paging_enabled,
            entries: self.entries.update(index, PageDirectoryEntry(address | 0x3)),
            tables: self.tables.update(
                index,
                Some(TableView { address, entries: zeroed_table() }),
            ),
        }
    }

    /// The directory with the page-table entry that covers `address` replaced.
    pub open spec fn with_page(self, address: u32, entry: PageTableEntry) -> DirectoryView {
        let table = self.tables[dir_index(address)]->0;
        DirectoryView {
            frame: self.frame,
            paging_enabled: self.paging_enabled,
            entries: self.entries,
            tables: self.tables.update(
                dir_index(address),
                Some(
                    TableView {
                        address: table.address,
                        entries: table.entries.update(table_index(address), entry),
                    },
                ),
            ),
        }
    }
}

/// What mapping the page at `virt` to the frame at `phys` does to a directory
/// and to the set of frames in use, and what it returns: where the directory
/// entry is absent, the lowest available frame becomes its page table; with
/// no frame available nothing changes.
pub open spec fn map_pages_spec(
    dir: DirectoryView,
    used: Set<int>,
    phys: u32,
    virt: u32,
    flags: u32,
) -> (DirectoryView, Set<int>, Result<(), VirtualMemoryError>) {
    let entry = PageTableEntry(phys | flags);
    let frame = lowest_free(used, 0);
    if dir.entries[dir_index(virt)].present() {
        (dir.with_page(virt, entry), used, Ok(()))
    } else if frame < N_FRAMES {
        (
            dir.with_table(dir_index(virt), (frame * 4096) as u32).with_page(virt, entry),
            used.insert(frame),
            Ok(()),
        )
    } else {
        (
            dir,
            used,
            Err(VirtualMemoryError::PhysicalMemoryError(PhysicalMemoryError::NoFrameAvailable)),
        )
    }
}

/// Number of pages that begin at or after `start` and before `end`, where
/// `start` is the address of a page.
pub open spec fn range_pages(start: u32, end: u32) -> nat {
    if start < end {
        ((end - start - 1) / 4096 + 1) as nat
    } else {
        0
    }
}

/// What mapping `count` pages from `virt` on to the frames from `phys` on
/// does, one after the other, up to the first that fails; a page that is
/// already mapped fails.
pub open spec fn map_range_spec(
    dir: DirectoryView,
    used: Set<int>,
    phys: u32,
    virt: u32,
    count: nat,
    flags: u32,
) -> (DirectoryView, Set<int>, Result<(), VirtualMemoryError>)
    decreases count,
{
    let step = if dir.is_mapped(virt) {
        (dir, used, Err::<(), VirtualMemoryError>(VirtualMemoryError::PageEntryAlreadyPresent))
    } else {
        map_pages_spec(dir, used, phys, virt, flags)
    };
    if count == 0 {
        (dir, used, Ok(()))
    } else if step.2 is Err {
        step
    } else {
        map_range_spec(
            step.0,
            step.1,
            (phys + 4096) as u32,
            (virt + 4096) as u32,
            (count - 1) as nat,
            flags,
        )
    }
}

/// What unmapping the page at `virt` does to a directory and to the set of
/// frames in use, and what it returns: the frame is given back and the entry
/// cleared, unless the frame is not in use, in which case nothing changes.
pub open spec fn unmap_pages_spec(dir: DirectoryView, used: Set<int>, virt: u32) -> (
    DirectoryView,
    Set<int>,
    Result<(), VirtualMemoryError>,
) {
    let frame = dir.page_entry(virt).frame_address() as int / 4096;
    if used.contains(frame) {
        (dir.with_page(virt, PageTableEntry(0)), used.remove(frame), Ok(()))
    } else {
        (
            dir,
            used,
            Err(VirtualMemoryError::PhysicalMemoryError(PhysicalMemoryError::FrameNotInUse)),
        )
    }
}

/// Mapping a page keeps the directory well formed.
pub proof fn lemma_map_wf(dir: DirectoryView, used: Set<int>, phys: u32, virt: u32, flags: u32)
    requires
        dir.wf(),
        page_aligned(virt),
        virt < TABLES_BASE,
    ensures
        map_pages_spec(dir, used, phys, virt, flags).0.wf(),
{
    lemma_address_indices(virt);
    let frame = lowest_free(used, 0);
    lemma_lowest_free(used, 0);
    let d = dir_index(virt);
    if !dir.entries[d].present() && frame < N_FRAMES {
        let address = (frame * 4096) as u32;
        lemma_page_aligned(address);
        lemma_entry_fields(address, 0x3);
        lemma_page_flags();
        let installed = dir.with_table(d, address);
        assert(installed.wf());
    }
}

/// After a page was mapped with the present flag set, every address in it
/// translates to the same offset in its frame.
pub proof fn lemma_map_translate(
    dir: DirectoryView,
    used: Set<int>,
    phys: u32,
    virt: u32,
    flags: u32,
    offset: u32,
)
    requires
        dir.wf(),
        page_aligned(phys),
        page_aligned(virt),
        virt < TABLES_BASE,
        flags < 0x1000,
        flags & 0x1 != 0,
        offset < 0x1000,
        map_pages_spec(dir, used, phys, virt, flags).2 is Ok,
    ensures
        map_pages_spec(dir, used, phys, virt, flags).0.is_mapped(virt),
        map_pages_spec(dir, used, phys, virt, flags).0.translate((virt | offset) as u32) == Ok::<
            u32,
            VirtualMemoryError,
        >(phys | offset),
        phys | offset == phys + offset,
        virt | offset == virt + offset,
{
    lemma_address_indices(virt);
    lemma_page_offset(virt, offset);
    lemma_page_offset(phys, offset);
    lemma_entry_fields(phys, flags);
    let frame = lowest_free(used, 0);
    lemma_lowest_free(used, 0);
    let d = dir_index(virt);
    if !dir.entries[d].present() {
        let address = (frame * 4096) as u32;
        lemma_page_aligned(address);
        lemma_entry_fields(address, 0x3);
        lemma_page_flags();
    }
}

/// Mapping a page changes the translation of no address outside that page,
/// as long as the page was not mapped before.
pub proof fn lemma_map_keeps_others(
    dir: DirectoryView,
    used: Set<int>,
    phys: u32,
    virt: u32,
    flags: u32,
    other: u32,
)
    requires
        dir.wf(),
        page_aligned(virt),
        virt < TABLES_BASE,
        other < TABLES_BASE,
        other & 0xFFFF_F000 != virt,
        dir.is_mapped(other),
    ensures
        map_pages_spec(dir, used, phys, virt, flags).0.translate(other) == dir.translate(other),
        map_pages_spec(dir, used, phys, virt, flags).0.is_mapped(other),
{
    lemma_address_indices(virt);
    lemma_address_indices(other);
    lemma_page_of(other);
    lemma_distinct_pages(virt, other & 0xFFFF_F000);
}

/// After a page was unmapped, no address in it translates any more, and the
/// frame it was mapped to is available.
pub proof fn lemma_unmap_translate(dir: DirectoryView, used: Set<int>, virt: u32)
    requires
        dir.wf(),
        page_aligned(virt),
        virt < TABLES_BASE,
        dir.is_mapped(virt),
        unmap_pages_spec(dir, used, virt).2 is Ok,
    ensures
        unmap_pages_spec(dir, used, virt).0.wf(),
        !unmap_pages_spec(dir, used, virt).0.is_mapped(virt),
        unmap_pages_spec(dir, used, virt).0.translate(virt) == Err::<u32, VirtualMemoryError>(
            VirtualMemoryError::PageEntryAbsent,
        ),
        !unmap_pages_spec(dir, used, virt).1.contains(
            dir.page_entry(virt).frame_address() as int / 4096,
        ),
{
    lemma_address_indices(virt);
    lemma_zero_entry();
}

/// Unmapping a page changes the translation of no address outside that page.
pub proof fn lemma_unmap_keeps_others(dir: DirectoryView, used: Set<int>, virt: u32, other: u32)
    requires
        dir.wf(),
        page_aligned(virt),
        virt < TABLES_BASE,
        dir.is_mapped(virt),
        other < TABLES_BASE,
        other & 0xFFFF_F000 != virt,
    ensures
        unmap_pages_spec(dir, used, virt).0.translate(other) == dir.translate(other),
        unmap_pages_spec(dir, used, virt).0.is_mapped(other) == dir.is_mapped(other),
{
    lemma_address_indices(virt);
    lemma_address_indices(other);
    lemma_page_of(other);
    lemma_distinct_pages(virt, other & 0xFFFF_F000);
}

/// A page that was unmapped and mapped again to another frame translates to
/// that frame.
pub proof fn lemma_retarget(
    dir: DirectoryView,
    used: Set<int>,
    virt: u32,
    phys: u32,
    flags: u32,
)
    requires
        dir.wf(),
        page_aligned(virt),
        page_aligned(phys),
        virt < TABLES_BASE,
        dir.is_mapped(virt),
        flags < 0x1000,
        flags & 0x1 != 0,
        unmap_pages_spec(dir, used, virt).2 is Ok,
    ensures
        ({
            let unmapped = unmap_pages_spec(dir, used, virt);
            let mapped = map_pages_spec(unmapped.0, unmapped.1, phys, virt, flags);
            mapped.2 is Ok && mapped.0.translate(virt) == Ok::<u32, VirtualMemoryError>(phys)
        }),
{
    let unmapped = unmap_pages_spec(dir, used, virt);
    lemma_unmap_translate(dir, used, virt);
    lemma_address_indices(virt);
    lemma_map_translate(unmapped.0, unmapped.1, phys, virt, flags, 0);
    lemma_or_zero(phys);
    lemma_or_zero(virt);
}

/// While the last directory entry refers to the directory itself, the page
/// table of every present entry is reached, page by page, at the address
/// that `get_table_linear_add` gives once paging is on, and the directory
/// itself at the very last page.
pub proof fn lemma_tables_reachable(dir: DirectoryView, index: u32)
    requires
        dir.wf(),
        dir.entries[RECURSIVE_INDEX as int].present(),
        index < ENTRIES,
        dir.entries[index as int].present(),
    ensures
        dir.translate((TABLES_BASE + (index << 12)) as u32) == Ok::<u32, VirtualMemoryError>(
            dir.entries[index as int].table_address(),
        ),
        dir.translate(DIRECTORY_LINEAR_ADDRESS) == Ok::<u32, VirtualMemoryError>(dir.frame),
        index < RECURSIVE_INDEX ==> dir.tables[index as int] is Some && dir.tables[index as int]->0.address
            == dir.entries[index as int].table_address(),
{
    lemma_recursive_address(index);
    lemma_recursive_address(1023);
    lemma_or_zero(dir.entries[index as int].table_address());
    lemma_or_zero(dir.frame);
    assert(0xFFC0_0000u32 + (1023u32 << 12) == 0xFFFF_F000u32) by (bit_vector);
}

/// The page directory together with the page tables it refers to.
///
/// Before paging is on the directory is reached at its physical address;
/// afterwards at the address that its own last entry maps it to.
pub struct PageDirectory {
    frame: u32,
    paging_enabled: bool,
    entries: Vec<PageDirectoryEntry>,
    tables: Vec<Option<PageTable>>,
}

/// What a slot of the directory holds, as a value.
pub open spec fn slot_view(slot: Option<PageTable>) -> Option<TableView> {
    match slot {
        Some(table) => Some(table@),
        None => None,
    }
}

impl PageDirectory {
    pub closed spec fn view(&self) -> DirectoryView {
        DirectoryView {
            frame: self.frame,
            paging_enabled: self.paging_enabled,
            entries: self.entries@,
            tables: Seq::new(self.tables@.len(), |d: int| slot_view(self.tables@[d])),
        }
    }

    pub open spec fn wf(&self) -> bool {
        self@.wf()
    }

    /// A directory in the frame at `frame`, with no entry present and paging off.
    pub fn new(frame: u32) -> (dir: PageDirectory)
        requires
            page_aligned(frame),
        ensures
            dir.wf(),
            dir@.frame == frame,
            !dir@.paging_enabled,
            forall|d: int| 0 <= d < ENTRIES ==> dir@.entries[d] == PageDirectoryEntry(0),
            forall|d: int| 0 <= d < ENTRIES ==> dir@.tables[d] is None,
    {
        let mut entries: Vec<PageDirectoryEntry> = Vec::new();
        let mut tables: Vec<Option<PageTable>> = Vec::new();
        let mut i: usize = 0;
        while i < ENTRIES
            invariant
                i <= ENTRIES,
                entries@.len() == i,
                tables@.len() == i,
                forall|k: int| 0 <= k < i ==> entries@[k] == PageDirectoryEntry(0),
                forall|k: int| 0 <= k < i ==> tables@[k] is None,
            decreases ENTRIES - i,
        {
            proof {
                lemma_zero_entry();
            }
            entries.push(PageDirectoryEntry::new(0, 0));
            tables.push(None);
            i += 1;
        }
        proof {
            lemma_zero_entry();
        }
        PageDirectory { frame, paging_enabled: false, entries, tables }
    }

    pub fn is_enabled(&self) -> (enabled: bool)
        ensures
            enabled == self@.paging_enabled,
    {
        self.paging_enabled
    }

    /// The address at which the directory is reached: its frame before paging
    /// is on, the end of the address space afterwards.
    pub fn address(&self) -> (address: u32)
        ensures
            address == if self@.paging_enabled {
                DIRECTORY_LINEAR_ADDRESS
            } else {
                self@.frame
            },
    {
        if self.paging_enabled {
            DIRECTORY_LINEAR_ADDRESS
        } else {
            self.frame
        }
    }

    pub fn ref_dir(&self) -> (entries: &Vec<PageDirectoryEntry>)
        ensures
            entries@ == self@.entries,
    {
        &self.entries
    }

    /// The page table held for entry `index`, if the entry is present.
    pub fn get_table(&self, index: usize) -> (table: Option<&PageTable>)
        requires
            self.wf(),
            index < RECURSIVE_INDEX,
        ensures
            match table {
                Some(t) => self@.entries[index as int].present() && self@.tables[index as int]
                    == Some(t@),
                None => !self@.entries[index as int].present(),
            },
    {
        if !self.entries[index].is_present() {
            return None;
        }
        assert(self@.tables[index as int] == slot_view(self.tables@[index as int]));
        self.tables[index].as_ref()
    }

    /// Sets every directory entry to zero: no entry is present.
    pub fn clear(&mut self)
        requires
            old(self)@.entries.len() == ENTRIES,
        ensures
            final(self)@ == (DirectoryView {
                entries: Seq::new(ENTRIES as nat, |d: int| PageDirectoryEntry(0)),
                ..old(self)@
            }),
    {
        let mut i: usize = 0;
        while i < ENTRIES
            invariant
                i <= ENTRIES,
                self.entries@.len() == ENTRIES,
                self.frame == old(self).frame,
                self.paging_enabled == old(self).paging_enabled,
                self.tables == old(self).tables,
                forall|k: int| 0 <= k < i ==> self.entries@[k] == PageDirectoryEntry(0),
            decreases ENTRIES - i,
        {
            proof {
                lemma_zero_entry();
            }
            self.entries.set(i, PageDirectoryEntry::new(0, 0));
            i += 1;
        }
        assert(self.entries@ =~= Seq::new(ENTRIES as nat, |d: int| PageDirectoryEntry(0)));
    }

    /// The address through which the page table of entry `offset` is
    /// reached: in the last four mebibytes once paging is on, at its
    /// physical address before.
    pub fn get_table_linear_add(&self, offset: usize) -> (address: u32)
        requires
            self@.entries.len() == ENTRIES,
            offset < ENTRIES,
        ensures
            address == if self@.paging_enabled {
                (TABLES_BASE + ((offset as u32) << 12)) as u32
            } else {
                self@.entries[offset as int].table_address()
            },
    {
        if self.is_enabled() {
            proof {
                lemma_recursive_address(offset as u32);
            }
            TABLES_BASE + ((offset as u32) << 12)
        } else {
            self.entries[offset].page_table_address()
        }
    }

    /// Writes directory entry `index`.
    pub fn set_entry(&mut self, index: usize, address: u32, flags: u32)
        requires
            index < old(self)@.entries.len(),
            page_aligned(address),
        ensures
            final(self)@ == old(self)@.with_entry(
                index as int,
                PageDirectoryEntry(address | flags),
            ),
    {
        self.entries.set(index, PageDirectoryEntry::new(address, flags));
    }

    /// Maps the page at `virtual_page_address` to the frame at
    /// `physical_page_address`, with `flags` in the low bits of the entry.
    ///
    /// Where the directory entry that covers the page is absent, a frame is
    /// taken from `bitmap` for a new page table.
    pub fn map_pages(
        &mut self,
        bitmap: &mut FrameManager,
        physical_page_address: u32,
        virtual_page_address: u32,
        flags: u32,
    ) -> (r: Result<(), VirtualMemoryError>)
        requires
            old(self).wf(),
            old(bitmap).wf(),
            page_aligned(physical_page_address),
            page_aligned(virtual_page_address),
            virtual_page_address < TABLES_BASE,
            !old(self)@.is_mapped(virtual_page_address),
        ensures
            final(self).wf(),
            final(bitmap).wf(),
            (final(self)@, final(bitmap)@, r) == map_pages_spec(
                old(self)@,
                old(bitmap)@,
                physical_page_address,
                virtual_page_address,
                flags,
            ),
    {
        proof {
            lemma_address_indices(virtual_page_address);
        }
        let d_offset: usize = (virtual_page_address >> 22) as usize;
        let t_offset: usize = ((virtual_page_address & 0x3F_F000) >> 12) as usize;

        if !self.entries[d_offset].is_present() {
            let page_table_add: u32 = match bitmap.alloc_frame() {
                Ok(address) => address,
                Err(e) => {
                    return Err(VirtualMemoryError::PhysicalMemoryError(e));
                },
            };
            proof {
                lemma_page_aligned(page_table_add);
                lemma_entry_fields(page_table_add, 0x3);
            }
            self.set_entry(d_offset, page_table_add, 0x3);
            self.tables.set(d_offset, Some(PageTable::new(page_table_add)));
            assert(self@.tables =~= old(self)@.with_table(
                d_offset as int,
                page_table_add,
            ).tables);
        }
        let ghost installed = self@;
        assert(self@.tables[d_offset as int] == slot_view(self.tables@[d_offset as int]));
        match &mut self.tables[d_offset] {
            Some(table) => {
                table.set_entry(t_offset, physical_page_address, flags);
            },
            None => {},
        }
        assert(self@.tables =~= installed.with_page(
            virtual_page_address,
            PageTableEntry(physical_page_address | flags),
        ).tables);
        Ok(())
    }

    /// Unmaps the page at `virtual_page_address` and gives its frame back to
    /// `bitmap`. The page table stays in place, also when it becomes empty.
    pub fn unmap_pages(&mut self, bitmap: &mut FrameManager, virtual_page_address: u32) -> (r:
        Result<(), VirtualMemoryError>)
        requires
            old(self).wf(),
            old(bitmap).wf(),
            page_aligned(virtual_page_address),
            virtual_page_address < TABLES_BASE,
            old(self)@.is_mapped(virtual_page_address),
            old(self)@.page_entry(virtual_page_address).frame_address() < RAM_SIZE,
        ensures
            final(self).wf(),
            final(bitmap).wf(),
            (final(self)@, final(bitmap)@, r) == unmap_pages_spec(
                old(self)@,
                old(bitmap)@,
                virtual_page_address,
            ),
    {
        proof {
            lemma_address_indices(virtual_page_address);
            lemma_zero_entry();
        }
        let d_offset: usize = (virtual_page_address >> 22) as usize;
        let t_offset: usize = ((virtual_page_address & 0x3F_F000) >> 12) as usize;
        assert(self@.tables[d_offset as int] == slot_view(self.tables@[d_offset as int]));
        let frame: u32 = match &self.tables[d_offset] {
            Some(table) => table.entries[t_offset].page_frame_address(),
            None => 0,
        };
        match bitmap.free_frame(frame) {
            Ok(()) => {},
            Err(e) => {
                return Err(VirtualMemoryError::PhysicalMemoryError(e));
            },
        }
        match &mut self.tables[d_offset] {
            Some(table) => {
                table.set_entry(t_offset, 0x0, 0x0);
            },
            None => {},
        }
        assert(self@.tables =~= old(self)@.with_page(
            virtual_page_address,
            PageTableEntry(0),
        ).tables);
        Ok(())
    }

    /// Maps the page at `virt` to the frame at `phys`, unless a page is
    /// already mapped there.
    pub fn map_page(&mut self, bitmap: &mut FrameManager, phys: u32, virt: u32, flags: u32) -> (r:
        Result<(), VirtualMemoryError>)
        requires
            old(self).wf(),
            old(bitmap).wf(),
            page_aligned(phys),
            page_aligned(virt),
            virt < TABLES_BASE,
        ensures
            final(self).wf(),
            final(bitmap).wf(),
            (final(self)@, final(bitmap)@, r) == if old(self)@.is_mapped(virt) {
                (
                    old(self)@,
                    old(bitmap)@,
                    Err::<(), VirtualMemoryError>(VirtualMemoryError::PageEntryAlreadyPresent),
                )
            } else {
                map_pages_spec(old(self)@, old(bitmap)@, phys, virt, flags)
            },
    {
        match self.translate(virt) {
            Ok(_) => Err(VirtualMemoryError::PageEntryAlreadyPresent),
            Err(_) => self.map_pages(bitmap, phys, virt, flags),
        }
    }

    /// Unmaps the page at `virt`, if one is mapped there, and gives its
    /// frame back to `bitmap` if the frame lies in physical memory.
    pub fn unmap_page(&mut self, bitmap: &mut FrameManager, virt: u32) -> (r: Result<
        (),
        VirtualMemoryError,
    >)
        requires
            old(self).wf(),
            old(bitmap).wf(),
            page_aligned(virt),
            virt < TABLES_BASE,
        ensures
            final(self).wf(),
            final(bitmap).wf(),
            (final(self)@, final(bitmap)@, r) == if old(self)@.translate(virt) is Err {
                (old(self)@, old(bitmap)@, Err::<(), VirtualMemoryError>(old(self)@.translate(virt)->Err_0))
            } else if old(self)@.page_entry(virt).frame_address() >= RAM_SIZE {
                (
                    old(self)@.with_page(virt, PageTableEntry(0)),
                    old(bitmap)@,
                    Ok::<(), VirtualMemoryError>(()),
                )
            } else {
                unmap_pages_spec(old(self)@, old(bitmap)@, virt)
            },
    {
        proof {
            lemma_address_indices(virt);
            lemma_zero_entry();
            lemma_or_zero(self@.page_entry(virt).frame_address());
        }
        match self.translate(virt) {
            Err(e) => Err(e),
            Ok(physical) => {
                if physical >= RAM_SIZE {
                    let d_offset: usize = (virt >> 22) as usize;
                    let t_offset: usize = ((virt & 0x3F_F000) >> 12) as usize;
                    assert(self@.tables[d_offset as int] == slot_view(
                        self.tables@[d_offset as int],
                    ));
                    match &mut self.tables[d_offset] {
                        Some(table) => {
                            table.set_entry(t_offset, 0x0, 0x0);
                        },
                        None => {},
                    }
                    assert(self@.tables =~= old(self)@.with_page(virt, PageTableEntry(0)).tables);
                    Ok(())
                } else {
                    self.unmap_pages(bitmap, virt)
                }
            },
        }
    }

    /// Maps the pages from `virtual_page_address` on to the frames from
    /// `physical_address_start` up to, but not including,
    /// `physical_address_end`, one after the other, up to the first that
    /// fails.
    pub fn map_range_pages(
        &mut self,
        bitmap: &mut FrameManager,
        physical_address_start: u32,
        physical_address_end: u32,
        virtual_page_address: u32,
        flags: u32,
    ) -> (r: Result<(), VirtualMemoryError>)
        requires
            old(self).wf(),
            old(bitmap).wf(),
            page_aligned(physical_address_start),
            page_aligned(virtual_page_address),
            physical_address_start <= physical_address_end ==> virtual_page_address + (
            physical_address_end - physical_address_start) <= TABLES_BASE,
        ensures
            final(self).wf(),
            final(bitmap).wf(),
            (final(self)@, final(bitmap)@, r) == map_range_spec(
                old(self)@,
                old(bitmap)@,
                physical_address_start,
                virtual_page_address,
                range_pages(physical_address_start, physical_address_end),
                flags,
            ),
    {
        let mut i: u32 = 0;
        proof {
            lemma_page_aligned(physical_address_start);
            lemma_page_aligned(virtual_page_address);
        }
        while physical_address_start < physical_address_end && i < (physical_address_end
            - physical_address_start - 1) / 4096 + 1
            invariant
                self.wf(),
                bitmap.wf(),
                physical_address_start % 4096 == 0,
                virtual_page_address % 4096 == 0,
                physical_address_start <= physical_address_end ==> virtual_page_address + (
                physical_address_end - physical_address_start) <= TABLES_BASE,
                i <= range_pages(physical_address_start, physical_address_end),
                map_range_spec(
                    old(self)@,
                    old(bitmap)@,
                    physical_address_start,
                    virtual_page_address,
                    range_pages(physical_address_start, physical_address_end),
                    flags,
                ) == map_range_spec(
                    self@,
                    bitmap@,
                    (physical_address_start + 4096 * i) as u32,
                    (virtual_page_address + 4096 * i) as u32,
                    (range_pages(physical_address_start, physical_address_end) - i) as nat,
                    flags,
                ),
            decreases range_pages(physical_address_start, physical_address_end) - i,
        {
            let phys: u32 = physical_address_start + i * 4096;
            let virt: u32 = virtual_page_address + i * 4096;
            proof {
                lemma_page_aligned(phys);
                lemma_page_aligned(virt);
            }
            match self.map_page(bitmap, phys, virt, flags) {
                Ok(()) => {},
                Err(e) => {
                    return Err(e);
                },
            }
            i += 1;
        }
        Ok(())
    }

    /// Every page that is mapped below the last directory entry, with the
    /// frame it is mapped to, in ascending order of the pages.
    pub fn list_mappings(&self) -> (mappings: Vec<(u32, u32)>)
        requires
            self.wf(),
        ensures
            forall|k: int|
                0 <= k < mappings@.len() ==> {
                    &&& page_aligned((#[trigger] mappings@[k]).0)
                    &&& mappings@[k].0 < TABLES_BASE
                    &&& self@.translate(mappings@[k].0) == Ok::<u32, VirtualMemoryError>(
                        mappings@[k].1,
                    )
                },
            forall|k: int, l: int|
                0 <= k < l < mappings@.len() ==> mappings@[k].0 < mappings@[l].0,
            forall|page: u32|
                page_aligned(page) && page < TABLES_BASE && self@.is_mapped(page)
                    ==> exists|k: int|
                    0 <= k < mappings@.len() && (#[trigger] mappings@[k]).0 == page,
    {
        let mut mappings: Vec<(u32, u32)> = Vec::new();
        let mut i: usize = 0;
        while i < RECURSIVE_INDEX
            invariant
                self.wf(),
                i <= RECURSIVE_INDEX,
                forall|k: int|
                    0 <= k < mappings@.len() ==> {
                        &&& page_aligned((#[trigger] mappings@[k]).0)
                        &&& mappings@[k].0 < (i as u32) * 0x40_0000
                        &&& self@.translate(mappings@[k].0) == Ok::<u32, VirtualMemoryError>(
                            mappings@[k].1,
                        )
                    },
                forall|k: int, l: int|
                    0 <= k < l < mappings@.len() ==> mappings@[k].0 < mappings@[l].0,
                forall|page: u32|
                    page_aligned(page) && page < (i as u32) * 0x40_0000 && self@.is_mapped(page)
                        ==> exists|k: int|
                        0 <= k < mappings@.len() && (#[trigger] mappings@[k]).0 == page,
            decreases RECURSIVE_INDEX - i,
        {
            if self.entries[i].is_present() {
                let mut j: usize = 0;
                while j < ENTRIES
                    invariant
                        self.wf(),
                        i < RECURSIVE_INDEX,
                        j <= ENTRIES,
                        self@.entries[i as int].present(),
                        forall|k: int|
                            0 <= k < mappings@.len() ==> {
                                &&& page_aligned((#[trigger] mappings@[k]).0)
                                &&& mappings@[k].0 < (i as u32) * 0x40_0000 + (j as u32) * 0x1000
                                &&& self@.translate(mappings@[k].0) == Ok::<
                                    u32,
                                    VirtualMemoryError,
                                >(mappings@[k].1)
                            },
                        forall|k: int, l: int|
                            0 <= k < l < mappings@.len() ==> mappings@[k].0 < mappings@[l].0,
                        forall|page: u32|
                            page_aligned(page) && page < (i as u32) * 0x40_0000 + (j as u32)
                                * 0x1000 && self@.is_mapped(page) ==> exists|k: int|
                                0 <= k < mappings@.len() && (#[trigger] mappings@[k]).0 == page,
                    decreases ENTRIES - j,
                {
                    let page: u32 = (i as u32) * 0x40_0000 + (j as u32) * 0x1000;
                    proof {
                        lemma_table_page(i as u32, j as u32);
                        lemma_page_aligned(page);
                    }
                    let ghost before = mappings@;
                    match self.translate(page) {
                        Ok(physical) => {
                            mappings.push((page, physical));
                            proof {
                                assert forall|other: u32|
                                    page_aligned(other) && other < page + 0x1000
                                        && self@.is_mapped(other) implies exists|k: int|
                                    0 <= k < mappings@.len() && (#[trigger] mappings@[k]).0
                                        == other by {
                                    lemma_page_aligned(other);
                                    if other < page {
                                        let k = choose|k: int|
                                            0 <= k < before.len() && (#[trigger] before[k]).0
                                                == other;
                                        assert(mappings@[k].0 == other);
                                    } else {
                                        assert(other == page);
                                        assert(mappings@[before.len() as int].0 == other);
                                    }
                                }
                            }
                        },
                        Err(_) => {
                            proof {
                                assert forall|other: u32|
                                    page_aligned(other) && other < page + 0x1000
                                        && self@.is_mapped(other) implies exists|k: int|
                                    0 <= k < mappings@.len() && (#[trigger] mappings@[k]).0
                                        == other by {
                                    lemma_page_aligned(other);
                                    if other < page {
                                        let k = choose|k: int|
                                            0 <= k < before.len() && (#[trigger] before[k]).0
                                                == other;
                                        assert(mappings@[k].0 == other);
                                    } else {
                                        assert(other == page);
                                    }
                                }
                            }
                        },
                    }
                    j += 1;
                }
            } else {
                proof {
                    assert forall|page: u32|
                        page_aligned(page) && page < (i as u32 + 1) * 0x40_0000
                            && self@.is_mapped(page) implies exists|k: int|
                        0 <= k < mappings@.len() && (#[trigger] mappings@[k]).0 == page by {
                        if page >= (i as u32) * 0x40_0000 {
                            lemma_directory_range(page, i as u32);
                        }
                    }
                }
            }
            i += 1;
        }
        mappings
    }

    /// Walks the directory and the page table for `address`, as the
    /// hardware does, and returns the physical address it arrives at.
    pub fn translate(&self, address: u32) -> (r: Result<u32, VirtualMemoryError>)
        requires
            self.wf(),
        ensures
            r == self@.translate(address),
    {
        proof {
            lemma_address_indices(address);
        }
        let d_offset: usize = (address >> 22) as usize;
        let t_offset: usize = ((address & 0x3F_F000) >> 12) as usize;
        let p_offset: u32 = address & 0xFFF;
        if !self.entries[d_offset].is_present() {
            return Err(VirtualMemoryError::DirectoryEntryAbsent);
        }
        assert(self@.tables[d_offset as int] == slot_view(self.tables@[d_offset as int]));
        let entry: PageTableEntry = if d_offset == RECURSIVE_INDEX {
            PageTableEntry(self.entries[t_offset].0)
        } else {
            match &self.tables[d_offset] {
                Some(table) => table.entries[t_offset],
                None => PageTableEntry(0),
            }
        };
        if !entry.is_present() {
            return Err(VirtualMemoryError::PageEntryAbsent);
        }
        Ok(entry.page_frame_address() | p_offset)
    }

    /// Makes the last directory entry refer to the directory itself, present
    /// and writable, so that the directory and its tables stay reachable
    /// once paging is on.
    pub fn set_recursive_entry(&mut self)
        requires
            old(self).wf(),
        ensures
            final(self).wf(),
            final(self)@ == old(self)@.with_entry(
                RECURSIVE_INDEX as int,
                PageDirectoryEntry(old(self)@.frame | 0x3),
            ),
            final(self)@.entries[RECURSIVE_INDEX as int].present(),
    {
        proof {
            lemma_entry_fields(self.frame, 0x3);
            lemma_page_flags();
        }
        let frame: u32 = self.frame;
        self.set_entry(RECURSIVE_INDEX, frame, 0x3);
    }

    /// Records that paging was switched on: from now on the directory is
    /// reached through its own last entry.
    pub fn activate(&mut self)
        requires
            old(self).wf(),
            old(self)@.entries[RECURSIVE_INDEX as int].present(),
        ensures
            final(self).wf(),
            final(self)@ == (DirectoryView { paging_enabled: true, ..old(self)@ }),
    {
        self.paging_enabled = true;
    }
}

} // verus!
