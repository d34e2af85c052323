//! The tag that holds the memory map.
//!
//! After the tag header come the size and the version of an entry, four
//! bytes each, and then the entries: base address and length, eight bytes
//! each, then type and a reserved word, four bytes each.

use crate::multiboot_info::{holds_tag, read_u32, read_u64, tag_at, u32_at, u64_at, Tag};
use vstd::prelude::*;

verus! {

/// Type of an entry that describes available memory.
pub const AVAILABLE: u32 = 1;

/// Size of an entry in bytes.
pub const ENTRY_BYTES: usize = 24;

/// Offset of the first entry in the tag.
pub const FIRST_ENTRY: usize = 16;

#[derive(Debug, Copy, Clone, PartialEq, Eq, Structural)]
pub struct MemoryMapTag {
    pub typ: u32,
    pub size: u32,
    pub entry_size: u32,
    pub entry_version: u32,
}

#[derive(Debug, Copy, Clone, PartialEq, Eq, Structural)]
pub struct MemoryMapEntry {
    pub base_addr: u64,
    pub length: u64,
    pub typ: u32,
    pub reserved: u32,
}

impl MemoryMapEntry {
    /// Whether the entry describes memory that the kernel may use.
    pub fn is_available(&self) -> (available: bool)
        ensures
            available == (self.typ == AVAILABLE),
    {
        self.typ == AVAILABLE
    }
}

/// The entry that lies at `offset`.
pub open spec fn entry_at(bytes: Seq<u8>, offset: int) -> MemoryMapEntry {
    MemoryMapEntry {
        base_addr: u64_at(bytes, offset),
        length: u64_at(bytes, offset + 8),
        typ: u32_at(bytes, offset + 16),
        reserved: u32_at(bytes, offset + 20),
    }
}

/// Number of whole entries in a memory map tag of `size` bytes.
pub open spec fn entry_count(size: u32) -> int {
    (size - FIRST_ENTRY) / (ENTRY_BYTES as int)
}

/// The entries of the memory map tag that lies at `offset`.
pub open spec fn entries_of(bytes: Seq<u8>, offset: int) -> Seq<MemoryMapEntry> {
    Seq::new(
        entry_count(tag_at(bytes, offset).size) as nat,
        |i: int| entry_at(bytes, offset + FIRST_ENTRY + i * ENTRY_BYTES),
    )
}

/// The memory map: the header of its tag and its entries.
#[derive(Debug)]
pub struct MemoryMap {
    pub tag: MemoryMapTag,
    pub entries: Vec<MemoryMapEntry>,
}

/// A position in the entries of a memory map.
#[derive(Debug, Copy, Clone)]
pub struct MemoryMapIntoIter {
    pub inner: usize,
    pub end: usize,
}

impl MemoryMap {
    /// The entries of the map.
    pub open spec fn view(&self) -> Seq<MemoryMapEntry> {
        self.entries@
    }

    /// The position of the first entry.
    pub fn into_iter(&self) -> (iter: MemoryMapIntoIter)
        ensures
            iter.inner == 0,
            iter.end == self@.len(),
    {
        MemoryMapIntoIter { inner: 0, end: self.entries.len() }
    }
}

impl MemoryMapIntoIter {
    /// The entry at the current position, unless the entries have ended;
    /// moves on to the entry that follows.
    pub fn next(&mut self, map: &MemoryMap) -> (entry: Option<MemoryMapEntry>)
        ensures
            entry == if old(self).inner < old(self).end && old(self).inner < map@.len() {
                Some(map@[old(self).inner as int])
            } else {
                None
            },
            final(self).end == old(self).end,
            final(self).inner == if entry is Some {
                old(self).inner + 1
            } else {
                old(self).inner as int
            },
    {
        if self.inner >= self.end || self.inner >= map.entries.len() {
            None
        } else {
            let ret = map.entries[self.inner];
            self.inner = self.inner + 1;
            Some(ret)
        }
    }
}

/// Reads the memory map tag that lies at `offset`.
pub fn read_memory_map(bytes: &Vec<u8>, offset: usize, tag: Tag) -> (map: MemoryMap)
    requires
        holds_tag(bytes@, offset as int),
        tag == tag_at(bytes@, offset as int),
        tag.size >= FIRST_ENTRY,
    ensures
        map@ == entries_of(bytes@, offset as int),
        map.tag == (MemoryMapTag {
            typ: tag.typ,
            size: tag.size,
            entry_size: u32_at(bytes@, offset + 8),
            entry_version: u32_at(bytes@, offset + 12),
        }),
{
    let len: usize = bytes.len();
    let header = MemoryMapTag {
        typ: tag.typ,
        size: tag.size,
        entry_size: read_u32(bytes, offset + 8),
        entry_version: read_u32(bytes, offset + 12),
    };
    let count: usize = (tag.size as usize - FIRST_ENTRY) / ENTRY_BYTES;
    let mut entries: Vec<MemoryMapEntry> = Vec::new();
    let mut i: usize = 0;
    while i < count
        invariant
            i <= count,
            count == entry_count(tag.size),
            holds_tag(bytes@, offset as int),
            tag == tag_at(bytes@, offset as int),
            tag.size >= FIRST_ENTRY,
            len == bytes@.len(),
            entries@.len() == i,
            forall|k: int|
                0 <= k < i ==> #[trigger] entries@[k] == entry_at(
                    bytes@,
                    offset + FIRST_ENTRY + k * ENTRY_BYTES,
                ),
        decreases count - i,
    {
        let at: usize = offset + FIRST_ENTRY + i * ENTRY_BYTES;
        entries.push(
            MemoryMapEntry {
                base_addr: read_u64(bytes, at),
                length: read_u64(bytes, at + 8),
                typ: read_u32(bytes, at + 16),
                reserved: read_u32(bytes, at + 20),
            },
        );
        i += 1;
    }
    assert(entries@ =~= entries_of(bytes@, offset as int));
    MemoryMap { tag: header, entries }
}

} // verus!
