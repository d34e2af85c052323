//! The tag that holds the section headers of the kernel image.
//!
//! After the tag header come the number of sections, the size of a section
//! header and the index of the section that holds the names, four bytes
//! each, and then the section headers, ten words of four bytes each.

use crate::multiboot_info::{holds_tag, read_u32, tag_at, u32_at};
use vstd::prelude::*;

verus! {

/// Offset of the first section header in the tag.
pub const SECTIONS_OFFSET: usize = 20;

/// Number of bytes of a section header that are read.
pub const SECTION_BYTES: usize = 40;

#[derive(Debug, Copy, Clone, PartialEq, Eq, Structural)]
pub struct ElfSectionsTagInner {
    pub number_of_sections: u32,
    pub entry_size: u32,
    pub shndx: u32,
}

#[derive(Clone, Copy, Debug, PartialEq, Eq, Structural)]
pub struct ElfSectionInner {
    pub name_index: u32,
    pub typ: u32,
    pub flags: u32,
    pub addr: u32,
    pub offset: u32,
    pub size: u32,
    pub link: u32,
    pub info: u32,
    pub addralign: u32,
    pub entry_size: u32,
}

/// An enum abstraction over raw ELF section types.
#[derive(PartialEq, Eq, Debug, Copy, Clone, Structural)]
pub enum ElfSectionType {
    /// This value marks the section header as inactive; it does not have an
    /// associated section. Other members of the section header have undefined
    /// values.
    Unused,
    /// The section holds information defined by the program, whose format and
    /// meaning are determined solely by the program.
    ProgramSection,
    /// This section holds a linker symbol table.
    LinkerSymbolTable,
    /// The section holds a string table.
    StringTable,
    /// The section holds relocation entries with explicit addends.
    RelaRelocation,
    /// The section holds a symbol hash table.
    SymbolHashTable,
    /// The section holds dynamic linking tables.
    DynamicLinkingTable,
    /// This section holds information that marks the file in some way.
    Note,
    /// A section of this type occupies no space in the file but otherwise
    /// resembles `ProgramSection`.
    Uninitialized,
    /// The section holds relocation entries without explicit addends.
    RelRelocation,
    /// This section type is reserved but has unspecified semantics.
    Reserved,
    /// This section holds a dynamic loader symbol table.
    DynamicLoaderSymbolTable,
    /// Values from `0x6000_0000` up to `0x6FFF_FFFF` are reserved for
    /// environment-specific semantics.
    EnvironmentSpecific,
    /// Values from `0x7000_0000` up to `0x7FFF_FFFF` are reserved for
    /// processor-specific semantics.
    ProcessorSpecific,
}

/// Whether `typ` is the number of a section type.
pub open spec fn known_type(typ: u32) -> bool {
    typ <= 11 || 0x6000_0000 <= typ <= 0x7FFF_FFFF
}

/// The section type that the number `typ` stands for.
pub open spec fn type_of(typ: u32) -> ElfSectionType {
    if typ == 0 {
        ElfSectionType::Unused
    } else if typ == 1 {
        ElfSectionType::ProgramSection
    } else if typ == 2 {
        ElfSectionType::LinkerSymbolTable
    } else if typ == 3 {
        ElfSectionType::StringTable
    } else if typ == 4 {
        ElfSectionType::RelaRelocation
    } else if typ == 5 {
        ElfSectionType::SymbolHashTable
    } else if typ == 6 {
        ElfSectionType::DynamicLinkingTable
    } else if typ == 7 {
        ElfSectionType::Note
    } else if typ == 8 {
        ElfSectionType::Uninitialized
    } else if typ == 9 {
        ElfSectionType::RelRelocation
    } else if typ == 10 {
        ElfSectionType::Reserved
    } else if typ == 11 {
        ElfSectionType::DynamicLoaderSymbolTable
    } else if typ <= 0x6FFF_FFFF {
        ElfSectionType::EnvironmentSpecific
    } else {
        ElfSectionType::ProcessorSpecific
    }
}

/// The section header that lies at `offset`.
pub open spec fn section_at(bytes: Seq<u8>, offset: int) -> ElfSectionInner {
    ElfSectionInner {
        name_index: u32_at(bytes, offset),
        typ: u32_at(bytes, offset + 4),
        flags: u32_at(bytes, offset + 8),
        addr: u32_at(bytes, offset + 12),
        offset: u32_at(bytes, offset + 16),
        size: u32_at(bytes, offset + 20),
        link: u32_at(bytes, offset + 24),
        info: u32_at(bytes, offset + 28),
        addralign: u32_at(bytes, offset + 32),
        entry_size: u32_at(bytes, offset + 36),
    }
}

/// Number of section headers that lie whole in a tag of `size` bytes which
/// announces `number` headers of `entry_size` bytes each.
pub open spec fn section_count(size: u32, number: u32, entry_size: u32) -> int {
    if entry_size < SECTION_BYTES || size < SECTIONS_OFFSET {
        0
    } else if number <= (size - SECTIONS_OFFSET) / (entry_size as int) {
        number as int
    } else {
        (size - SECTIONS_OFFSET) / (entry_size as int)
    }
}

/// The ELF sections tag: its three numbers and its section headers.
#[derive(Debug)]
pub struct ElfSectionsTag {
    inner: ElfSectionsTagInner,
    headers: Vec<ElfSectionInner>,
}

/// A position in the section headers of a tag.
#[derive(Clone, Debug)]
pub struct ElfSectionIter {
    current_section: usize,
    remaining_sections: u32,
    entry_size: u32,
    string_section: u32,
}

/// A single generic ELF Section.
#[derive(Debug, Copy, Clone)]
pub struct ElfSection {
    inner: ElfSectionInner,
    string_section: u32,
}

impl ElfSectionsTag {
    /// The three numbers at the start of the tag.
    pub closed spec fn spec_inner(&self) -> ElfSectionsTagInner {
        self.inner
    }

    /// The section headers of the tag.
    pub closed spec fn view(&self) -> Seq<ElfSectionInner> {
        self.headers@
    }

    /// Whether this is what the tag at `offset` holds.
    pub open spec fn parsed_from(&self, bytes: Seq<u8>, offset: int) -> bool {
        &&& self.spec_inner() == (ElfSectionsTagInner {
            number_of_sections: u32_at(bytes, offset + 8),
            entry_size: u32_at(bytes, offset + 12),
            shndx: u32_at(bytes, offset + 16),
        })
        &&& self@.len() == section_count(
            tag_at(bytes, offset).size,
            self.spec_inner().number_of_sections,
            self.spec_inner().entry_size,
        )
        &&& forall|k: int|
            0 <= k < self@.len() ==> #[trigger] self@[k] == section_at(
                bytes,
                offset + SECTIONS_OFFSET + k * self.spec_inner().entry_size,
            )
    }

    /// Reads the ELF sections tag that lies at `elf_tag`.
    pub fn new(bytes: &Vec<u8>, elf_tag: usize) -> (tag: ElfSectionsTag)
        requires
            holds_tag(bytes@, elf_tag as int),
            tag_at(bytes@, elf_tag as int).size >= SECTIONS_OFFSET,
        ensures
            tag.parsed_from(bytes@, elf_tag as int),
    {
        let len: usize = bytes.len();
        let size: u32 = read_u32(bytes, elf_tag + 4);
        let inner = ElfSectionsTagInner {
            number_of_sections: read_u32(bytes, elf_tag + 8),
            entry_size: read_u32(bytes, elf_tag + 12),
            shndx: read_u32(bytes, elf_tag + 16),
        };
        let mut headers: Vec<ElfSectionInner> = Vec::new();
        if inner.entry_size < SECTION_BYTES as u32 {
            return ElfSectionsTag { inner, headers };
        }
        let room: u32 = (size - SECTIONS_OFFSET as u32) / inner.entry_size;
        let count: u32 = if inner.number_of_sections <= room {
            inner.number_of_sections
        } else {
            room
        };
        let mut k: u32 = 0;
        while k < count
            invariant
                k <= count,
                count == section_count(size, inner.number_of_sections, inner.entry_size),
                count <= (size - SECTIONS_OFFSET) / (inner.entry_size as int),
                inner.entry_size >= SECTION_BYTES,
                size == tag_at(bytes@, elf_tag as int).size,
                size >= SECTIONS_OFFSET,
                holds_tag(bytes@, elf_tag as int),
                len == bytes@.len(),
                headers@.len() == k,
                forall|j: int|
                    0 <= j < k ==> #[trigger] headers@[j] == section_at(
                        bytes@,
                        elf_tag + SECTIONS_OFFSET + j * inner.entry_size,
                    ),
            decreases count - k,
        {
            proof {
                assert((k + 1) * inner.entry_size <= count * inner.entry_size) by (nonlinear_arith)
                    requires
                        k + 1 <= count,
                        inner.entry_size >= 0,
                ;
                assert(count * inner.entry_size <= size - SECTIONS_OFFSET) by (nonlinear_arith)
                    requires
                        count <= (size - SECTIONS_OFFSET) / (inner.entry_size as int),
                        inner.entry_size > 0,
                        size - SECTIONS_OFFSET >= 0,
                ;
                assert(k * inner.entry_size + inner.entry_size == (k + 1) * inner.entry_size)
                    by (nonlinear_arith);
                assert(k * inner.entry_size >= 0) by (nonlinear_arith)
                    requires
                        k >= 0,
                        inner.entry_size >= 0,
                ;
            }
            let at: usize = elf_tag + SECTIONS_OFFSET + (k as usize) * (inner.entry_size as usize);
            headers.push(
                ElfSectionInner {
                    name_index: read_u32(bytes, at),
                    typ: read_u32(bytes, at + 4),
                    flags: read_u32(bytes, at + 8),
                    addr: read_u32(bytes, at + 12),
                    offset: read_u32(bytes, at + 16),
                    size: read_u32(bytes, at + 20),
                    link: read_u32(bytes, at + 24),
                    info: read_u32(bytes, at + 28),
                    addralign: read_u32(bytes, at + 32),
                    entry_size: read_u32(bytes, at + 36),
                },
            );
            k += 1;
        }
        ElfSectionsTag { inner, headers }
    }

    pub fn get(&self) -> (inner: &ElfSectionsTagInner)
        ensures
            *inner == self.spec_inner(),
    {
        &self.inner
    }

    pub fn get_number_of_sections(&self) -> (number: u32)
        ensures
            number == self.spec_inner().number_of_sections,
    {
        self.get().number_of_sections
    }

    pub fn get_entry_size(&self) -> (size: u32)
        ensures
            size == self.spec_inner().entry_size,
    {
        self.get().entry_size
    }

    pub fn get_shndx(&self) -> (index: u32)
        ensures
            index == self.spec_inner().shndx,
    {
        self.get().shndx
    }

    /// Address of the section that holds the names of the sections, or zero
    /// where the tag names no such section.
    pub fn string_table(&self) -> (address: u32)
        ensures
            address == if self.spec_inner().shndx < self@.len() {
                self@[self.spec_inner().shndx as int].addr
            } else {
                0
            },
    {
        if (self.inner.shndx as usize) < self.headers.len() {
            self.headers[self.inner.shndx as usize].addr
        } else {
            0
        }
    }

    /// The position of the first section header: every section that the tag
    /// announces is still to come, and the sections that are found there
    /// will name the string table of the tag as theirs.
    pub fn sections(&self) -> (iter: ElfSectionIter)
        ensures
            iter.position() == 0,
            iter.remaining() == self.spec_inner().number_of_sections,
            iter.spec_entry_size() == self.spec_inner().entry_size,
            iter.spec_string_section() == if self.spec_inner().shndx < self@.len() {
                self@[self.spec_inner().shndx as int].addr
            } else {
                0
            },
    {
        ElfSectionIter {
            current_section: 0,
            remaining_sections: self.inner.number_of_sections,
            entry_size: self.inner.entry_size,
            string_section: self.string_table(),
        }
    }
}

/// Index of the first zero byte of `strings` from `from` on, or its length.
pub open spec fn name_end(strings: Seq<u8>, from: int) -> int
    decreases strings.len() - from,
{
    if 0 <= from < strings.len() && strings[from] != 0 {
        name_end(strings, from + 1)
    } else if from < strings.len() {
        from
    } else {
        strings.len() as int
    }
}

/// The name that begins at `from` in `strings`: the bytes up to the next
/// zero byte; empty if `from` lies outside.
pub open spec fn name_at(strings: Seq<u8>, from: int) -> Seq<u8> {
    if 0 <= from <= strings.len() {
        strings.subrange(from, name_end(strings, from))
    } else {
        Seq::empty()
    }
}

/// Index of the first section header from `from` on that is in use, or the
/// number of headers if there is none.
pub open spec fn next_used(headers: Seq<ElfSectionInner>, from: int) -> int
    decreases headers.len() - from,
{
    if from < 0 || from >= headers.len() {
        headers.len() as int
    } else if headers[from].typ != 0 {
        from
    } else {
        next_used(headers, from + 1)
    }
}

impl ElfSectionIter {
    /// Index of the section header at which the search goes on.
    pub closed spec fn position(&self) -> int {
        self.current_section as int
    }

    /// Number of sections that the tag announced and that were not passed
    /// yet.
    pub closed spec fn remaining(&self) -> int {
        self.remaining_sections as int
    }

    /// Size of a section header in the tag.
    pub closed spec fn spec_entry_size(&self) -> u32 {
        self.entry_size
    }

    /// Address of the table that holds the names of the sections.
    pub closed spec fn spec_string_section(&self) -> u32 {
        self.string_section
    }

    /// Number of sections that the tag announced and that were not passed
    /// yet.
    pub fn remaining_sections(&self) -> (remaining: u32)
        ensures
            remaining == self.remaining(),
    {
        self.remaining_sections
    }

    /// The next section that is in use, unless the sections have ended;
    /// moves on past it. Every header that is passed, in use or not, counts
    /// against the sections that remain.
    pub fn next(&mut self, tag: &ElfSectionsTag) -> (section: Option<ElfSection>)
        requires
            0 <= old(self).position() <= tag@.len(),
        ensures
            0 <= final(self).position() <= tag@.len(),
            final(self).spec_entry_size() == old(self).spec_entry_size(),
            final(self).spec_string_section() == old(self).spec_string_section(),
            final(self).remaining() == if old(self).remaining() >= final(self).position() - old(
                self,
            ).position() {
                old(self).remaining() - (final(self).position() - old(self).position())
            } else {
                0
            },
            section matches Some(s) ==> s.spec_string_table() == old(self).spec_string_section(),
            match section {
                Some(s) => next_used(tag@, old(self).position()) < tag@.len() && s.get_spec()
                    == tag@[next_used(tag@, old(self).position())] && final(self).position()
                    == next_used(tag@, old(self).position()) + 1,
                None => next_used(tag@, old(self).position()) == tag@.len()
                    && final(self).position() == tag@.len(),
            },
    {
        while self.current_section < tag.headers.len()
            invariant
                0 <= self.current_section <= tag@.len(),
                old(self).current_section <= self.current_section,
                self.string_section == old(self).string_section,
                self.entry_size == old(self).entry_size,
                self.remaining_sections == if old(self).remaining_sections >= self.current_section
                    - old(self).current_section {
                    old(self).remaining_sections - (self.current_section - old(
                        self,
                    ).current_section)
                } else {
                    0
                },
                next_used(tag@, old(self).position()) == next_used(tag@, self.position()),
            decreases tag@.len() - self.current_section,
        {
            let section = ElfSection {
                inner: tag.headers[self.current_section],
                string_section: self.string_section,
            };
            self.current_section += 1;
            if self.remaining_sections > 0 {
                self.remaining_sections -= 1;
            }
            if section.inner.typ != 0 {
                return Some(section);
            }
        }
        None
    }
}

impl ElfSection {
    /// The header of the section.
    pub closed spec fn get_spec(&self) -> ElfSectionInner {
        self.inner
    }

    /// Address of the table that holds the names of the sections.
    pub closed spec fn spec_string_table(&self) -> u32 {
        self.string_section
    }

    /// Get the section type as a `ElfSectionType` enum variant.
    pub fn section_type(&self) -> (t: ElfSectionType)
        requires
            known_type(self.get_spec().typ),
        ensures
            t == type_of(self.get_spec().typ),
    {
        let typ: u32 = self.inner.typ;
        if typ == 0 {
            ElfSectionType::Unused
        } else if typ == 1 {
            ElfSectionType::ProgramSection
        } else if typ == 2 {
            ElfSectionType::LinkerSymbolTable
        } else if typ == 3 {
            ElfSectionType::StringTable
        } else if typ == 4 {
            ElfSectionType::RelaRelocation
        } else if typ == 5 {
            ElfSectionType::SymbolHashTable
        } else if typ == 6 {
            ElfSectionType::DynamicLinkingTable
        } else if typ == 7 {
            ElfSectionType::Note
        } else if typ == 8 {
            ElfSectionType::Uninitialized
        } else if typ == 9 {
            ElfSectionType::RelRelocation
        } else if typ == 10 {
            ElfSectionType::Reserved
        } else if typ == 11 {
            ElfSectionType::DynamicLoaderSymbolTable
        } else if typ <= 0x6FFF_FFFF {
            ElfSectionType::EnvironmentSpecific
        } else {
            ElfSectionType::ProcessorSpecific
        }
    }

    /// Read the name of the section out of the string table `strings`: the
    /// bytes from the name index of the section up to the next zero byte.
    pub fn name(&self, strings: &Vec<u8>) -> (name: Vec<u8>)
        ensures
            name@ == name_at(strings@, self.get_spec().name_index as int),
    {
        let mut name: Vec<u8> = Vec::new();
        let first: usize = self.inner.name_index as usize;
        if first > strings.len() {
            return name;
        }
        let mut i: usize = first;
        assert(name@ =~= strings@.subrange(first as int, i as int));
        while i < strings.len() && strings[i] != 0
            invariant
                first <= i <= strings@.len(),
                name@ == strings@.subrange(first as int, i as int),
                name_end(strings@, first as int) == name_end(strings@, i as int),
            decreases strings@.len() - i,
        {
            name.push(strings[i]);
            assert(name@ =~= strings@.subrange(first as int, i + 1));
            i += 1;
        }
        name
    }

    /// Whether the type of the section is one that `section_type` knows.
    pub fn has_known_type(&self) -> (known: bool)
        ensures
            known == known_type(self.get_spec().typ),
    {
        self.inner.typ <= 11 || (0x6000_0000 <= self.inner.typ && self.inner.typ <= 0x7FFF_FFFF)
    }

    pub fn get(&self) -> (inner: &ElfSectionInner)
        ensures
            *inner == self.get_spec(),
    {
        &self.inner
    }

    /// Address of the table that holds the names of the sections.
    pub fn string_table(&self) -> (address: u32)
        ensures
            address == self.spec_string_table(),
    {
        self.string_section
    }
}

} // verus!
