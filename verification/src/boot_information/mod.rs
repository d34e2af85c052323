//! Looking up tags of the boot information by their type.

pub mod elf_sections;

use crate::boot_information::elf_sections::{ElfSectionsTag, SECTIONS_OFFSET};
use crate::multiboot_info::{find_tag, tag_at, MultibootInfo, Tag, HEADER_BYTES, TAG_ELF_SECTIONS};
use vstd::prelude::*;

verus! {

/// The boot information, searched tag by tag.
pub struct BootInformation {
    pub boot_info_header: MultibootInfo,
}

impl BootInformation {
    /// Header of the first tag of type `typ`.
    pub fn get_tag(&self, typ: u32) -> (tag: Option<Tag>)
        ensures
            tag == match find_tag(self.boot_info_header.block@, HEADER_BYTES as int, typ) {
                Some(offset) => Some(tag_at(self.boot_info_header.block@, offset)),
                None => None,
            },
    {
        match self.boot_info_header.get_tag(typ) {
            Some((_, tag)) => Some(tag),
            None => None,
        }
    }

    /// Search for the ELF Sections tag.
    pub fn elf_sections_tag(&self) -> (tag: Option<ElfSectionsTag>)
        ensures
            tag is Some <==> (find_tag(
                self.boot_info_header.block@,
                HEADER_BYTES as int,
                TAG_ELF_SECTIONS,
            ) matches Some(offset) && tag_at(self.boot_info_header.block@, offset).size
                >= SECTIONS_OFFSET),
            tag matches Some(t) ==> t.parsed_from(
                self.boot_info_header.block@,
                find_tag(self.boot_info_header.block@, HEADER_BYTES as int, TAG_ELF_SECTIONS)->0,
            ),
    {
        match self.boot_info_header.get_tag(TAG_ELF_SECTIONS) {
            Some((offset, tag)) => {
                if tag.size < SECTIONS_OFFSET as u32 {
                    return None;
                }
                Some(ElfSectionsTag::new(&self.boot_info_header.block, offset))
            },
            None => None,
        }
    }
}

} // verus!
