use kfs::boot_information::elf_sections::ElfSectionType;
use kfs::boot_information::BootInformation;
use kfs::multiboot_info::framebuffer::FramebufferTag;
use kfs::multiboot_info::memory_map::MemoryMapEntry;
use kfs::multiboot_info::{is_multiboot2, read_u32, read_u64, MultibootInfo, Tag};
use kfs::physical_memory_management::FrameManager;
use kfs::virtual_memory_management::page_structs::{PageDirectory, VirtualMemoryError};
use kfs::virtual_memory_management::{init, PAGE_DIR_ADDRESS};

fn put_u32(block: &mut Vec<u8>, value: u32) {
    block.extend_from_slice(&value.to_le_bytes());
}

fn put_u64(block: &mut Vec<u8>, value: u64) {
    block.extend_from_slice(&value.to_le_bytes());
}

fn pad(block: &mut Vec<u8>) {
    while block.len() % 8 != 0 {
        block.push(0);
    }
}

fn memory_map_tag(block: &mut Vec<u8>, entries: &[(u64, u64, u32)]) {
    put_u32(block, 6);
    put_u32(block, 16 + 24 * entries.len() as u32);
    put_u32(block, 24);
    put_u32(block, 0);
    for (base, length, typ) in entries {
        put_u64(block, *base);
        put_u64(block, *length);
        put_u32(block, *typ);
        put_u32(block, 0);
    }
    pad(block);
}

fn framebuffer_tag(block: &mut Vec<u8>) {
    put_u32(block, 8);
    put_u32(block, 31);
    put_u64(block, 0xb8000);
    put_u32(block, 160);
    put_u32(block, 80);
    put_u32(block, 25);
    block.push(16);
    block.push(2);
    block.push(0);
    pad(block);
}

fn elf_tag(block: &mut Vec<u8>, types: &[u32]) {
    put_u32(block, 9);
    put_u32(block, 20 + 40 * types.len() as u32);
    put_u32(block, types.len() as u32);
    put_u32(block, 40);
    put_u32(block, 1);
    for (i, typ) in types.iter().enumerate() {
        put_u32(block, i as u32);
        put_u32(block, *typ);
        put_u32(block, 0);
        put_u32(block, 0x10_0000 + 0x1000 * i as u32);
        for _ in 0..6 {
            put_u32(block, 0);
        }
    }
    pad(block);
}

fn end_tag(block: &mut Vec<u8>) {
    put_u32(block, 0);
    put_u32(block, 8);
}

fn finish(mut block: Vec<u8>) -> MultibootInfo {
    let total = block.len() as u32;
    block[0..4].copy_from_slice(&total.to_le_bytes());
    MultibootInfo::new(0x9000, block)
}

fn sample_block() -> MultibootInfo {
    let mut block = vec![0u8; 8];
    // a tag that no one looks for, with a size that needs padding
    put_u32(&mut block, 1);
    put_u32(&mut block, 13);
    block.extend_from_slice(b"quiet");
    pad(&mut block);
    memory_map_tag(
        &mut block,
        &[(0x0, 0xA0000, 1), (0xA0000, 0x60000, 2), (0x10_0000, 0x7F0_0000, 1)],
    );
    framebuffer_tag(&mut block);
    elf_tag(&mut block, &[0, 3, 1, 0, 8]);
    end_tag(&mut block);
    finish(block)
}

#[test]
fn magic_number_is_checked() {
    assert!(is_multiboot2(0x36d76289));
    assert!(!is_multiboot2(0x2BADB002));
}

#[test]
fn numbers_are_little_endian() {
    let bytes = vec![0x78, 0x56, 0x34, 0x12, 0xf0, 0xde, 0xbc, 0x9a];
    assert_eq!(read_u32(&bytes, 0), 0x12345678);
    assert_eq!(read_u32(&bytes, 4), 0x9abcdef0);
    assert_eq!(read_u64(&bytes, 0), 0x9abcdef012345678);
}

#[test]
fn tags_are_walked_up_to_the_end_tag() {
    let info = sample_block();
    let tags = info.tags();
    assert_eq!(
        tags,
        vec![
            Tag { typ: 1, size: 13 },
            Tag { typ: 6, size: 16 + 3 * 24 },
            Tag { typ: 8, size: 31 },
            Tag { typ: 9, size: 20 + 5 * 40 },
        ]
    );
    assert_eq!(info.fixed_part().unwrap().total_size as usize, info.block.len());
}

#[test]
fn iterator_rounds_sizes_up_to_eight() {
    let info = sample_block();
    let mut iter = info.into_iter();
    assert_eq!(iter.next(&info), Some((8, Tag { typ: 1, size: 13 })));
    assert_eq!(iter.inner, 24);
    assert_eq!(iter.next(&info), Some((24, Tag { typ: 6, size: 88 })));
    assert_eq!(iter.inner, 112);
    assert_eq!(iter.next(&info), Some((112, Tag { typ: 8, size: 31 })));
    assert_eq!(iter.inner, 144);
}

#[test]
fn memory_map_entries_are_read() {
    let info = sample_block();
    let map = info.get_memory_map().unwrap();
    assert_eq!(map.tag.entry_size, 24);
    assert_eq!(
        map.entries,
        vec![
            MemoryMapEntry { base_addr: 0x0, length: 0xA0000, typ: 1, reserved: 0 },
            MemoryMapEntry { base_addr: 0xA0000, length: 0x60000, typ: 2, reserved: 0 },
            MemoryMapEntry { base_addr: 0x10_0000, length: 0x7F0_0000, typ: 1, reserved: 0 },
        ]
    );
    let mut iter = map.into_iter();
    assert!(iter.next(&map).unwrap().is_available());
    assert!(!iter.next(&map).unwrap().is_available());
    assert!(iter.next(&map).is_some());
    assert!(iter.next(&map).is_none());
}

#[test]
fn framebuffer_is_read() {
    let info = sample_block();
    assert_eq!(
        info.get_framebuffer(),
        Some(FramebufferTag {
            typ: 8,
            size: 31,
            framebuffer_addr: 0xb8000,
            framebuffer_pitch: 160,
            framebuffer_width: 80,
            framebuffer_height: 25,
            framebuffer_bpp: 16,
            framebuffer_type: 2,
            reserved: 0,
        })
    );
}

#[test]
fn absent_tags_are_reported_as_absent() {
    let mut block = vec![0u8; 8];
    end_tag(&mut block);
    let info = finish(block);
    assert!(info.tags().is_empty());
    assert!(info.get_memory_map().is_none());
    assert!(info.get_framebuffer().is_none());
    assert!(info.get_tag(9).is_none());
}

#[test]
fn tags_behind_the_end_tag_are_not_seen() {
    let mut block = vec![0u8; 8];
    end_tag(&mut block);
    framebuffer_tag(&mut block);
    let info = finish(block);
    assert!(info.get_framebuffer().is_none());
}

#[test]
fn a_tag_that_leaves_the_block_ends_the_walk() {
    let mut block = vec![0u8; 8];
    framebuffer_tag(&mut block);
    put_u32(&mut block, 6);
    put_u32(&mut block, 4000);
    let info = finish(block);
    assert_eq!(info.tags(), vec![Tag { typ: 8, size: 31 }]);
    assert!(info.get_memory_map().is_none());
    // a size below that of a tag header would never move on
    let mut block = vec![0u8; 8];
    put_u32(&mut block, 5);
    put_u32(&mut block, 0);
    framebuffer_tag(&mut block);
    end_tag(&mut block);
    let info = finish(block);
    assert!(info.tags().is_empty());
    assert!(MultibootInfo::new(0, Vec::new()).tags().is_empty());
}

#[test]
fn elf_sections_skip_unused_headers() {
    let boot = BootInformation { boot_info_header: sample_block() };
    assert_eq!(boot.get_tag(9), Some(Tag { typ: 9, size: 220 }));
    let tag = boot.elf_sections_tag().unwrap();
    assert_eq!(tag.get_number_of_sections(), 5);
    assert_eq!(tag.get_entry_size(), 40);
    assert_eq!(tag.get_shndx(), 1);
    assert_eq!(tag.string_table(), 0x10_1000);
    let mut iter = tag.sections();
    assert_eq!(iter.remaining_sections(), 5);
    let first = iter.next(&tag).unwrap();
    // the unused header in front of it was passed as well
    assert_eq!(iter.remaining_sections(), 3);
    assert_eq!(first.section_type(), ElfSectionType::StringTable);
    assert_eq!(first.get().name_index, 1);
    assert_eq!(first.string_table(), 0x10_1000);
    let second = iter.next(&tag).unwrap();
    assert_eq!(second.section_type(), ElfSectionType::ProgramSection);
    let third = iter.next(&tag).unwrap();
    assert_eq!(third.section_type(), ElfSectionType::Uninitialized);
    assert_eq!(third.get().addr, 0x10_4000);
    assert_eq!(third.string_table(), 0x10_1000);
    assert_eq!(iter.remaining_sections(), 0);
    assert!(iter.next(&tag).is_none());
    assert_eq!(iter.remaining_sections(), 0);
}

#[test]
fn section_types_cover_the_reserved_ranges() {
    let mut block = vec![0u8; 8];
    elf_tag(&mut block, &[0x6000_0000, 0x6FFF_FFFF, 0x7000_0000, 11, 12]);
    end_tag(&mut block);
    let boot = BootInformation { boot_info_header: finish(block) };
    let tag = boot.elf_sections_tag().unwrap();
    let mut iter = tag.sections();
    assert_eq!(iter.next(&tag).unwrap().section_type(), ElfSectionType::EnvironmentSpecific);
    assert_eq!(iter.next(&tag).unwrap().section_type(), ElfSectionType::EnvironmentSpecific);
    assert_eq!(iter.next(&tag).unwrap().section_type(), ElfSectionType::ProcessorSpecific);
    let known = iter.next(&tag).unwrap();
    assert!(known.has_known_type());
    assert_eq!(known.section_type(), ElfSectionType::DynamicLoaderSymbolTable);
    assert!(!iter.next(&tag).unwrap().has_known_type());
}

#[test]
fn reserved_memory_is_never_handed_out() {
    let info = sample_block();
    let map = info.get_memory_map().unwrap();
    let mut bitmap = FrameManager::new();
    bitmap.import_memory_map(&map);
    assert!(bitmap.is_available(0x9F000));
    assert!(!bitmap.is_available(0xA0000));
    assert!(!bitmap.is_available(0xFF000));
    assert!(bitmap.is_available(0x10_0000));
}

#[test]
fn ranges_are_widened_to_whole_frames() {
    let mut bitmap = FrameManager::new();
    bitmap.reserve_range(0x1800, 0x1001);
    assert!(bitmap.is_available(0x0));
    assert!(!bitmap.is_available(0x1000));
    assert!(!bitmap.is_available(0x2000));
    assert!(bitmap.is_available(0x3000));
    bitmap.reserve_range(0x5000, 0);
    assert!(bitmap.is_available(0x5000));
    bitmap.reserve_range(0x7FF_F000, u64::MAX);
    assert!(!bitmap.is_available(0x7FF_F000));
    assert!(bitmap.is_available(0x7FF_E000));
    bitmap.reserve_range(0x1_0000_0000, 0x1000);
    assert_eq!(bitmap.alloc_frame(), Ok(0x0));
}

#[test]
fn boot_reserves_and_maps_what_the_kernel_needs() {
    let info = sample_block();
    assert!(is_multiboot2(0x36d76289));
    let map = info.get_memory_map().unwrap();
    let mut bitmap = FrameManager::new();
    let mut dir = PageDirectory::new(PAGE_DIR_ADDRESS);
    let multiboot_frame = info.inner & !0xFFF;
    assert_eq!(
        init(true, 0x10_0000, 0x12_3000, multiboot_frame, &map, &mut dir, &mut bitmap),
        Ok(())
    );
    assert!(!bitmap.is_available(0xA0000));
    assert!(!bitmap.is_available(0x10_0000));
    assert!(!bitmap.is_available(0x12_3000));
    assert!(bitmap.is_available(0x12_4000));
    assert!(bitmap.is_available(0x20_0000));
    assert!(!bitmap.is_available(0x0));
    assert!(!bitmap.is_available(0xb8000));
    assert!(!bitmap.is_available(0x9000));
    // the one page table that all of this needed took the lowest free frame
    assert!(!bitmap.is_available(0x1000));
    assert!(bitmap.is_available(0x2000));
    assert_eq!(dir.translate(0x10_0abc), Ok(0x10_0abc));
    assert_eq!(dir.translate(0x12_3fff), Ok(0x12_3fff));
    assert_eq!(dir.translate(0xb8000), Ok(0xb8000));
    assert_eq!(dir.translate(0x9004), Ok(0x9004));
    assert_eq!(dir.translate(0x12_4000), Err(VirtualMemoryError::PageEntryAbsent));
    assert_eq!(dir.translate(0x4000_0000), Err(VirtualMemoryError::DirectoryEntryAbsent));
    assert!(!dir.is_enabled());
    dir.activate();
    assert!(dir.is_enabled());
    assert_eq!(dir.translate(0xFFFF_F000), Ok(PAGE_DIR_ADDRESS));
    assert_eq!(dir.translate(0xFFC0_0000), Ok(0x1000));
    let mappings = dir.list_mappings();
    assert_eq!(mappings.len(), 1 + 1 + 1 + 0x24);
    assert_eq!(mappings[0], (0x0, 0x0));
    assert_eq!(mappings[1], (0x9000, 0x9000));
    assert_eq!(mappings[2], (0xb8000, 0xb8000));
    assert_eq!(mappings[3], (0x10_0000, 0x10_0000));
}

#[test]
fn boot_without_paging_only_reserves() {
    let info = sample_block();
    let map = info.get_memory_map().unwrap();
    let mut bitmap = FrameManager::new();
    let mut dir = PageDirectory::new(PAGE_DIR_ADDRESS);
    assert_eq!(init(false, 0x10_0000, 0x10_2000, 0x9000, &map, &mut dir, &mut bitmap), Ok(()));
    assert!(!bitmap.is_available(0x0));
    assert!(!bitmap.is_available(0xb8000));
    assert!(!bitmap.is_available(0x10_0000));
    assert!(!bitmap.is_available(0x10_2000));
    assert!(bitmap.is_available(0x10_3000));
    assert!(!bitmap.is_available(0x9000));
    assert!(bitmap.is_available(0x1000));
    assert!(dir.list_mappings().is_empty());
    assert_eq!(dir.translate(0x0), Err(VirtualMemoryError::DirectoryEntryAbsent));
}
