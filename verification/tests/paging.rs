use kfs::physical_memory_management::{FrameManager, PhysicalMemoryError};
use kfs::virtual_memory_management::page_structs::{
    PageDirectory, PageDirectoryEntry, PageTable, PageTableEntry, VirtualMemoryError,
};
use kfs::virtual_memory_management::Paging;

#[test]
fn mapped_page_translates_to_its_frame() {
    let mut bitmap = FrameManager::new();
    let mut dir = PageDirectory::new(0x21000);
    bitmap.alloc_frame_by_address(0x30_0000).unwrap();
    assert_eq!(dir.map_pages(&mut bitmap, 0x30_0000, 0x4000_0000, 0x3), Ok(()));
    assert_eq!(dir.translate(0x4000_0000), Ok(0x30_0000));
    assert_eq!(dir.translate(0x4000_0abc), Ok(0x30_0abc));
    assert_eq!(dir.translate(0x4000_1000), Err(VirtualMemoryError::PageEntryAbsent));
    assert_eq!(dir.translate(0x5000_0000), Err(VirtualMemoryError::DirectoryEntryAbsent));
}

#[test]
fn unmapping_gives_the_frame_back() {
    let mut bitmap = FrameManager::new();
    let mut dir = PageDirectory::new(0x21000);
    bitmap.alloc_frame_by_address(0x30_0000).unwrap();
    dir.map_pages(&mut bitmap, 0x30_0000, 0x4000_0000, 0x3).unwrap();
    assert!(!bitmap.is_available(0x30_0000));
    assert_eq!(dir.unmap_pages(&mut bitmap, 0x4000_0000), Ok(()));
    assert!(bitmap.is_available(0x30_0000));
    assert_eq!(dir.translate(0x4000_0000), Err(VirtualMemoryError::PageEntryAbsent));
}

#[test]
fn page_can_be_mapped_again_to_another_frame() {
    let mut bitmap = FrameManager::new();
    let mut dir = PageDirectory::new(0x21000);
    bitmap.alloc_frame_by_address(0x30_0000).unwrap();
    bitmap.alloc_frame_by_address(0x50_0000).unwrap();
    dir.map_pages(&mut bitmap, 0x30_0000, 0x4000_0000, 0x3).unwrap();
    dir.unmap_pages(&mut bitmap, 0x4000_0000).unwrap();
    dir.map_pages(&mut bitmap, 0x50_0000, 0x4000_0000, 0x3).unwrap();
    assert_eq!(dir.translate(0x4000_0000), Ok(0x50_0000));
}

#[test]
fn new_page_table_takes_the_lowest_frame() {
    let mut bitmap = FrameManager::new();
    let mut dir = PageDirectory::new(0x21000);
    bitmap.alloc_frame_by_address(0x0).unwrap();
    dir.map_pages(&mut bitmap, 0x0, 0x0, 0x3).unwrap();
    assert!(!bitmap.is_available(0x1000));
    assert!(dir.ref_dir()[0].is_present());
    assert_eq!(dir.ref_dir()[0].page_table_address(), 0x1000);
    assert_eq!(dir.get_table(0).unwrap().address(), 0x1000);
    // a second page under the same directory entry needs no new table
    dir.map_pages(&mut bitmap, 0xb8000, 0xb8000, 0x3).unwrap();
    assert!(bitmap.is_available(0x2000));
    assert_eq!(dir.translate(0xb8123), Ok(0xb8123));
}

#[test]
fn unmapping_a_frame_that_is_not_in_use_fails() {
    let mut bitmap = FrameManager::new();
    let mut dir = PageDirectory::new(0x21000);
    dir.map_pages(&mut bitmap, 0x30_0000, 0x4000_0000, 0x3).unwrap();
    assert_eq!(
        dir.unmap_pages(&mut bitmap, 0x4000_0000),
        Err(VirtualMemoryError::PhysicalMemoryError(PhysicalMemoryError::FrameNotInUse))
    );
    assert_eq!(dir.translate(0x4000_0000), Ok(0x30_0000));
}

#[test]
fn tables_are_reached_through_the_last_entry() {
    let mut bitmap = FrameManager::new();
    let mut dir = PageDirectory::new(0x21000);
    bitmap.alloc_frame_by_address(0x21000).unwrap();
    dir.map_pages(&mut bitmap, 0x30_0000, 0x4000_0000, 0x3).unwrap();
    let physical = dir.get_table_linear_add(0x100);
    assert_eq!(physical, dir.ref_dir()[0x100].page_table_address());
    assert_eq!(dir.address(), 0x21000);
    dir.set_recursive_entry();
    dir.activate();
    assert!(dir.is_enabled());
    assert_eq!(dir.address(), 0xFFFF_F000);
    let linear = dir.get_table_linear_add(0x100);
    assert_eq!(linear, 0xFFC0_0000 + 0x100 * 0x1000);
    assert_eq!(dir.translate(linear), Ok(physical));
    assert_eq!(dir.translate(0xFFFF_F000), Ok(0x21000));
}

#[test]
fn mapping_a_mapped_page_is_refused() {
    let mut bitmap = FrameManager::new();
    let mut dir = PageDirectory::new(0x21000);
    assert_eq!(dir.map_page(&mut bitmap, 0x30_0000, 0x4000_0000, 0x3), Ok(()));
    assert_eq!(
        dir.map_page(&mut bitmap, 0x50_0000, 0x4000_0000, 0x3),
        Err(VirtualMemoryError::PageEntryAlreadyPresent)
    );
    assert_eq!(dir.translate(0x4000_0000), Ok(0x30_0000));
}

#[test]
fn unmapping_what_is_not_mapped_is_refused() {
    let mut bitmap = FrameManager::new();
    let mut dir = PageDirectory::new(0x21000);
    assert_eq!(
        dir.unmap_page(&mut bitmap, 0x4000_0000),
        Err(VirtualMemoryError::DirectoryEntryAbsent)
    );
    bitmap.alloc_frame_by_address(0x30_0000).unwrap();
    dir.map_page(&mut bitmap, 0x30_0000, 0x4000_0000, 0x3).unwrap();
    assert_eq!(
        dir.unmap_page(&mut bitmap, 0x4000_1000),
        Err(VirtualMemoryError::PageEntryAbsent)
    );
    assert_eq!(dir.unmap_page(&mut bitmap, 0x4000_0000), Ok(()));
    assert!(bitmap.is_available(0x30_0000));
}

#[test]
fn unmapping_device_memory_leaves_the_bitmap_alone() {
    let mut bitmap = FrameManager::new();
    let mut dir = PageDirectory::new(0x21000);
    dir.map_page(&mut bitmap, 0xFD00_0000, 0xE000_0000, 0x3).unwrap();
    assert_eq!(dir.translate(0xE000_0010), Ok(0xFD00_0010));
    assert_eq!(dir.unmap_page(&mut bitmap, 0xE000_0000), Ok(()));
    assert_eq!(dir.translate(0xE000_0010), Err(VirtualMemoryError::PageEntryAbsent));
}

#[test]
fn no_frame_for_a_page_table_fails_the_mapping() {
    let mut bitmap = FrameManager::new();
    bitmap.reserve_range(0, 0x800_0000);
    let mut dir = PageDirectory::new(0x21000);
    assert_eq!(
        dir.map_pages(&mut bitmap, 0x30_0000, 0x4000_0000, 0x3),
        Err(VirtualMemoryError::PhysicalMemoryError(PhysicalMemoryError::NoFrameAvailable))
    );
    assert!(!dir.ref_dir()[0x100].is_present());
}

#[test]
fn a_range_of_pages_is_mapped_in_order() {
    let mut bitmap = FrameManager::new();
    let mut dir = PageDirectory::new(0x21000);
    assert_eq!(
        dir.map_range_pages(&mut bitmap, 0x10_0000, 0x10_2001, 0xC000_0000, 0x3),
        Ok(())
    );
    assert_eq!(
        dir.list_mappings(),
        vec![
            (0xC000_0000, 0x10_0000),
            (0xC000_1000, 0x10_1000),
            (0xC000_2000, 0x10_2000)
        ]
    );
    assert_eq!(
        dir.map_range_pages(&mut bitmap, 0x20_0000, 0x20_2000, 0xC000_1000, 0x3),
        Err(VirtualMemoryError::PageEntryAlreadyPresent)
    );
    assert_eq!(dir.map_range_pages(&mut bitmap, 0x20_0000, 0x20_0000, 0xC000_1000, 0x3), Ok(()));
}

#[test]
fn entries_split_into_address_and_flags() {
    let entry = PageTableEntry::new(0x1234_5000, 0x7);
    assert_eq!(entry.page_frame_address(), 0x1234_5000);
    assert!(entry.is_present());
    assert!(entry.is_wr());
    let entry = PageTableEntry::new(0x1234_5000, 0x2);
    assert!(!entry.is_present());
    let entry = PageDirectoryEntry::new(0xFFFF_F000, 0x1);
    assert_eq!(entry.page_table_address(), 0xFFFF_F000);
    assert!(entry.is_present());
    assert!(!entry.is_wr());
}

#[test]
fn cleared_structures_map_nothing() {
    let mut bitmap = FrameManager::new();
    let mut dir = PageDirectory::new(0x21000);
    dir.map_pages(&mut bitmap, 0x30_0000, 0x4000_0000, 0x3).unwrap();
    dir.clear();
    assert_eq!(dir.translate(0x4000_0000), Err(VirtualMemoryError::DirectoryEntryAbsent));
    assert!(dir.ref_dir().iter().all(|e| !e.is_present()));
    let mut table = PageTable::new(0x5000);
    table.set_entry(7, 0x9000, 0x3);
    assert!(table.ref_table()[7].is_present());
    table.clear();
    assert!(table.ref_table().iter().all(|e| !e.is_present() && e.page_frame_address() == 0));
    assert_eq!(table.address(), 0x5000);
}

#[test]
fn older_frame_interface_takes_and_gives_back() {
    let mut bitmap = FrameManager::new();
    assert_eq!(bitmap.get_available_page_frame(), 0x0);
    bitmap.get_page_frame(0x1000);
    assert_eq!(bitmap.get_available_page_frame(), 0x2000);
    bitmap.free_page(0x1000);
    assert!(bitmap.is_available(0x1000));
    assert_eq!(bitmap.get_available_page_frame(), 0x1000);
}

#[test]
fn paging_flag_is_switched() {
    let mut paging = Paging(false);
    assert!(!paging.is_enabled());
    paging.activate();
    assert!(paging.is_enabled());
    paging.deactivate();
    assert!(!paging.is_enabled());
}
