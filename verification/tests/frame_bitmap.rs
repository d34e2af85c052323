use kfs::physical_memory_management::{FrameManager, PhysicalMemoryError, PAGE_SIZE_4K, RAM_SIZE};

#[test]
fn fresh_bitmap_hands_out_distinct_aligned_frames() {
    let mut bitmap = FrameManager::new();
    let a = bitmap.alloc_frame().unwrap();
    let b = bitmap.alloc_frame().unwrap();
    assert_ne!(a, b);
    assert_eq!(a % PAGE_SIZE_4K, 0);
    assert_eq!(b % PAGE_SIZE_4K, 0);
    assert_eq!(a, 0);
    assert_eq!(b, 0x1000);
}

#[test]
fn freed_lowest_frame_is_handed_out_again() {
    let mut bitmap = FrameManager::new();
    for _ in 0..40 {
        bitmap.alloc_frame().unwrap();
    }
    bitmap.free_frame(0x5000).unwrap();
    assert_eq!(bitmap.alloc_frame(), Ok(0x5000));
    assert_eq!(bitmap.alloc_frame(), Ok(40 * 0x1000));
}

#[test]
fn availability_follows_alloc_and_free() {
    let mut bitmap = FrameManager::new();
    assert!(bitmap.is_available(0x3000));
    bitmap.alloc_frame_by_address(0x3000).unwrap();
    assert!(!bitmap.is_available(0x3000));
    bitmap.free_frame(0x3000).unwrap();
    assert!(bitmap.is_available(0x3000));
}

#[test]
fn specific_frame_fails_only_when_marked() {
    let mut bitmap = FrameManager::new();
    assert_eq!(bitmap.alloc_frame_by_address(0xb8000), Ok(()));
    assert_eq!(
        bitmap.alloc_frame_by_address(0xb8000),
        Err(PhysicalMemoryError::FrameAlreadyInUse)
    );
    assert_eq!(bitmap.alloc_frame_by_address(0xb9000), Ok(()));
}

#[test]
fn free_of_unused_frame_is_refused() {
    let mut bitmap = FrameManager::new();
    assert_eq!(bitmap.free_frame(0x7000), Err(PhysicalMemoryError::FrameNotInUse));
}

#[test]
fn alloc_skips_frames_taken_by_address() {
    let mut bitmap = FrameManager::new();
    bitmap.alloc_frame_by_address(0x0).unwrap();
    bitmap.alloc_frame_by_address(0x1000).unwrap();
    bitmap.alloc_frame_by_address(0x3000).unwrap();
    assert_eq!(bitmap.alloc_frame(), Ok(0x2000));
    assert_eq!(bitmap.alloc_frame(), Ok(0x4000));
}

#[test]
fn taking_a_high_frame_keeps_low_frames_in_reach() {
    let mut bitmap = FrameManager::new();
    bitmap.alloc_frame_by_address(RAM_SIZE - PAGE_SIZE_4K).unwrap();
    assert_eq!(bitmap.alloc_frame(), Ok(0));
}

#[test]
fn exhausted_bitmap_reports_no_frame() {
    let mut bitmap = FrameManager::new();
    let frames = RAM_SIZE / PAGE_SIZE_4K;
    for i in 0..frames {
        assert_eq!(bitmap.alloc_frame(), Ok(i * PAGE_SIZE_4K));
    }
    assert_eq!(bitmap.alloc_frame(), Err(PhysicalMemoryError::NoFrameAvailable));
    bitmap.free_frame(0x123000).unwrap();
    assert_eq!(bitmap.alloc_frame(), Ok(0x123000));
}
