use kfs::gdt::segment_descriptor::SegmentDescriptor;
use kfs::gdt::tss::Tss;
use kfs::gdt::{descriptors, Gdt, GdtR, GDTBASE, GDTLEN};

#[test]
fn descriptor_fields_round_trip() {
    let desc = SegmentDescriptor::new(0x1234_5678, 0xABCDE, 0x9A, 0x0D);
    assert_eq!(desc.base(), 0x1234_5678);
    assert_eq!(desc.limit(), 0xABCDE);
    assert_eq!(desc.access(), 0x9A);
    assert!(desc.present());
    assert_eq!(desc.privilege(), 0);
    assert!(desc.desc_type());
    assert!(desc.executable());
    assert!(!desc.direction_conforming());
    assert!(desc.readable_writable());
    assert!(!desc.accessed());
    assert!(desc.granularity());
    assert!(desc.operand_size());
    assert!(!desc.long());
    assert!(desc.available());
}

#[test]
fn limit_and_flags_are_cut_to_their_bits() {
    let desc = SegmentDescriptor::new(0, 0xFFF_FFFFF, 0, 0xF3);
    assert_eq!(desc.limit(), 0xFFFFF);
    assert!(!desc.granularity());
    assert!(!desc.operand_size());
    assert!(desc.long());
    assert!(desc.available());
    assert!(!desc.present());
}

#[test]
fn descriptor_bytes_are_in_processor_order() {
    let desc = SegmentDescriptor::new(0x1234_5678, 0xABCDE, 0x9A, 0x0D);
    assert_eq!(desc.to_bytes(), [0xDE, 0xBC, 0x78, 0x56, 0x34, 0x9A, 0xDA, 0x12]);
}

#[test]
fn kernel_table_has_eight_descriptors() {
    let table = descriptors(0xC010_2030);
    assert_eq!(table.len(), GDTLEN);
    assert_eq!(table[0].to_bytes(), [0; 8]);
    // kernel code: ring 0, whole address space, executable and readable
    assert_eq!(table[1].base(), 0);
    assert_eq!(table[1].limit(), 0xFFFFF);
    assert!(table[1].present() && table[1].executable() && table[1].readable_writable());
    assert_eq!(table[1].privilege(), 0);
    assert!(table[1].granularity());
    assert_eq!(table[2].access(), 0x92);
    assert!(!table[2].executable());
    assert_eq!(table[3].access(), 0x96);
    assert_eq!(table[3].limit(), 0);
    assert_eq!(table[4].privilege(), 3);
    assert!(table[4].executable());
    assert_eq!(table[5].privilege(), 3);
    assert_eq!(table[5].access(), 0xF2);
    assert_eq!(table[6].access(), 0xF6);
    assert_eq!(table[7].base(), 0xC010_2030);
    assert_eq!(table[7].limit(), 0x67);
    assert_eq!(table[7].access(), 0xE9);
    assert!(!table[7].desc_type());
}

#[test]
fn register_describes_the_table() {
    let mut gdt = Gdt::new(GDTBASE);
    assert_eq!(gdt.len(), 0);
    assert!(gdt.get_desc(0).is_none());
    gdt.copy_to_base(&descriptors(0x1000));
    assert_eq!(gdt.len(), 8);
    assert_eq!(gdt.generate_gdtr(), GdtR { limit: 63, base: 0x800 });
    assert_eq!(gdt.get_desc(7).unwrap().limit(), 0x67);
    assert!(gdt.get_desc(8).is_none());
}

#[test]
fn task_state_points_at_the_kernel_stack() {
    let tss = Tss::new(0x0012_3450);
    assert_eq!(tss.esp0, 0x0012_3450);
    assert_eq!(tss.ss0, 0x18);
    assert_eq!(tss.cs, 0x0b);
    assert_eq!((tss.es, tss.ss, tss.ds, tss.fs, tss.gs), (0x13, 0x13, 0x13, 0x13, 0x13));
    assert_eq!(tss.oipb_offset, 0x68);
    assert_eq!((tss.esp, tss.cr3, tss.eip, tss.ldtr, tss.trap), (0, 0, 0, 0, 0));
}
