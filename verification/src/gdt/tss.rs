//! Task state segment.

use vstd::prelude::*;

verus! {

/// Selector of the kernel stack segment.
pub const KERNEL_STACK_SELECTOR: u16 = 0x18;

/// Size of a task state segment in bytes, which is also the offset at which
/// an I/O permission bitmap would begin.
pub const TSS_SIZE: u16 = 0x68;

/// The task state segment, field by field.
#[derive(Clone, Copy, PartialEq, Eq, Structural)]
pub struct Tss {
    pub link: u16,
    pub link_h: u16,
    pub esp0: u32,
    pub ss0: u16,
    pub ss0_h: u16,
    pub esp1: u32,
    pub ss1: u16,
    pub ss1_h: u16,
    pub esp2: u32,
    pub ss2: u16,
    pub ss2_h: u16,
    pub cr3: u32,
    pub eip: u32,
    pub eflags: u32,
    pub eax: u32,
    pub ecx: u32,
    pub edx: u32,
    pub ebx: u32,
    pub esp: u32,
    pub ebp: u32,
    pub esi: u32,
    pub edi: u32,
    pub es: u16,
    pub es_h: u16,
    pub cs: u16,
    pub cs_h: u16,
    pub ss: u16,
    pub ss_h: u16,
    pub ds: u16,
    pub ds_h: u16,
    pub fs: u16,
    pub fs_h: u16,
    pub gs: u16,
    pub gs_h: u16,
    pub ldtr: u16,
    pub ldtr_h: u16,
    pub trap: u16,
    pub oipb_offset: u16,
}

impl Tss {
    /// Whether every general register, every field of the two unused rings
    /// and every reserved half-word is zero.
    pub open spec fn rest_is_zero(&self) -> bool {
        &&& self.link == 0 && self.link_h == 0 && self.ss0_h == 0
        &&& self.esp1 == 0 && self.ss1 == 0 && self.ss1_h == 0
        &&& self.esp2 == 0 && self.ss2 == 0 && self.ss2_h == 0
        &&& self.cr3 == 0 && self.eip == 0 && self.eflags == 0
        &&& self.eax == 0 && self.ecx == 0 && self.edx == 0 && self.ebx == 0
        &&& self.esp == 0 && self.ebp == 0 && self.esi == 0 && self.edi == 0
        &&& self.es_h == 0 && self.cs_h == 0 && self.ss_h == 0 && self.ds_h == 0
        &&& self.fs_h == 0 && self.gs_h == 0
        &&& self.ldtr == 0 && self.ldtr_h == 0 && self.trap == 0
    }

    /// A task state whose ring-0 stack is the kernel stack segment with its
    /// top at `esp0`, whose segment registers select the user segments, and
    /// which has no I/O permission bitmap.
    pub fn new(esp0: u32) -> (tss: Tss)
        ensures
            tss.esp0 == esp0,
            tss.ss0 == KERNEL_STACK_SELECTOR,
            tss.cs == 0x0b,
            tss.es == 0x13 && tss.ss == 0x13 && tss.ds == 0x13 && tss.fs == 0x13 && tss.gs == 0x13,
            tss.oipb_offset == TSS_SIZE,
            tss.rest_is_zero(),
    {
        Tss {
            link: 0,
            link_h: 0,
            esp0,
            ss0: KERNEL_STACK_SELECTOR,
            ss0_h: 0,
            esp1: 0,
            ss1: 0,
            ss1_h: 0,
            esp2: 0,
            ss2: 0,
            ss2_h: 0,
            cr3: 0,
            eip: 0,
            eflags: 0,
            eax: 0,
            ecx: 0,
            edx: 0,
            ebx: 0,
            esp: 0,
            ebp: 0,
            esi: 0,
            edi: 0,
            es: 0x13,
            es_h: 0,
            cs: 0x0b,
            cs_h: 0,
            ss: 0x13,
            ss_h: 0,
            ds: 0x13,
            ds_h: 0,
            fs: 0x13,
            fs_h: 0,
            gs: 0x13,
            gs_h: 0,
            ldtr: 0,
            ldtr_h: 0,
            trap: 0,
            oipb_offset: TSS_SIZE,
        }
    }
}

} // verus!
