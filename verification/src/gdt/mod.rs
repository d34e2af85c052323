//! Global Descriptor Table

pub mod segment_descriptor;
pub mod tss;

use crate::gdt::segment_descriptor::SegmentDescriptor;
use vstd::prelude::*;

verus! {

/// Physical address at which the table is placed.
pub const GDTBASE: u32 = 0x00000800;

/// Number of descriptors in the table.
pub const GDTLEN: usize = 8;

/// Selector of the kernel code segment.
pub const KERNEL_CODE_SELECTOR: u16 = 0x08;

/// Selector of the kernel data segment.
pub const KERNEL_DATA_SELECTOR: u16 = 0x10;

/// Selector of the task state segment.
pub const TSS_SELECTOR: u16 = 0x38;

/// GDT Register
///
/// The 48-bit value that the processor loads: the size of the table in
/// bytes, less one, and its address.
#[derive(Debug, Clone, Copy, Default, PartialEq, Eq, Structural)]
pub struct GdtR {
    pub limit: u16,
    pub base: u32,
}

/// What descriptor `index` of the kernel's table is made of: base, limit,
/// access byte and flags.
///
/// 0: unused; 1 to 3: kernel code, data and stack; 4 to 6: user code, data
/// and stack; 7: the task state segment at `tss_address`.
pub open spec fn descriptor_fields(index: int, tss_address: u32) -> (u32, u32, u8, u8) {
    if index == 0 {
        (0x0, 0x0, 0x0, 0x0)
    } else if index == 1 {
        (0x0, 0xFFFFF, 0x9A, 0x0D)
    } else if index == 2 {
        (0x0, 0xFFFFF, 0x92, 0x0D)
    } else if index == 3 {
        (0x0, 0x0, 0x96, 0x0D)
    } else if index == 4 {
        (0x0, 0xFFFFF, 0xFE, 0x0D)
    } else if index == 5 {
        (0x0, 0xFFFFF, 0xF2, 0x0D)
    } else if index == 6 {
        (0x0, 0x0, 0xF6, 0x0D)
    } else {
        (tss_address, 0x67, 0xE9, 0x00)
    }
}

/// Whether `descriptor` holds the given base, limit, access byte and flags.
pub open spec fn holds_fields(descriptor: SegmentDescriptor, fields: (u32, u32, u8, u8)) -> bool {
    &&& descriptor.spec_base() == fields.0
    &&& descriptor.spec_limit() == fields.1
    &&& descriptor.spec_access() == fields.2
    &&& descriptor.spec_flags() == fields.3
}

/// The kernel's descriptors, in table order, with the task state segment at
/// `tss_address`.
pub fn descriptors(tss_address: u32) -> (table: Vec<SegmentDescriptor>)
    ensures
        table@.len() == GDTLEN,
        forall|i: int|
            0 <= i < GDTLEN ==> holds_fields(#[trigger] table@[i], descriptor_fields(i, tss_address)),
{
    proof {
        assert(0x0u32 & 0xfffff == 0 && 0xFFFFFu32 & 0xfffff == 0xFFFFF && 0x67u32 & 0xfffff
            == 0x67 && 0x0Du8 & 0xf == 0x0D && 0x0u8 & 0xf == 0) by (bit_vector);
    }
    let mut table: Vec<SegmentDescriptor> = Vec::new();
    table.push(SegmentDescriptor::new(0x0, 0x0, 0x0, 0x0));
    table.push(SegmentDescriptor::new(0x0, 0xFFFFF, 0x9A, 0x0D));
    table.push(SegmentDescriptor::new(0x0, 0xFFFFF, 0x92, 0x0D));
    table.push(SegmentDescriptor::new(0x0, 0x0, 0x96, 0x0D));
    table.push(SegmentDescriptor::new(0x0, 0xFFFFF, 0xFE, 0x0D));
    table.push(SegmentDescriptor::new(0x0, 0xFFFFF, 0xF2, 0x0D));
    table.push(SegmentDescriptor::new(0x0, 0x0, 0xF6, 0x0D));
    table.push(SegmentDescriptor::new(tss_address, 0x67, 0xE9, 0x00));
    table
}

/// The descriptor table: where it lies and what it holds.
pub struct Gdt {
    base: u32,
    table: Vec<SegmentDescriptor>,
}

impl Gdt {
    /// Address of the table.
    pub closed spec fn spec_base(&self) -> u32 {
        self.base
    }

    /// The descriptors of the table.
    pub closed spec fn view(&self) -> Seq<SegmentDescriptor> {
        self.table@
    }

    /// An empty table at `base`.
    pub fn new(base: u32) -> (gdt: Gdt)
        ensures
            gdt.spec_base() == base,
            gdt@.len() == 0,
    {
        Gdt { base, table: Vec::new() }
    }

    /// Number of descriptors in the table.
    pub fn len(&self) -> (len: usize)
        ensures
            len == self@.len(),
    {
        self.table.len()
    }

    /// Replaces the contents of the table by `gdt`.
    pub fn copy_to_base(&mut self, gdt: &Vec<SegmentDescriptor>)
        ensures
            final(self)@ == gdt@,
            final(self).spec_base() == old(self).spec_base(),
    {
        let mut table: Vec<SegmentDescriptor> = Vec::new();
        let mut i: usize = 0;
        while i < gdt.len()
            invariant
                i <= gdt@.len(),
                table@ == gdt@.subrange(0, i as int),
            decreases gdt@.len() - i,
        {
            table.push(gdt[i]);
            assert(table@ =~= gdt@.subrange(0, i + 1));
            i += 1;
        }
        assert(table@ =~= gdt@);
        self.table = table;
    }

    /// The register value that describes the table.
    pub fn generate_gdtr(&self) -> (gdtr: GdtR)
        requires
            1 <= self@.len() <= 8192,
        ensures
            gdtr.limit == 8 * self@.len() - 1,
            gdtr.base == self.spec_base(),
    {
        GdtR { limit: (8 * self.table.len() - 1) as u16, base: self.base }
    }

    /// The descriptor at `index`, if the table reaches that far.
    pub fn get_desc(&self, index: usize) -> (desc: Option<SegmentDescriptor>)
        ensures
            desc == if index < self@.len() {
                Some(self@[index as int])
            } else {
                None
            },
    {
        if index >= self.table.len() {
            return None;
        }
        Some(self.table[index])
    }
}

} // verus!
