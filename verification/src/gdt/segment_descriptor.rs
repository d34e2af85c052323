//! Segment descriptors: the eight-byte entries of the descriptor table.

use vstd::prelude::*;

verus! {

/// Segment Descriptor
///
/// The base address and the limit of the segment are spread over several
/// fields; the access byte and four flag bits say how it may be used.
#[derive(Debug, Clone, Copy, Default)]
pub struct SegmentDescriptor {
    lim0_15: u16,
    base0_15: u16,
    base16_23: u8,
    access: u8,
    lim16_19_flags: u8,
    base24_31: u8,
}

/// A 32-bit base address is the three pieces that a descriptor stores of it.
pub proof fn lemma_base_pieces(base: u32)
    ensures
        ((base & 0xffff) as u16) as u32 | ((((base & 0xff0000) >> 16) as u8) as u32) << 16 | ((((
        base & 0xff000000) >> 24) as u8) as u32) << 24 == base,
{
    assert(((base & 0xffff) as u16) as u32 | ((((base & 0xff0000) >> 16) as u8) as u32) << 16 | ((((
    base & 0xff000000) >> 24) as u8) as u32) << 24 == base) by (bit_vector);
}

/// The two pieces that a descriptor stores of a limit give its low twenty
/// bits back, and the four flag bits stored beside them stay apart.
pub proof fn lemma_limit_pieces(limit: u32, flags: u8)
    ensures
        ((limit & 0xffff) as u16) as u32 | (((((limit & 0xf0000) >> 16) as u8 | (flags & 0xf)
            << 4) & 0xf) as u32) << 16 == limit & 0xfffff,
        (((limit & 0xf0000) >> 16) as u8 | (flags & 0xf) << 4) >> 4 == flags & 0xf,
{
    assert(((limit & 0xffff) as u16) as u32 | (((((limit & 0xf0000) >> 16) as u8 | (flags & 0xf)
        << 4) & 0xf) as u32) << 16 == limit & 0xfffff) by (bit_vector);
    assert((((limit & 0xf0000) >> 16) as u8 | (flags & 0xf) << 4) >> 4 == flags & 0xf)
        by (bit_vector);
}

/// What a segment holds.
#[derive(Debug, Clone, Copy, PartialEq, Eq, Structural)]
pub enum SegmentKind {
    System,
    Data,
    Code,
}

impl SegmentDescriptor {
    /// What the segment holds, going by its access byte.
    pub fn kind(&self) -> (kind: SegmentKind)
        ensures
            kind == if self.spec_access() & 0x10 == 0 {
                SegmentKind::System
            } else if self.spec_access() & 0x8 == 0 {
                SegmentKind::Data
            } else {
                SegmentKind::Code
            },
    {
        if !self.desc_type() {
            SegmentKind::System
        } else if !self.executable() {
            SegmentKind::Data
        } else {
            SegmentKind::Code
        }
    }

    /// Base address of the segment.
    pub closed spec fn spec_base(&self) -> u32 {
        self.base0_15 as u32 | (self.base16_23 as u32) << 16 | (self.base24_31 as u32) << 24
    }

    /// Limit of the segment: twenty bits.
    pub closed spec fn spec_limit(&self) -> u32 {
        self.lim0_15 as u32 | ((self.lim16_19_flags & 0xf) as u32) << 16
    }

    /// The access byte.
    pub closed spec fn spec_access(&self) -> u8 {
        self.access
    }

    /// The four flag bits: granularity, operand size, long mode, available.
    pub closed spec fn spec_flags(&self) -> u8 {
        self.lim16_19_flags >> 4
    }

    /// The byte that holds the flags in its high half.
    pub closed spec fn spec_flags_byte(&self) -> u8 {
        self.lim16_19_flags
    }

    pub fn new(base: u32, limit: u32, access: u8, flags: u8) -> (desc: SegmentDescriptor)
        ensures
            desc.spec_base() == base,
            desc.spec_limit() == limit & 0xfffff,
            desc.spec_access() == access,
            desc.spec_flags() == flags & 0xf,
    {
        proof {
            lemma_base_pieces(base);
            lemma_limit_pieces(limit, flags);
        }
        SegmentDescriptor {
            lim0_15: (limit & 0xffff) as u16,
            base0_15: (base & 0xffff) as u16,
            base16_23: ((base & 0xff0000) >> 16) as u8,
            access,
            lim16_19_flags: ((limit & 0xf0000) >> 16) as u8 | (flags & 0xf) << 4,
            base24_31: ((base & 0xff000000) >> 24) as u8,
        }
    }

    pub fn base(&self) -> (base: u32)
        ensures
            base == self.spec_base(),
    {
        self.base0_15 as u32 | (self.base16_23 as u32) << 16 | (self.base24_31 as u32) << 24
    }

    pub fn limit(&self) -> (limit: u32)
        ensures
            limit == self.spec_limit(),
    {
        self.lim0_15 as u32 | ((self.lim16_19_flags & 0xf) as u32) << 16
    }

    /// The access byte as it is stored.
    pub fn access(&self) -> (access: u8)
        ensures
            access == self.spec_access(),
    {
        self.access
    }

    pub fn present(&self) -> (present: bool)
        ensures
            present == (self.spec_access() & 0x80 != 0),
    {
        self.access & 0x80 != 0
    }

    pub fn privilege(&self) -> (ring: u8)
        ensures
            ring == (self.spec_access() & 0x60) >> 5,
    {
        (self.access & 0x60) >> 5
    }

    pub fn desc_type(&self) -> (code_or_data: bool)
        ensures
            code_or_data == (self.spec_access() & 0x10 != 0),
    {
        self.access & 0x10 != 0
    }

    pub fn executable(&self) -> (executable: bool)
        ensures
            executable == (self.spec_access() & 0x8 != 0),
    {
        self.access & 0x8 != 0
    }

    pub fn direction_conforming(&self) -> (set: bool)
        ensures
            set == (self.spec_access() & 0x4 != 0),
    {
        self.access & 0x4 != 0
    }

    pub fn readable_writable(&self) -> (set: bool)
        ensures
            set == (self.spec_access() & 0x2 != 0),
    {
        self.access & 0x2 != 0
    }

    pub fn accessed(&self) -> (accessed: bool)
        ensures
            accessed == (self.spec_access() & 0x1 != 0),
    {
        self.access & 0x1 != 0
    }

    pub fn granularity(&self) -> (pages: bool)
        ensures
            pages == (self.spec_flags_byte() & 0x80 != 0),
    {
        self.lim16_19_flags & 0x80 != 0
    }

    pub fn operand_size(&self) -> (wide: bool)
        ensures
            wide == (self.spec_flags_byte() & 0x40 != 0),
    {
        self.lim16_19_flags & 0x40 != 0
    }

    pub fn long(&self) -> (long: bool)
        ensures
            long == (self.spec_flags_byte() & 0x20 != 0),
    {
        self.lim16_19_flags & 0x20 != 0
    }

    pub fn available(&self) -> (available: bool)
        ensures
            available == (self.spec_flags_byte() & 0x10 != 0),
    {
        self.lim16_19_flags & 0x10 != 0
    }

    /// The eight bytes of the descriptor, in the order in which the
    /// processor reads them.
    pub fn to_bytes(&self) -> (bytes: [u8; 8])
        ensures
            bytes[2] as u32 | (bytes[3] as u32) << 8 | (bytes[4] as u32) << 16 | (bytes[7] as u32)
                << 24 == self.spec_base(),
            bytes[5] == self.spec_access(),
            bytes[6] == self.spec_flags_byte(),
            bytes[0] as u32 | (bytes[1] as u32) << 8 | ((bytes[6] & 0xf) as u32) << 16
                == self.spec_limit(),
    {
        let l: u16 = self.lim0_15;
        let b: u16 = self.base0_15;
        let h: u8 = self.base16_23;
        let t: u8 = self.base24_31;
        let f: u8 = self.lim16_19_flags;
        assert(((b & 0xff) as u8) as u32 | (((b >> 8) as u8) as u32) << 8 | (h as u32) << 16 | (
        t as u32) << 24 == b as u32 | (h as u32) << 16 | (t as u32) << 24) by (bit_vector);
        assert(((l & 0xff) as u8) as u32 | (((l >> 8) as u8) as u32) << 8 | ((f & 0xf) as u32)
            << 16 == l as u32 | ((f & 0xf) as u32) << 16) by (bit_vector);
        [
            (l & 0xff) as u8,
            (l >> 8) as u8,
            (b & 0xff) as u8,
            (b >> 8) as u8,
            h,
            self.access,
            f,
            t,
        ]
    }
}

} // verus!
