//! Facts about the bit patterns used by the bitmap and the paging entries.

use vstd::prelude::*;

verus! {

/// The mask that selects bit `offset` of a bitmap word, counted from the most
/// significant bit.
pub open spec fn bit_mask(offset: u32) -> u32 {
    0x8000_0000u32 >> offset
}

/// Whether bit `offset` (counted from the most significant bit) is set in `word`.
pub open spec fn has_bit(word: u32, offset: u32) -> bool {
    word & bit_mask(offset) != 0
}

/// Every bit of the all-ones word is set.
pub proof fn lemma_full_word(offset: u32)
    requires
        offset < 32,
    ensures
        has_bit(0xFFFF_FFFFu32, offset),
{
    assert(0xFFFF_FFFFu32 & (0x8000_0000u32 >> offset) != 0) by (bit_vector)
        requires
            offset < 32,
    ;
}

/// No bit of the zero word is set.
pub proof fn lemma_empty_word(offset: u32)
    ensures
        !has_bit(0u32, offset),
{
    assert(0u32 & (0x8000_0000u32 >> offset) == 0) by (bit_vector);
}

/// Setting bit `offset` changes that bit and no other.
pub proof fn lemma_set_bit(word: u32, offset: u32, other: u32)
    requires
        offset < 32,
        other < 32,
    ensures
        has_bit(word | bit_mask(offset), other) == (other == offset || has_bit(word, other)),
{
    assert(((word | (0x8000_0000u32 >> offset)) & (0x8000_0000u32 >> other) != 0) == (other
        == offset || word & (0x8000_0000u32 >> other) != 0)) by (bit_vector)
        requires
            offset < 32,
            other < 32,
    ;
}

/// Clearing bit `offset` changes that bit and no other.
pub proof fn lemma_clear_bit(word: u32, offset: u32, other: u32)
    requires
        offset < 32,
        other < 32,
    ensures
        has_bit(word & !bit_mask(offset), other) == (other != offset && has_bit(word, other)),
{
    assert(((word & !(0x8000_0000u32 >> offset)) & (0x8000_0000u32 >> other) != 0) == (other
        != offset && word & (0x8000_0000u32 >> other) != 0)) by (bit_vector)
        requires
            offset < 32,
            other < 32,
    ;
}

/// The mask of the `count` most significant bits.
pub open spec fn high_bits(count: u32) -> u32 {
    !(0xFFFF_FFFFu32 >> count)
}

/// A word whose `count` highest bits are set and whose next bit is set too has
/// its `count + 1` highest bits set; with all 32 set it is the all-ones word.
pub proof fn lemma_extend_high_bits(word: u32, count: u32)
    requires
        count < 32,
        count > 0 ==> word & high_bits(count) == high_bits(count),
        has_bit(word, count),
    ensures
        count < 31 ==> word & high_bits((count + 1) as u32) == high_bits((count + 1) as u32),
        count == 31 ==> word == 0xFFFF_FFFFu32,
{
    if count == 0 {
        assert(word & (0x8000_0000u32 >> 0u32) != 0 ==> word & !(0xFFFF_FFFFu32 >> 1u32) == !(
        0xFFFF_FFFFu32 >> 1u32)) by (bit_vector);
    } else if count < 31 {
        let next: u32 = (count + 1) as u32;
        assert(word & !(0xFFFF_FFFFu32 >> next) == !(0xFFFF_FFFFu32 >> next)) by (bit_vector)
            requires
                0 < count < 31,
                next == count + 1,
                word & !(0xFFFF_FFFFu32 >> count) == !(0xFFFF_FFFFu32 >> count),
                word & (0x8000_0000u32 >> count) != 0,
        ;
    } else {
        assert(word == 0xFFFF_FFFFu32) by (bit_vector)
            requires
                count == 31,
                word & !(0xFFFF_FFFFu32 >> count) == !(0xFFFF_FFFFu32 >> count),
                word & (0x8000_0000u32 >> count) != 0,
        ;
    }
}

/// A word whose bits are all set has its `count` highest bits set.
proof fn lemma_high_bits_set(word: u32, count: u32)
    requires
        count < 32,
        forall|offset: u32| offset < 32 ==> has_bit(word, offset),
    ensures
        count > 0 ==> word & high_bits(count) == high_bits(count),
    decreases count,
{
    if count > 0 {
        lemma_high_bits_set(word, (count - 1) as u32);
        lemma_extend_high_bits(word, (count - 1) as u32);
    }
}

/// A word whose bits are all set is the all-ones word.
pub proof fn lemma_all_bits_set(word: u32)
    requires
        forall|offset: u32| offset < 32 ==> has_bit(word, offset),
    ensures
        word == 0xFFFF_FFFFu32,
{
    lemma_high_bits_set(word, 31);
    lemma_extend_high_bits(word, 31);
}

/// The zero word is page-aligned, and as an entry it is absent and refers to
/// address zero.
pub proof fn lemma_zero_entry()
    ensures
        0u32 & 0xFFF == 0,
        0u32 | 0u32 == 0,
        0u32 & 0x1 == 0,
        0u32 & 0xFFFF_F000 == 0,
{
    assert(0u32 & 0xFFF == 0 && 0u32 | 0u32 == 0 && 0u32 & 0x1 == 0 && 0u32 & 0xFFFF_F000 == 0)
        by (bit_vector);
}

/// A word with no bit added is unchanged.
pub proof fn lemma_or_zero(word: u32)
    ensures
        word | 0 == word,
{
    assert(word | 0 == word) by (bit_vector);
}

/// The flags of a supervisor page (present, writable) and of a user page
/// (present, writable, user) both hold the present bit.
pub proof fn lemma_page_flags()
    ensures
        0x3u32 & 0x1 != 0,
        0x3u32 & 0x2 != 0,
        0x7u32 & 0x1 != 0,
        0x7u32 & 0x2 != 0,
{
    assert(0x3u32 & 0x1 != 0 && 0x3u32 & 0x2 != 0 && 0x7u32 & 0x1 != 0 && 0x7u32 & 0x2 != 0)
        by (bit_vector);
}

/// An entry made of an aligned address and of flags in the low twelve bits
/// gives both back unchanged.
pub proof fn lemma_entry_fields(address: u32, flags: u32)
    requires
        address & 0xFFF == 0,
        flags < 0x1000,
    ensures
        (address | flags) & 0xFFFF_F000 == address,
        (address | flags) & 0xFFF == flags,
        ((address | flags) & 0x1 != 0) == (flags & 0x1 != 0),
        ((address | flags) & 0x2 != 0) == (flags & 0x2 != 0),
{
    assert((address | flags) & 0xFFFF_F000 == address && (address | flags) & 0xFFF == flags && ((
    address | flags) & 0x1 != 0) == (flags & 0x1 != 0) && ((address | flags) & 0x2 != 0) == (flags
        & 0x2 != 0)) by (bit_vector)
        requires
            address & 0xFFF == 0,
            flags < 0x1000,
    ;
}

/// The two table indices of a virtual address are below 1024, and the
/// directory index is 1023 exactly for the last four mebibytes.
pub proof fn lemma_address_indices(address: u32)
    ensures
        address >> 22 < 1024,
        (address & 0x3F_F000) >> 12 < 1024,
        address >> 22 == 1023 <==> address >= 0xFFC0_0000,
        address & 0xFFFF_F000 <= address,
        (address & 0xFFFF_F000) & 0xFFF == 0,
{
    assert(address >> 22 < 1024 && (address & 0x3F_F000) >> 12 < 1024 && (address >> 22 == 1023
        <==> address >= 0xFFC0_0000) && address & 0xFFFF_F000 <= address && (address
        & 0xFFFF_F000) & 0xFFF == 0) by (bit_vector);
}

/// Adding an offset inside the page to a page-aligned address changes neither
/// of its table indices.
pub proof fn lemma_page_offset(page: u32, offset: u32)
    requires
        page & 0xFFF == 0,
        offset < 0x1000,
    ensures
        (page | offset) >> 22 == page >> 22,
        ((page | offset) & 0x3F_F000) >> 12 == (page & 0x3F_F000) >> 12,
        (page | offset) & 0xFFF == offset,
        page | offset == page + offset,
{
    assert((page | offset) >> 22 == page >> 22 && ((page | offset) & 0x3F_F000) >> 12 == (page
        & 0x3F_F000) >> 12 && (page | offset) & 0xFFF == offset && page | offset == page
        + offset) by (bit_vector)
        requires
            page & 0xFFF == 0,
            offset < 0x1000,
    ;
}

/// The address through which table `index` is reached once the directory
/// maps itself: its directory index is 1023 and its table index is `index`.
pub proof fn lemma_recursive_address(index: u32)
    requires
        index < 1024,
    ensures
        0xFFC0_0000u32 + (index << 12) <= 0xFFFF_F000,
        (0xFFC0_0000u32 + (index << 12)) as u32 >> 22 == 1023,
        ((0xFFC0_0000u32 + (index << 12)) as u32 & 0x3F_F000) >> 12 == index,
        (0xFFC0_0000u32 + (index << 12)) as u32 & 0xFFF == 0,
        index << 12 == index * 4096,
{
    assert(0xFFC0_0000u32 + (index << 12) <= 0xFFFF_F000 && index << 12 == index * 4096) by (bit_vector)
        requires
            index < 1024,
    ;
    let address: u32 = (0xFFC0_0000u32 + (index << 12)) as u32;
    assert(address >> 22 == 1023 && (address & 0x3F_F000) >> 12 == index && address & 0xFFF == 0)
        by (bit_vector)
        requires
            index < 1024,
            address == 0xFFC0_0000u32 + (index << 12),
    ;
}

/// Two different page-aligned addresses differ in one of their table indices.
pub proof fn lemma_distinct_pages(a: u32, b: u32)
    requires
        a & 0xFFF == 0,
        b & 0xFFF == 0,
        a != b,
    ensures
        a >> 22 != b >> 22 || (a & 0x3F_F000) >> 12 != (b & 0x3F_F000) >> 12,
{
    assert(a >> 22 != b >> 22 || (a & 0x3F_F000) >> 12 != (b & 0x3F_F000) >> 12) by (bit_vector)
        requires
            a & 0xFFF == 0,
            b & 0xFFF == 0,
            a != b,
    ;
}

/// An address has the table indices of the page it lies in, and is that
/// page plus its low twelve bits.
pub proof fn lemma_page_of(address: u32)
    ensures
        (address & 0xFFFF_F000) >> 22 == address >> 22,
        ((address & 0xFFFF_F000) & 0x3F_F000) >> 12 == (address & 0x3F_F000) >> 12,
        (address & 0xFFFF_F000) & 0xFFF == 0,
        (address & 0xFFFF_F000) | (address & 0xFFF) == address,
        address & 0xFFF < 0x1000,
{
    assert((address & 0xFFFF_F000) >> 22 == address >> 22 && ((address & 0xFFFF_F000) & 0x3F_F000)
        >> 12 == (address & 0x3F_F000) >> 12 && (address & 0xFFFF_F000) & 0xFFF == 0 && (address
        & 0xFFFF_F000) | (address & 0xFFF) == address && address & 0xFFF < 0x1000)
        by (bit_vector);
}

/// The page of table index `t` under directory index `d` has those indices.
pub proof fn lemma_table_page(d: u32, t: u32)
    requires
        d < 1024,
        t < 1024,
    ensures
        d * 0x40_0000 + t * 0x1000 <= 0xFFFF_F000,
        (d * 0x40_0000 + t * 0x1000) as u32 >> 22 == d,
        ((d * 0x40_0000 + t * 0x1000) as u32 & 0x3F_F000) >> 12 == t,
        (d * 0x40_0000 + t * 0x1000) as u32 & 0xFFF == 0,
{
    assert(d * 0x40_0000 + t * 0x1000 <= 0xFFFF_F000 && (d * 0x40_0000 + t * 0x1000) as u32 >> 22
        == d && ((d * 0x40_0000 + t * 0x1000) as u32 & 0x3F_F000) >> 12 == t && (d * 0x40_0000 + t
        * 0x1000) as u32 & 0xFFF == 0) by (bit_vector)
        requires
            d < 1024,
            t < 1024,
    ;
}

/// An address in the four mebibytes of directory index `d` has that
/// directory index.
pub proof fn lemma_directory_range(address: u32, d: u32)
    requires
        d < 1023,
        d * 0x40_0000 <= address < (d + 1) * 0x40_0000,
    ensures
        address >> 22 == d,
{
    assert(address >> 22 == d) by (bit_vector)
        requires
            d < 1023,
            d * 0x40_0000 <= address < (d + 1) * 0x40_0000,
    ;
}

} // verus!
