//! The information block that a Multiboot2 boot loader hands to the kernel.
//!
//! The block is a header of eight bytes followed by tags. A tag begins with
//! its type and its size, four bytes each, and the next tag begins at the
//! next multiple of eight bytes. The tag of type 0 and size 8 ends the block.
//! All numbers are little-endian.

pub mod framebuffer;
pub mod memory_map;

use crate::multiboot_info::framebuffer::{framebuffer_at, read_framebuffer, FramebufferTag, FRAMEBUFFER_TAG_SIZE};
use crate::multiboot_info::memory_map::{entries_of, read_memory_map, MemoryMap};
use vstd::prelude::*;

verus! {

/// The value that a compliant boot loader passes along with the block.
pub const MULTIBOOT2_MAGIC: u32 = 0x36d76289;

/// Type of the tag that holds the memory map.
pub const TAG_MEMORY_MAP: u32 = 6;

/// Type of the tag that describes the framebuffer.
pub const TAG_FRAMEBUFFER: u32 = 8;

/// Type of the tag that holds the ELF section headers.
pub const TAG_ELF_SECTIONS: u32 = 9;

/// Size of the header of the block, and of the header of a tag.
pub const HEADER_BYTES: usize = 8;

/// Whether the kernel was started by a Multiboot2-compliant boot loader.
pub fn is_multiboot2(magic_number: u32) -> (compliant: bool)
    ensures
        compliant == (magic_number == MULTIBOOT2_MAGIC),
{
    magic_number == MULTIBOOT2_MAGIC
}

/// The little-endian number in the four bytes at `offset`.
pub open spec fn u32_at(bytes: Seq<u8>, offset: int) -> u32 {
    bytes[offset] as u32 | (bytes[offset + 1] as u32) << 8 | (bytes[offset + 2] as u32) << 16 | (
    bytes[offset + 3] as u32) << 24
}

/// The little-endian number in the eight bytes at `offset`.
pub open spec fn u64_at(bytes: Seq<u8>, offset: int) -> u64 {
    u32_at(bytes, offset) as u64 | (u32_at(bytes, offset + 4) as u64) << 32
}

/// Reads the little-endian number in the four bytes at `offset`.
pub fn read_u32(bytes: &Vec<u8>, offset: usize) -> (value: u32)
    requires
        offset + 4 <= bytes@.len(),
    ensures
        value == u32_at(bytes@, offset as int),
{
    let len: usize = bytes.len();
    bytes[offset] as u32 | (bytes[offset + 1] as u32) << 8 | (bytes[offset + 2] as u32) << 16 | (
    bytes[offset + 3] as u32) << 24
}

/// Reads the little-endian number in the eight bytes at `offset`.
pub fn read_u64(bytes: &Vec<u8>, offset: usize) -> (value: u64)
    requires
        offset + 8 <= bytes@.len(),
    ensures
        value == u64_at(bytes@, offset as int),
{
    let len: usize = bytes.len();
    read_u32(bytes, offset) as u64 | (read_u32(bytes, offset + 4) as u64) << 32
}

/// The fixed part at the start of the block.
#[derive(Debug, Copy, Clone, PartialEq, Eq, Structural)]
pub struct FixedPart {
    pub total_size: u32,
    pub reserved: u32,
}

/// The header of a tag.
#[derive(Debug, Copy, Clone, PartialEq, Eq, Structural)]
pub struct Tag {
    pub typ: u32,
    pub size: u32,
}

impl Tag {
    /// Whether this is the tag that ends the block.
    pub open spec fn is_end(self) -> bool {
        self.typ == 0 && self.size == 8
    }

    /// Distance in bytes to the tag that follows: the size, rounded up to
    /// the next multiple of eight.
    pub open spec fn stride(self) -> int {
        (self.size + 7) / 8 * 8
    }
}

/// The header of the tag at `offset`.
pub open spec fn tag_at(bytes: Seq<u8>, offset: int) -> Tag {
    Tag { typ: u32_at(bytes, offset), size: u32_at(bytes, offset + 4) }
}

/// Whether a whole tag lies at `offset`: its header and the bytes that its
/// size announces are inside the block.
pub open spec fn holds_tag(bytes: Seq<u8>, offset: int) -> bool {
    &&& 0 <= offset
    &&& offset + 8 <= bytes.len()
    &&& tag_at(bytes, offset).size >= 8
    &&& offset + tag_at(bytes, offset).size <= bytes.len()
}

/// Offsets of the tags from `offset` on, up to the end tag or to the first
/// place at which no whole tag lies.
pub open spec fn tag_offsets(bytes: Seq<u8>, offset: int) -> Seq<int>
    decreases bytes.len() + 8 - offset,
{
    if !holds_tag(bytes, offset) || tag_at(bytes, offset).is_end() {
        Seq::empty()
    } else {
        seq![offset] + tag_offsets(bytes, offset + tag_at(bytes, offset).stride())
    }
}

/// Offset of the first tag of type `typ` from `offset` on.
pub open spec fn find_tag(bytes: Seq<u8>, offset: int, typ: u32) -> Option<int>
    decreases bytes.len() + 8 - offset,
{
    if !holds_tag(bytes, offset) || tag_at(bytes, offset).is_end() {
        None
    } else if tag_at(bytes, offset).typ == typ {
        Some(offset)
    } else {
        find_tag(bytes, offset + tag_at(bytes, offset).stride(), typ)
    }
}

/// The information block: the address at which the boot loader left it, and
/// its bytes.
#[derive(Debug, Clone)]
pub struct MultibootInfo {
    pub inner: u32,
    pub block: Vec<u8>,
}

/// A position in the sequence of tags of a block.
#[derive(Debug, Copy, Clone)]
pub struct MultibootInfoIntoIter {
    pub inner: usize,
}

impl MultibootInfoIntoIter {
    /// The tag at the current position and its offset, unless the tags have
    /// ended; moves on to the tag that follows.
    pub fn next(&mut self, info: &MultibootInfo) -> (item: Option<(usize, Tag)>)
        ensures
            match item {
                Some((offset, tag)) => {
                    &&& offset == old(self).inner
                    &&& holds_tag(info.block@, offset as int)
                    &&& tag == tag_at(info.block@, offset as int)
                    &&& !tag.is_end()
                    &&& offset < final(self).inner <= info.block@.len()
                    &&& tag_offsets(info.block@, offset as int) == seq![offset as int] + tag_offsets(
                        info.block@,
                        final(self).inner as int,
                    )
                    &&& forall|t: u32| #[trigger]
                        find_tag(info.block@, offset as int, t) == if tag.typ == t {
                            Some(offset as int)
                        } else {
                            find_tag(info.block@, final(self).inner as int, t)
                        }
                },
                None => {
                    &&& final(self).inner == old(self).inner
                    &&& tag_offsets(info.block@, old(self).inner as int) == Seq::<int>::empty()
                    &&& forall|t: u32| #[trigger]
                        find_tag(info.block@, old(self).inner as int, t) is None
                },
            },
    {
        let offset: usize = self.inner;
        let len: usize = info.block.len();
        if offset > len || len - offset < HEADER_BYTES {
            return None;
        }
        let tag = Tag { typ: read_u32(&info.block, offset), size: read_u32(&info.block, offset + 4) };
        if tag.size < 8 || tag.size as usize > len - offset {
            return None;
        }
        if tag.typ == 0 && tag.size == 8 {
            return None;
        }
        let stride: u64 = if tag.size % 8 == 0 {
            tag.size as u64
        } else {
            (tag.size - tag.size % 8) as u64 + 8
        };
        assert(stride == tag.stride());
        assert(holds_tag(info.block@, offset as int));
        assert(tag == tag_at(info.block@, offset as int));
        if stride > (len - offset) as u64 {
            proof {
                assert(!holds_tag(info.block@, offset + tag.stride()));
                assert(!holds_tag(info.block@, len as int));
                assert(tag_offsets(info.block@, offset + tag.stride()) == Seq::<int>::empty());
                assert(tag_offsets(info.block@, len as int) == Seq::<int>::empty());
                assert forall|t: u32|
                    find_tag(info.block@, offset + tag.stride(), t) == find_tag(
                        info.block@,
                        len as int,
                        t,
                    ) by {}
            }
            self.inner = len;
        } else {
            self.inner = offset + stride as usize;
        }
        assert(tag_offsets(info.block@, offset as int) == seq![offset as int] + tag_offsets(
            info.block@,
            offset + tag.stride(),
        ));
        Some((offset, tag))
    }
}

impl MultibootInfo {
    /// The block that lies at address `inner` and holds `block`.
    pub fn new(inner: u32, block: Vec<u8>) -> (info: MultibootInfo)
        ensures
            info.inner == inner,
            info.block == block,
    {
        MultibootInfo { inner, block }
    }

    /// The fixed part at the start of the block, if the block holds one.
    pub fn fixed_part(&self) -> (fixed: Option<FixedPart>)
        ensures
            fixed == if self.block@.len() >= 8 {
                Some(
                    FixedPart {
                        total_size: u32_at(self.block@, 0),
                        reserved: u32_at(self.block@, 4),
                    },
                )
            } else {
                None
            },
    {
        if self.block.len() < HEADER_BYTES {
            return None;
        }
        Some(FixedPart { total_size: read_u32(&self.block, 0), reserved: read_u32(&self.block, 4) })
    }

    /// The position of the first tag.
    pub fn into_iter(&self) -> (iter: MultibootInfoIntoIter)
        ensures
            iter.inner == HEADER_BYTES,
    {
        MultibootInfoIntoIter { inner: HEADER_BYTES }
    }

    /// Headers of all the tags of the block but the end tag, in order.
    pub fn tags(&self) -> (tags: Vec<Tag>)
        ensures
            tags@.len() == tag_offsets(self.block@, HEADER_BYTES as int).len(),
            forall|i: int|
                0 <= i < tags@.len() ==> #[trigger] tags@[i] == tag_at(
                    self.block@,
                    tag_offsets(self.block@, HEADER_BYTES as int)[i],
                ),
    {
        let ghost all = tag_offsets(self.block@, HEADER_BYTES as int);
        let mut tags: Vec<Tag> = Vec::new();
        let mut iter = self.into_iter();
        loop
            invariant
                all == tag_offsets(self.block@, HEADER_BYTES as int),
                tags@.len() <= all.len(),
                all == all.subrange(0, tags@.len() as int) + tag_offsets(
                    self.block@,
                    iter.inner as int,
                ),
                forall|i: int|
                    0 <= i < tags@.len() ==> #[trigger] tags@[i] == tag_at(self.block@, all[i]),
                iter.inner <= self.block@.len() || tag_offsets(self.block@, iter.inner as int)
                    == Seq::<int>::empty(),
            decreases self.block@.len() - iter.inner,
        {
            let ghost before = iter.inner;
            let ghost rest = tag_offsets(self.block@, iter.inner as int);
            match iter.next(self) {
                Some((offset, tag)) => {
                    proof {
                        let following = tag_offsets(self.block@, iter.inner as int);
                        assert(rest =~= seq![offset as int] + following);
                        assert(all =~= all.subrange(0, tags@.len() as int) + rest);
                        assert(all[tags@.len() as int] == offset);
                        assert(all.subrange(0, tags@.len() as int + 1) =~= all.subrange(
                            0,
                            tags@.len() as int,
                        ) + seq![offset as int]);
                        assert(all =~= all.subrange(0, tags@.len() as int + 1) + following);
                    }
                    tags.push(tag);
                },
                None => {
                    proof {
                        assert(all =~= all.subrange(0, tags@.len() as int));
                    }
                    return tags;
                },
            }
        }
    }

    /// Offset and header of the first tag of type `typ`.
    pub fn get_tag(&self, typ: u32) -> (found: Option<(usize, Tag)>)
        ensures
            match found {
                Some((offset, tag)) => find_tag(self.block@, HEADER_BYTES as int, typ) == Some(
                    offset as int,
                ) && tag == tag_at(self.block@, offset as int) && tag.typ == typ && holds_tag(
                    self.block@,
                    offset as int,
                ),
                None => find_tag(self.block@, HEADER_BYTES as int, typ) is None,
            },
    {
        let mut iter = self.into_iter();
        loop
            invariant
                find_tag(self.block@, HEADER_BYTES as int, typ) == find_tag(
                    self.block@,
                    iter.inner as int,
                    typ,
                ),
            decreases self.block@.len() - iter.inner,
        {
            match iter.next(self) {
                Some((offset, tag)) => {
                    if tag.typ == typ {
                        return Some((offset, tag));
                    }
                },
                None => {
                    return None;
                },
            }
        }
    }

    /// The memory map of the block: the contents of its first tag of type 6.
    pub fn get_memory_map(&self) -> (map: Option<MemoryMap>)
        ensures
            match map {
                Some(m) => find_tag(self.block@, HEADER_BYTES as int, TAG_MEMORY_MAP) matches Some(
                    offset,
                ) && tag_at(self.block@, offset).size >= 16 && m.tag.size == tag_at(
                    self.block@,
                    offset,
                ).size && m@ == entries_of(self.block@, offset),
                None => !(find_tag(self.block@, HEADER_BYTES as int, TAG_MEMORY_MAP) matches Some(
                    offset,
                ) && tag_at(self.block@, offset).size >= 16),
            },
    {
        match self.get_tag(TAG_MEMORY_MAP) {
            Some((offset, tag)) => {
                if tag.size < 16 {
                    return None;
                }
                Some(read_memory_map(&self.block, offset, tag))
            },
            None => None,
        }
    }

    /// The description of the framebuffer: the contents of the first tag of
    /// type 8 of the block.
    pub fn get_framebuffer(&self) -> (framebuffer: Option<FramebufferTag>)
        ensures
            match framebuffer {
                Some(f) => find_tag(self.block@, HEADER_BYTES as int, TAG_FRAMEBUFFER) matches Some(
                    offset,
                ) && tag_at(self.block@, offset).size >= FRAMEBUFFER_TAG_SIZE && f
                    == framebuffer_at(self.block@, offset),
                None => !(find_tag(
                    self.block@,
                    HEADER_BYTES as int,
                    TAG_FRAMEBUFFER,
                ) matches Some(offset) && tag_at(self.block@, offset).size
                    >= FRAMEBUFFER_TAG_SIZE),
            },
    {
        match self.get_tag(TAG_FRAMEBUFFER) {
            Some((offset, tag)) => {
                if tag.size < FRAMEBUFFER_TAG_SIZE {
                    return None;
                }
                Some(read_framebuffer(&self.block, offset))
            },
            None => None,
        }
    }
}

} // verus!
