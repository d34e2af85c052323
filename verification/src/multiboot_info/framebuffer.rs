//! The tag that describes the framebuffer.

use crate::multiboot_info::{holds_tag, read_u32, read_u64, tag_at, u32_at, u64_at};
use vstd::prelude::*;

verus! {

/// Number of bytes of a framebuffer tag that are read.
pub const FRAMEBUFFER_TAG_SIZE: u32 = 31;

#[derive(Debug, Copy, Clone, PartialEq, Eq, Structural)]
pub struct FramebufferTag {
    pub typ: u32,
    pub size: u32,
    pub framebuffer_addr: u64,
    pub framebuffer_pitch: u32,
    pub framebuffer_width: u32,
    pub framebuffer_height: u32,
    pub framebuffer_bpp: u8,
    pub framebuffer_type: u8,
    pub reserved: u8,
}

/// The framebuffer tag that lies at `offset`.
pub open spec fn framebuffer_at(bytes: Seq<u8>, offset: int) -> FramebufferTag {
    FramebufferTag {
        typ: tag_at(bytes, offset).typ,
        size: tag_at(bytes, offset).size,
        framebuffer_addr: u64_at(bytes, offset + 8),
        framebuffer_pitch: u32_at(bytes, offset + 16),
        framebuffer_width: u32_at(bytes, offset + 20),
        framebuffer_height: u32_at(bytes, offset + 24),
        framebuffer_bpp: bytes[offset + 28],
        framebuffer_type: bytes[offset + 29],
        reserved: bytes[offset + 30],
    }
}

/// Reads the framebuffer tag that lies at `offset`.
pub fn read_framebuffer(bytes: &Vec<u8>, offset: usize) -> (tag: FramebufferTag)
    requires
        holds_tag(bytes@, offset as int),
        tag_at(bytes@, offset as int).size >= FRAMEBUFFER_TAG_SIZE,
    ensures
        tag == framebuffer_at(bytes@, offset as int),
{
    let len: usize = bytes.len();
    FramebufferTag {
        typ: read_u32(bytes, offset),
        size: read_u32(bytes, offset + 4),
        framebuffer_addr: read_u64(bytes, offset + 8),
        framebuffer_pitch: read_u32(bytes, offset + 16),
        framebuffer_width: read_u32(bytes, offset + 20),
        framebuffer_height: read_u32(bytes, offset + 24),
        framebuffer_bpp: bytes[offset + 28],
        framebuffer_type: bytes[offset + 29],
        reserved: bytes[offset + 30],
    }
}

} // verus!
