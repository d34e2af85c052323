//! Physical page frames management
//!
//! Keeps track of the availability of each physical page frame in a bitmap:
//! one bit per frame, set while the frame is in use.

use crate::bits::{has_bit, bit_mask, lemma_all_bits_set, lemma_clear_bit, lemma_empty_word, lemma_extend_high_bits, lemma_full_word, lemma_set_bit, high_bits};
use crate::multiboot_info::memory_map::{MemoryMap, MemoryMapEntry, AVAILABLE};
use vstd::prelude::*;

verus! {

/// Size of a page frame in bytes.
pub const PAGE_SIZE_4K: u32 = 4096;

/// Size of the physical memory that the bitmap covers, in bytes.
pub const RAM_SIZE: u32 = 0x8000000;

/// Number of page frames that the bitmap covers.
pub const N_FRAMES: usize = 32768;

/// Number of 32-bit words in the bitmap.
pub const BITMAP_LEN: usize = 1024;

/// Whether `address` lies on a page boundary.
pub open spec fn page_aligned(address: u32) -> bool {
    address & 0xFFF == 0
}

/// A page-aligned address is a multiple of the page size, and conversely.
pub proof fn lemma_page_aligned(address: u32)
    ensures
        page_aligned(address) <==> address % 4096 == 0,
{
    assert((address & 0xFFF == 0) <==> (address % 4096 == 0)) by (bit_vector);
}

/// The lowest frame at or after `from` that is not in `used`, or `N_FRAMES`
/// when every frame from `from` on is in use.
pub open spec fn lowest_free(used: Set<int>, from: int) -> int
    decreases N_FRAMES - from,
{
    if from >= N_FRAMES {
        N_FRAMES as int
    } else if !used.contains(from) {
        from
    } else {
        lowest_free(used, from + 1)
    }
}

/// What `lowest_free` returns is free, and nothing below it (from `from` on) is.
pub proof fn lemma_lowest_free(used: Set<int>, from: int)
    requires
        0 <= from,
    ensures
        from <= lowest_free(used, from) || lowest_free(used, from) == N_FRAMES,
        lowest_free(used, from) <= N_FRAMES,
        lowest_free(used, from) < N_FRAMES ==> !used.contains(lowest_free(used, from)),
        forall|frame: int| from <= frame < lowest_free(used, from) ==> used.contains(frame),
    decreases N_FRAMES - from,
{
    if from < N_FRAMES && used.contains(from) {
        lemma_lowest_free(used, from + 1);
    }
}

/// A free frame with nothing free below it is the lowest free frame.
pub proof fn lemma_lowest_free_is(used: Set<int>, from: int, frame: int)
    requires
        0 <= from <= frame <= N_FRAMES,
        frame < N_FRAMES ==> !used.contains(frame),
        forall|below: int| from <= below < frame ==> used.contains(below),
    ensures
        lowest_free(used, from) == frame,
    decreases frame - from,
{
    if from < frame {
        lemma_lowest_free_is(used, from + 1, frame);
    }
}

/// Two frames taken one after the other are different frames, and both
/// begin on a page boundary.
pub proof fn lemma_alloc_twice_distinct(used: Set<int>)
    requires
        lowest_free(used, 0) < N_FRAMES,
        lowest_free(used.insert(lowest_free(used, 0)), 0) < N_FRAMES,
    ensures
        lowest_free(used, 0) != lowest_free(used.insert(lowest_free(used, 0)), 0),
        page_aligned((lowest_free(used, 0) * 4096) as u32),
        page_aligned((lowest_free(used.insert(lowest_free(used, 0)), 0) * 4096) as u32),
{
    let first = lowest_free(used, 0);
    lemma_lowest_free(used, 0);
    lemma_lowest_free(used.insert(first), 0);
    lemma_page_aligned((first * 4096) as u32);
    lemma_page_aligned((lowest_free(used.insert(first), 0) * 4096) as u32);
}

/// A frame that is given back while no frame below it is available is the
/// frame that is taken next.
pub proof fn lemma_free_then_alloc(used: Set<int>, frame: int)
    requires
        0 <= frame < N_FRAMES,
        used.contains(frame),
        forall|below: int| 0 <= below < frame ==> used.contains(below),
    ensures
        lowest_free(used.remove(frame), 0) == frame,
{
    lemma_lowest_free_is(used.remove(frame), 0, frame);
}

/// A frame that was taken is not available, and a frame that was given back
/// is; no other frame changes.
pub proof fn lemma_availability(used: Set<int>, frame: int, other: int)
    ensures
        used.insert(frame).contains(frame),
        !used.remove(frame).contains(frame),
        other != frame ==> used.insert(frame).contains(other) == used.contains(other),
        other != frame ==> used.remove(frame).contains(other) == used.contains(other),
{
}

/// Whether frame number `frame` holds a byte of the `length` bytes at `base`.
pub open spec fn frame_touches(frame: int, base: u64, length: u64) -> bool {
    length > 0 && frame * 4096 < base + length && base < (frame + 1) * 4096
}

/// The frames of the bitmap that hold a byte of the `length` bytes at `base`.
pub open spec fn frames_of(base: u64, length: u64) -> Set<int> {
    Set::new(|frame: int| 0 <= frame < N_FRAMES && frame_touches(frame, base, length))
}

/// The frames of the bitmap that hold a byte of memory which an entry of the
/// memory map describes as anything but available.
pub open spec fn reserved_frames(entries: Seq<MemoryMapEntry>) -> Set<int>
    decreases entries.len(),
{
    if entries.len() == 0 {
        Set::empty()
    } else if entries.last().typ != AVAILABLE {
        reserved_frames(entries.drop_last()).union(
            frames_of(entries.last().base_addr, entries.last().length),
        )
    } else {
        reserved_frames(entries.drop_last())
    }
}

/// A frame is reserved exactly if it holds a byte of some entry that is not
/// available.
pub proof fn lemma_reserved_frames(entries: Seq<MemoryMapEntry>, frame: int)
    ensures
        reserved_frames(entries).contains(frame) <==> exists|i: int|
            0 <= i < entries.len() && (#[trigger] entries[i]).typ != AVAILABLE && frames_of(
                entries[i].base_addr,
                entries[i].length,
            ).contains(frame),
    decreases entries.len(),
{
    if entries.len() > 0 {
        let rest = entries.drop_last();
        lemma_reserved_frames(rest, frame);
        if reserved_frames(entries).contains(frame) {
            if reserved_frames(rest).contains(frame) {
                let i = choose|i: int|
                    0 <= i < rest.len() && (#[trigger] rest[i]).typ != AVAILABLE && frames_of(
                        rest[i].base_addr,
                        rest[i].length,
                    ).contains(frame);
                assert(entries[i] == rest[i]);
            } else {
                assert(entries[entries.len() - 1] == entries.last());
            }
        }
        if exists|i: int|
            0 <= i < entries.len() && (#[trigger] entries[i]).typ != AVAILABLE && frames_of(
                entries[i].base_addr,
                entries[i].length,
            ).contains(frame) {
            let i = choose|i: int|
                0 <= i < entries.len() && (#[trigger] entries[i]).typ != AVAILABLE && frames_of(
                    entries[i].base_addr,
                    entries[i].length,
                ).contains(frame);
            if i < entries.len() - 1 {
                assert(rest[i] == entries[i]);
            }
        }
    }
}

#[derive(Debug, Copy, Clone, PartialEq, Eq, Structural)]
pub enum PhysicalMemoryError {
    NoFrameAvailable,
    FrameAlreadyInUse,
    FrameNotInUse,
}

/// A page frame, named by the physical address of its first byte.
#[derive(Copy, Clone)]
pub struct PageFrame(u32);

impl PageFrame {
    /// The physical address of the frame.
    pub closed spec fn view(&self) -> u32 {
        self.0
    }

    /// The number of the frame: its address in units of pages.
    pub open spec fn number(&self) -> int {
        self@ as int / 4096
    }

    pub fn new(address: u32) -> (frame: PageFrame)
        requires
            page_aligned(address),
        ensures
            frame@ == address,
    {
        PageFrame(address)
    }

    /// Index of the bitmap word that holds the frame's bit.
    pub fn index(&self) -> (i: usize)
        ensures
            i == self.number() / 32,
    {
        (self.0 / PAGE_SIZE_4K / 32) as usize
    }

    /// Position of the frame's bit in its word, counted from the most
    /// significant bit.
    pub fn offset(&self) -> (o: usize)
        ensures
            o == self.number() % 32,
    {
        (self.0 / PAGE_SIZE_4K % 32) as usize
    }

    pub fn address(&self) -> (a: u32)
        ensures
            a == self@,
    {
        self.0
    }
}

/// Bitmap representation of physical memory
///
/// One bit for each page frame:
/// - Set => in use
/// - Clear => available
pub struct FrameManager {
    bitmap: Vec<u32>,
    skip: usize,
}

impl FrameManager {
    /// Whether the bit of frame number `frame` is set.
    pub closed spec fn is_used(&self, frame: int) -> bool {
        has_bit(self.bitmap@[frame / 32], (frame % 32) as u32)
    }

    /// The frames in use, by number.
    pub open spec fn view(&self) -> Set<int> {
        Set::new(|frame: int| 0 <= frame < N_FRAMES && self.is_used(frame))
    }

    /// Index of the word at which the search for an available frame starts.
    pub closed spec fn hint(&self) -> int {
        self.skip as int
    }

    /// No frame below the word at which the search starts is available.
    pub proof fn lemma_hint(&self, frame: int)
        requires
            self.wf(),
            0 <= frame < N_FRAMES,
            !self@.contains(frame),
        ensures
            self.hint() <= frame / 32,
    {
        if frame / 32 < self.skip {
            lemma_full_word((frame % 32) as u32);
        }
    }

    /// The bitmap has its full length, and no word below the `skip` hint
    /// holds a clear bit.
    pub closed spec fn wf(&self) -> bool {
        &&& self.bitmap@.len() == BITMAP_LEN
        &&& self.skip < BITMAP_LEN
        &&& forall|w: int| 0 <= w < self.skip ==> #[trigger] self.bitmap@[w] == 0xFFFF_FFFFu32
    }

    /// A bitmap in which every frame is available.
    pub fn new() -> (manager: FrameManager)
        ensures
            manager.wf(),
            manager.hint() == 0,
            manager@ == Set::<int>::empty(),
    {
        let mut bitmap: Vec<u32> = Vec::new();
        let mut i: usize = 0;
        while i < BITMAP_LEN
            invariant
                i <= BITMAP_LEN,
                bitmap@.len() == i,
                forall|w: int| 0 <= w < i ==> #[trigger] bitmap@[w] == 0u32,
            decreases BITMAP_LEN - i,
        {
            bitmap.push(0u32);
            i += 1;
        }
        let manager = FrameManager { bitmap, skip: 0 };
        proof {
            assert forall|frame: int| !manager@.contains(frame) by {
                if 0 <= frame < N_FRAMES {
                    lemma_empty_word((frame % 32) as u32);
                }
            }
            assert(manager@ =~= Set::<int>::empty());
        }
        manager
    }

    /// The word and bit at which `frame` is stored say whether it is in use.
    proof fn lemma_is_used(&self, frame: int)
        requires
            0 <= frame < N_FRAMES,
        ensures
            self@.contains(frame) == has_bit(self.bitmap@[frame / 32], (frame % 32) as u32),
    {
    }

    /// Replacing the word `index` by one with bit `offset` set marks one more frame.
    proof fn lemma_word_set(&self, before: &FrameManager, index: int, offset: u32)
        requires
            before.bitmap@.len() == BITMAP_LEN,
            0 <= index < BITMAP_LEN,
            offset < 32,
            self.bitmap@ == before.bitmap@.update(index, before.bitmap@[index] | bit_mask(offset)),
        ensures
            self@ == before@.insert(index * 32 + offset),
    {
        let frame = index * 32 + offset;
        assert forall|f: int| self@.contains(f) == before@.insert(frame).contains(f) by {
            if 0 <= f < N_FRAMES {
                if f / 32 == index {
                    lemma_set_bit(before.bitmap@[index], offset, (f % 32) as u32);
                }
            }
        }
        assert(self@ =~= before@.insert(frame));
    }

    /// Replacing the word `index` by one with bit `offset` clear frees one frame.
    proof fn lemma_word_cleared(&self, before: &FrameManager, index: int, offset: u32)
        requires
            before.bitmap@.len() == BITMAP_LEN,
            0 <= index < BITMAP_LEN,
            offset < 32,
            self.bitmap@ == before.bitmap@.update(index, before.bitmap@[index] & !bit_mask(offset)),
        ensures
            self@ == before@.remove(index * 32 + offset),
    {
        let frame = index * 32 + offset;
        assert forall|f: int| self@.contains(f) == before@.remove(frame).contains(f) by {
            if 0 <= f < N_FRAMES {
                if f / 32 == index {
                    lemma_clear_bit(before.bitmap@[index], offset, (f % 32) as u32);
                }
            }
        }
        assert(self@ =~= before@.remove(frame));
    }

    /// The lowest available frame.
    pub fn next_available(&self) -> (r: Result<PageFrame, PhysicalMemoryError>)
        requires
            self.wf(),
        ensures
            match r {
                Ok(page) => lowest_free(self@, 0) < N_FRAMES && page.number() == lowest_free(
                    self@,
                    0,
                ) && page@ == lowest_free(self@, 0) * 4096,
                Err(e) => e == PhysicalMemoryError::NoFrameAvailable && lowest_free(self@, 0)
                    == N_FRAMES,
            },
    {
        let mut i: usize = self.skip;
        while i < BITMAP_LEN && self.bitmap[i] == 0xFFFF_FFFFu32
            invariant
                self.wf(),
                i <= BITMAP_LEN,
                forall|w: int| 0 <= w < i ==> #[trigger] self.bitmap@[w] == 0xFFFF_FFFFu32,
            decreases BITMAP_LEN - i,
        {
            i += 1;
        }
        if i >= BITMAP_LEN {
            proof {
                assert forall|f: int| 0 <= f < N_FRAMES implies self@.contains(f) by {
                    lemma_full_word((f % 32) as u32);
                }
                lemma_lowest_free_is(self@, 0, N_FRAMES as int);
            }
            return Err(PhysicalMemoryError::NoFrameAvailable);
        }
        let word: u32 = self.bitmap[i];
        let mut j: u32 = 0;
        while word & (0x8000_0000u32 >> j) != 0
            invariant
                j < 32,
                word != 0xFFFF_FFFFu32,
                j > 0 ==> word & high_bits(j) == high_bits(j),
                forall|k: u32| k < j ==> has_bit(word, k),
            decreases 32 - j,
        {
            proof {
                lemma_extend_high_bits(word, j);
            }
            j += 1;
        }
        let address: u32 = (i as u32 * 32 + j) * PAGE_SIZE_4K;
        proof {
            let frame = i * 32 + j;
            assert forall|below: int| 0 <= below < frame implies self@.contains(below) by {
                if below / 32 < i {
                    lemma_full_word((below % 32) as u32);
                } else {
                    assert(has_bit(word, (below % 32) as u32));
                }
            }
            assert(!self@.contains(frame));
            lemma_lowest_free_is(self@, 0, frame);
        }
        Ok(PageFrame(address))
    }

    /// Marks `page` as used, unless it already is.
    pub fn mark_as_used(&mut self, page: PageFrame) -> (r: Result<(), PhysicalMemoryError>)
        requires
            old(self).wf(),
            page.number() < N_FRAMES,
        ensures
            final(self).wf(),
            final(self).hint() == old(self).hint(),
            match r {
                Ok(()) => !old(self)@.contains(page.number()) && final(self)@ == old(self)@.insert(
                    page.number(),
                ),
                Err(e) => e == PhysicalMemoryError::FrameAlreadyInUse && old(self)@.contains(
                    page.number(),
                ) && final(self)@ == old(self)@,
            },
    {
        let i: usize = page.index();
        let o: u32 = page.offset() as u32;
        let word: u32 = self.bitmap[i];
        if word & (0x8000_0000u32 >> o) != 0 {
            Err(PhysicalMemoryError::FrameAlreadyInUse)
        } else {
            let ghost before = *self;
            self.bitmap.set(i, word | (0x8000_0000u32 >> o));
            proof {
                self.lemma_word_set(&before, i as int, o);
                if i < self.skip {
                    lemma_full_word(o);
                }
            }
            Ok(())
        }
    }

    /// Marks `page` as available, unless it already is.
    pub fn mark_as_available(&mut self, page: PageFrame) -> (r: Result<
        (),
        PhysicalMemoryError,
    >)
        requires
            old(self).wf(),
            page.number() < N_FRAMES,
        ensures
            final(self).wf(),
            final(self).hint() == if r is Ok && page.number() / 32 < old(self).hint() {
                page.number() / 32
            } else {
                old(self).hint()
            },
            match r {
                Ok(()) => old(self)@.contains(page.number()) && final(self)@ == old(self)@.remove(
                    page.number(),
                ),
                Err(e) => e == PhysicalMemoryError::FrameNotInUse && !old(self)@.contains(
                    page.number(),
                ) && final(self)@ == old(self)@,
            },
    {
        let i: usize = page.index();
        let o: u32 = page.offset() as u32;
        let word: u32 = self.bitmap[i];
        if word & (0x8000_0000u32 >> o) == 0 {
            Err(PhysicalMemoryError::FrameNotInUse)
        } else {
            let ghost before = *self;
            self.bitmap.set(i, word & !(0x8000_0000u32 >> o));
            if i < self.skip {
                self.skip = i;
            }
            proof {
                self.lemma_word_cleared(&before, i as int, o);
            }
            Ok(())
        }
    }

    /// Takes the lowest available frame and returns its physical address.
    pub fn alloc_frame(&mut self) -> (r: Result<u32, PhysicalMemoryError>)
        requires
            old(self).wf(),
        ensures
            final(self).wf(),
            final(self).hint() == if r is Ok {
                lowest_free(old(self)@, 0) / 32
            } else {
                old(self).hint()
            },
            match r {
                Ok(address) => lowest_free(old(self)@, 0) < N_FRAMES && address == lowest_free(
                    old(self)@,
                    0,
                ) * 4096 && final(self)@ == old(self)@.insert(lowest_free(old(self)@, 0)),
                Err(e) => e == PhysicalMemoryError::NoFrameAvailable && lowest_free(
                    old(self)@,
                    0,
                ) == N_FRAMES && final(self)@ == old(self)@,
            },
    {
        match self.next_available() {
            Err(e) => Err(e),
            Ok(p) => {
                proof {
                    lemma_lowest_free(self@, 0);
                }
                let ghost before = *self;
                let marked = self.mark_as_used(p);
                proof {
                    assert forall|w: int| 0 <= w < p.number() / 32 implies 
                        #[trigger] self.bitmap@[w] == 0xFFFF_FFFFu32 by {
                        self.lemma_full_below(w, p.number());
                    }
                }
                self.skip = p.index();
                Ok(p.address())
            },
        }
    }

    /// A word all of whose frames are in use is the all-ones word.
    proof fn lemma_full_below(&self, w: int, frame: int)
        requires
            self.wf(),
            0 <= frame < N_FRAMES,
            0 <= w < frame / 32,
            forall|below: int| 0 <= below < frame ==> self@.contains(below),
        ensures
            self.bitmap@[w] == 0xFFFF_FFFFu32,
    {
        let word = self.bitmap@[w];
        assert forall|offset: u32| offset < 32 implies has_bit(word, offset) by {
            assert(self@.contains(w * 32 + offset));
        }
        lemma_all_bits_set(word);
    }

    /// Takes the frame at `address`, unless it is already in use.
    pub fn alloc_frame_by_address(&mut self, address: u32) -> (r: Result<
        (),
        PhysicalMemoryError,
    >)
        requires
            old(self).wf(),
            page_aligned(address),
            address < RAM_SIZE,
        ensures
            final(self).wf(),
            final(self).hint() == old(self).hint(),
            match r {
                Ok(()) => !old(self)@.contains(address as int / 4096) && final(self)@ == old(
                    self,
                )@.insert(address as int / 4096),
                Err(e) => e == PhysicalMemoryError::FrameAlreadyInUse && old(self)@.contains(
                    address as int / 4096,
                ) && final(self)@ == old(self)@,
            },
    {
        self.mark_as_used(PageFrame::new(address))
    }

    /// Gives back the frame at `address`, unless it is not in use.
    pub fn free_frame(&mut self, address: u32) -> (r: Result<(), PhysicalMemoryError>)
        requires
            old(self).wf(),
            page_aligned(address),
            address < RAM_SIZE,
        ensures
            final(self).wf(),
            final(self).hint() == if r is Ok && address as int / 4096 / 32 < old(self).hint() {
                address as int / 4096 / 32
            } else {
                old(self).hint()
            },
            match r {
                Ok(()) => old(self)@.contains(address as int / 4096) && final(self)@ == old(
                    self,
                )@.remove(address as int / 4096),
                Err(e) => e == PhysicalMemoryError::FrameNotInUse && !old(self)@.contains(
                    address as int / 4096,
                ) && final(self)@ == old(self)@,
            },
    {
        self.mark_as_available(PageFrame::new(address))
    }

    /// Takes the lowest available frame; there is one.
    pub fn get_available_page_frame(&mut self) -> (address: u32)
        requires
            old(self).wf(),
            lowest_free(old(self)@, 0) < N_FRAMES,
        ensures
            final(self).wf(),
            address == lowest_free(old(self)@, 0) * 4096,
            final(self)@ == old(self)@.insert(lowest_free(old(self)@, 0)),
    {
        match self.alloc_frame() {
            Ok(address) => address,
            Err(_) => 0,
        }
    }

    /// Takes the frame at `address`, which is available.
    pub fn get_page_frame(&mut self, address: u32)
        requires
            old(self).wf(),
            page_aligned(address),
            address < RAM_SIZE,
            !old(self)@.contains(address as int / 4096),
        ensures
            final(self).wf(),
            final(self)@ == old(self)@.insert(address as int / 4096),
    {
        let taken = self.mark_as_used(PageFrame::new(address));
    }

    /// Gives back the frame at `address`, which is in use.
    pub fn free_page(&mut self, address: u32)
        requires
            old(self).wf(),
            page_aligned(address),
            address < RAM_SIZE,
            old(self)@.contains(address as int / 4096),
        ensures
            final(self).wf(),
            final(self)@ == old(self)@.remove(address as int / 4096),
    {
        let freed = self.mark_as_available(PageFrame::new(address));
    }

    /// Marks as used every frame that holds a byte of the `length` bytes at
    /// `base`, whether it was in use before or not.
    pub fn reserve_range(&mut self, base: u64, length: u64)
        requires
            old(self).wf(),
        ensures
            final(self).wf(),
            final(self)@ == old(self)@.union(frames_of(base, length)),
    {
        if length == 0 || base / 4096 >= N_FRAMES as u64 {
            assert(self@ =~= old(self)@.union(frames_of(base, length)));
            return ;
        }
        let end: u64 = if length > u64::MAX - base {
            u64::MAX
        } else {
            base + length
        };
        let first: usize = (base / 4096) as usize;
        let after: u64 = end / 4096 + if end % 4096 != 0 {
            1u64
        } else {
            0u64
        };
        let last: usize = if after > N_FRAMES as u64 {
            N_FRAMES
        } else {
            after as usize
        };
        let mut frame: usize = first;
        while frame < last
            invariant
                self.wf(),
                first <= frame,
                frame <= last || last <= first,
                last <= N_FRAMES,
                self@ == old(self)@.union(
                    Set::new(|f: int| first <= f < frame && f < last),
                ),
            decreases last - frame,
        {
            let ghost before = self@;
            proof {
                lemma_page_aligned((frame * 4096) as u32);
            }
            let marked = self.mark_as_used(PageFrame::new(frame as u32 * PAGE_SIZE_4K));
            proof {
                assert(self@ =~= before.insert(frame as int));
                assert(self@ =~= old(self)@.union(
                    Set::new(|f: int| first <= f < frame + 1 && f < last),
                ));
            }
            frame += 1;
        }
        proof {
            assert forall|f: int|
                (first <= f < frame && f < last) == frames_of(base, length).contains(f) by {}
            assert(self@ =~= old(self)@.union(frames_of(base, length)));
        }
    }

    /// Marks as used the frames of all memory that `map` does not describe
    /// as available.
    pub fn import_memory_map(&mut self, map: &MemoryMap)
        requires
            old(self).wf(),
        ensures
            final(self).wf(),
            final(self)@ == old(self)@.union(reserved_frames(map@)),
    {
        let mut i: usize = 0;
        assert(self@ =~= old(self)@.union(reserved_frames(map@.subrange(0, 0))));
        while i < map.entries.len()
            invariant
                self.wf(),
                i <= map@.len(),
                self@ == old(self)@.union(reserved_frames(map@.subrange(0, i as int))),
            decreases map@.len() - i,
        {
            let entry = map.entries[i];
            proof {
                assert(map@.subrange(0, i + 1).drop_last() =~= map@.subrange(0, i as int));
                assert(map@.subrange(0, i + 1).last() == entry);
            }
            if !entry.is_available() {
                self.reserve_range(entry.base_addr, entry.length);
                assert(self@ =~= old(self)@.union(reserved_frames(map@.subrange(0, i + 1))));
            }
            i += 1;
        }
        assert(map@.subrange(0, i as int) =~= map@);
    }

    /// Addresses of the frames in use, in ascending order.
    pub fn used_frames(&self) -> (frames: Vec<u32>)
        requires
            self.wf(),
        ensures
            forall|k: int|
                0 <= k < frames@.len() ==> (#[trigger] frames@[k]) as int % 4096 == 0 && self@.contains(
                    frames@[k] as int / 4096,
                ),
            forall|k: int, l: int| 0 <= k < l < frames@.len() ==> frames@[k] < frames@[l],
            forall|frame: int|
                self@.contains(frame) ==> exists|k: int|
                    0 <= k < frames@.len() && #[trigger] frames@[k] == frame * 4096,
    {
        let mut frames: Vec<u32> = Vec::new();
        let mut frame: usize = 0;
        while frame < N_FRAMES
            invariant
                self.wf(),
                frame <= N_FRAMES,
                forall|k: int|
                    0 <= k < frames@.len() ==> (#[trigger] frames@[k]) as int % 4096 == 0
                        && self@.contains(frames@[k] as int / 4096) && frames@[k] < frame * 4096,
                forall|k: int, l: int| 0 <= k < l < frames@.len() ==> frames@[k] < frames@[l],
                forall|f: int|
                    self@.contains(f) && f < frame ==> exists|k: int|
                        0 <= k < frames@.len() && #[trigger] frames@[k] == f * 4096,
            decreases N_FRAMES - frame,
        {
            let address: u32 = frame as u32 * PAGE_SIZE_4K;
            proof {
                lemma_page_aligned(address);
            }
            let ghost before = frames@;
            if !self.is_available(address) {
                frames.push(address);
            }
            proof {
                assert forall|f: int| self@.contains(f) && f < frame + 1 implies exists|k: int|
                    0 <= k < frames@.len() && #[trigger] frames@[k] == f * 4096 by {
                    if f < frame {
                        let k = choose|k: int|
                            0 <= k < before.len() && #[trigger] before[k] == f * 4096;
                        assert(frames@[k] == f * 4096);
                    } else {
                        assert(frames@[before.len() as int] == f * 4096);
                    }
                }
            }
            frame += 1;
        }
        frames
    }

    /// Whether the frame at `address` is available.
    pub fn is_available(&self, address: u32) -> (available: bool)
        requires
            self.wf(),
            page_aligned(address),
            address < RAM_SIZE,
        ensures
            available == !self@.contains(address as int / 4096),
    {
        let page = PageFrame::new(address);
        let o: u32 = page.offset() as u32;
        self.bitmap[page.index()] & (0x8000_0000u32 >> o) == 0
    }
}

} // verus!
