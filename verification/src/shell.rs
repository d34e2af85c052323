//! Minimal shell
//!
//! Reads an instruction off the bottom line of the screen.
//!
//! # Valid instructions
//! - shutdown
//! - reboot
//! - clear
//! - dump
//!     - seg_reg
//!     - gdtr
//!     - gdt
//!     - bitmap
//!     - stack \[max\]
//!     - trace \[max\]

use crate::writer::screen_writer::{ScreenView, VGAScreen};
use vstd::prelude::*;

verus! {

/// What `dump` is asked to show.
#[derive(Debug, Copy, Clone, PartialEq, Eq, Structural)]
pub enum Dump {
    SegmentRegisters,
    Gdtr,
    Gdt,
    Stack(usize),
    Trace(usize),
    Bitmap,
    Nothing,
}

/// An instruction of the shell.
#[derive(Debug, Copy, Clone, PartialEq, Eq, Structural)]
pub enum Instruction {
    Dump(Dump),
    Shutdown,
    Reboot,
    Clear,
    Nothing,
}

/// Whether `byte` separates words: a blank, a tabulation, a line break, or
/// the zero of an empty cell.
pub open spec fn is_space(byte: u8) -> bool {
    byte == 0 || byte == 0x20 || (0x09 <= byte <= 0x0D)
}

/// The first index from `from` on at which a word begins, or the length of
/// the line.
pub open spec fn word_start(line: Seq<u8>, from: int) -> int
    decreases line.len() - from,
{
    if 0 <= from < line.len() && is_space(line[from]) {
        word_start(line, from + 1)
    } else if from < line.len() {
        from
    } else {
        line.len() as int
    }
}

/// The first index from `from` on at which a word ends, or the length of
/// the line.
pub open spec fn word_end(line: Seq<u8>, from: int) -> int
    decreases line.len() - from,
{
    if 0 <= from < line.len() && !is_space(line[from]) {
        word_end(line, from + 1)
    } else if from < line.len() {
        from
    } else {
        line.len() as int
    }
}

/// The first word of `line` from `from` on; empty if there is none.
pub open spec fn word_at(line: Seq<u8>, from: int) -> Seq<u8> {
    line.subrange(word_start(line, from), word_end(line, word_start(line, from)))
}

/// The number that the decimal digits `digits` stand for, if they are
/// digits and the number fits.
pub open spec fn number_of(digits: Seq<u8>) -> Option<int>
    decreases digits.len(),
{
    if digits.len() == 0 {
        None
    } else if !(0x30 <= digits.last() <= 0x39) {
        None
    } else if digits.len() == 1 {
        Some(digits.last() - 0x30)
    } else {
        match number_of(digits.drop_last()) {
            Some(n) => if n * 10 + (digits.last() - 0x30) <= usize::MAX {
                Some(n * 10 + (digits.last() - 0x30))
            } else {
                None
            },
            None => None,
        }
    }
}

/// The number that `word` stands for, or zero if it stands for none.
pub open spec fn number_or_zero(word: Seq<u8>) -> usize {
    match number_of(word) {
        Some(n) => n as usize,
        None => 0,
    }
}

/// What `dump` shows when `word` follows it, and `number` follows that.
pub open spec fn dump_of(word: Seq<u8>, number: Seq<u8>) -> Dump {
    if word == seq![0x73u8, 0x65, 0x67, 0x5f, 0x72, 0x65, 0x67] {
        Dump::SegmentRegisters
    } else if word == seq![0x67u8, 0x64, 0x74, 0x72] {
        Dump::Gdtr
    } else if word == seq![0x67u8, 0x64, 0x74] {
        Dump::Gdt
    } else if word == seq![0x73u8, 0x74, 0x61, 0x63, 0x6b] {
        Dump::Stack(number_or_zero(number))
    } else if word == seq![0x74u8, 0x72, 0x61, 0x63, 0x65] {
        Dump::Trace(number_or_zero(number))
    } else if word == seq![0x62u8, 0x69, 0x74, 0x6d, 0x61, 0x70] {
        Dump::Bitmap
    } else {
        Dump::Nothing
    }
}

/// The instruction that `line` holds: its first word names it, and the
/// words that follow say what to dump.
pub open spec fn instruction_of(line: Seq<u8>) -> Instruction {
    let first = word_at(line, 0);
    let after_first = word_end(line, word_start(line, 0));
    let second = word_at(line, after_first);
    let after_second = word_end(line, word_start(line, after_first));
    let third = word_at(line, after_second);
    if first == seq![0x64u8, 0x75, 0x6d, 0x70] {
        Instruction::Dump(dump_of(second, third))
    } else if first == seq![0x73u8, 0x68, 0x75, 0x74, 0x64, 0x6f, 0x77, 0x6e] {
        Instruction::Shutdown
    } else if first == seq![0x72u8, 0x65, 0x62, 0x6f, 0x6f, 0x74] {
        Instruction::Reboot
    } else if first == seq![0x63u8, 0x6c, 0x65, 0x61, 0x72] {
        Instruction::Clear
    } else {
        Instruction::Nothing
    }
}

/// Whether `byte` separates words.
pub fn separates(byte: u8) -> (space: bool)
    ensures
        space == is_space(byte),
{
    byte == 0 || byte == 0x20 || (0x09 <= byte && byte <= 0x0D)
}

/// The bounds of the first word of `line` from `from` on.
pub fn next_word(line: &Vec<u8>, from: usize) -> (bounds: (usize, usize))
    requires
        from <= line@.len(),
    ensures
        bounds.0 == word_start(line@, from as int),
        bounds.1 == word_end(line@, bounds.0 as int),
        from <= bounds.0 <= bounds.1 <= line@.len(),
{
    let mut start: usize = from;
    while start < line.len() && separates(line[start])
        invariant
            from <= start <= line@.len(),
            word_start(line@, from as int) == word_start(line@, start as int),
        decreases line@.len() - start,
    {
        start += 1;
    }
    let mut end: usize = start;
    while end < line.len() && !separates(line[end])
        invariant
            start <= end <= line@.len(),
            word_end(line@, start as int) == word_end(line@, end as int),
        decreases line@.len() - end,
    {
        end += 1;
    }
    (start, end)
}

/// Whether the bytes of `line` from `start` up to `end` are those of `word`.
pub fn is_word(line: &Vec<u8>, start: usize, end: usize, word: &Vec<u8>) -> (same: bool)
    requires
        start <= end <= line@.len(),
    ensures
        same == (line@.subrange(start as int, end as int) == word@),
{
    if end - start != word.len() {
        return false;
    }
    let mut i: usize = 0;
    while i < word.len()
        invariant
            i <= word@.len(),
            start <= end <= line@.len(),
            end - start == word@.len(),
            forall|k: int| 0 <= k < i ==> line@[start + k] == word@[k],
        decreases word@.len() - i,
    {
        if line[start + i] != word[i] {
            assert(line@.subrange(start as int, end as int)[i as int] != word@[i as int]);
            return false;
        }
        i += 1;
    }
    assert(line@.subrange(start as int, end as int) =~= word@);
    true
}

/// The number that the bytes of `line` from `start` up to `end` stand for,
/// or zero if they stand for none.
pub fn get_number(line: &Vec<u8>, start: usize, end: usize) -> (number: usize)
    requires
        start <= end <= line@.len(),
    ensures
        number == number_or_zero(line@.subrange(start as int, end as int)),
{
    if start == end {
        assert(line@.subrange(start as int, end as int).len() == 0);
        return 0;
    }
    let ghost word = line@.subrange(start as int, end as int);
    let mut number: usize = 0;
    let mut i: usize = start;
    while i < end
        invariant
            start <= i <= end <= line@.len(),
            word == line@.subrange(start as int, end as int),
            i == start ==> number == 0,
            i > start ==> number_of(word.subrange(0, i - start)) == Some(number as int),
        decreases end - i,
    {
        let digit: u8 = line[i];
        proof {
            assert(word.subrange(0, i - start + 1).drop_last() =~= word.subrange(0, i - start));
            assert(word.subrange(0, i - start + 1).last() == digit);
        }
        if digit < 0x30 || digit > 0x39 {
            proof {
                lemma_number_prefix(word, i - start + 1);
            }
            return 0;
        }
        let value: usize = (digit - 0x30) as usize;
        if number > (usize::MAX - value) / 10 {
            proof {
                assert(number * 10 + value > usize::MAX);
                lemma_number_prefix(word, i - start + 1);
            }
            return 0;
        }
        number = number * 10 + value;
        i += 1;
    }
    assert(word.subrange(0, end - start) =~= word);
    number
}

/// Digits that stand for no number do not begin a number either.
pub proof fn lemma_number_prefix(digits: Seq<u8>, upto: int)
    requires
        0 < upto <= digits.len(),
        number_of(digits.subrange(0, upto)) is None,
    ensures
        number_of(digits) is None,
    decreases digits.len() - upto,
{
    if upto < digits.len() {
        assert(digits.subrange(0, upto + 1).drop_last() =~= digits.subrange(0, upto));
        assert(number_of(digits.subrange(0, upto + 1)) is None);
        lemma_number_prefix(digits, upto + 1);
    } else {
        assert(digits.subrange(0, upto) =~= digits);
    }
}

/// What is to be dumped, going by the two words of `line` that begin at or
/// after `from`.
pub fn dump(line: &Vec<u8>, from: usize) -> (target: Dump)
    requires
        from <= line@.len(),
    ensures
        target == dump_of(
            word_at(line@, from as int),
            word_at(line@, word_end(line@, word_start(line@, from as int))),
        ),
{
    let (start, end) = next_word(line, from);
    let (number_start, number_end) = next_word(line, end);
    if is_word(line, start, end, &vec![0x73u8, 0x65, 0x67, 0x5f, 0x72, 0x65, 0x67]) {
        Dump::SegmentRegisters
    } else if is_word(line, start, end, &vec![0x67u8, 0x64, 0x74, 0x72]) {
        Dump::Gdtr
    } else if is_word(line, start, end, &vec![0x67u8, 0x64, 0x74]) {
        Dump::Gdt
    } else if is_word(line, start, end, &vec![0x73u8, 0x74, 0x61, 0x63, 0x6b]) {
        Dump::Stack(get_number(line, number_start, number_end))
    } else if is_word(line, start, end, &vec![0x74u8, 0x72, 0x61, 0x63, 0x65]) {
        Dump::Trace(get_number(line, number_start, number_end))
    } else if is_word(line, start, end, &vec![0x62u8, 0x69, 0x74, 0x6d, 0x61, 0x70]) {
        Dump::Bitmap
    } else {
        Dump::Nothing
    }
}

/// The shell: it remembers the line it executed last.
pub struct Shell {
    last_command: Option<Vec<u8>>,
}

impl Shell {
    /// The line that was executed last.
    pub closed spec fn last(&self) -> Option<Seq<u8>> {
        match self.last_command {
            Some(line) => Some(line@),
            None => None,
        }
    }

    /// A shell that has executed nothing yet.
    pub fn new() -> (shell: Shell)
        ensures
            shell.last() is None,
    {
        Shell { last_command: None }
    }

    /// Execute an user shell command
    ///
    /// Reads the bottom line of `screen`, begins a new line, and returns
    /// the instruction that the line holds. The line is remembered.
    pub fn execute(&mut self, screen: &mut VGAScreen) -> (instruction: Instruction)
        requires
            old(screen).wf(),
        ensures
            final(screen).wf(),
            final(screen)@ == old(screen)@.scrolled(),
            instruction == instruction_of(old(screen)@.bottom_line()),
            final(self).last() == Some(old(screen)@.bottom_line()),
    {
        let ascii_line = screen.get_bottom_line();
        screen.write_byte(0x0A);
        let (start, end) = next_word(&ascii_line, 0);
        let instruction = if is_word(&ascii_line, start, end, &vec![0x64u8, 0x75, 0x6d, 0x70]) {
            Instruction::Dump(dump(&ascii_line, end))
        } else if is_word(
            &ascii_line,
            start,
            end,
            &vec![0x73u8, 0x68, 0x75, 0x74, 0x64, 0x6f, 0x77, 0x6e],
        ) {
            Instruction::Shutdown
        } else if is_word(&ascii_line, start, end, &vec![0x72u8, 0x65, 0x62, 0x6f, 0x6f, 0x74]) {
            Instruction::Reboot
        } else if is_word(&ascii_line, start, end, &vec![0x63u8, 0x6c, 0x65, 0x61, 0x72]) {
            Instruction::Clear
        } else {
            Instruction::Nothing
        };
        self.last_command = Some(ascii_line);
        instruction
    }

    /// Load last command
    ///
    /// Replace the current terminal line by the last command that have been
    /// executed, if there is one and it leaves room for the cursor.
    pub fn load_last_command(&self, screen: &mut VGAScreen) -> (loaded: bool)
        requires
            old(screen).wf(),
        ensures
            final(screen).wf(),
            loaded == (self.last() matches Some(line) && ScreenView::last_character(
                line,
                old(screen)@.fitting(line),
            ) + 1 < old(screen)@.width),
            final(screen)@ == if loaded {
                old(screen)@.with_bottom_line(self.last()->0)
            } else {
                old(screen)@
            },
    {
        match &self.last_command {
            Some(cmd) => {
                let count: usize = if cmd.len() < screen.width() {
                    cmd.len()
                } else {
                    screen.width()
                };
                let end: usize = last_character(cmd, count);
                if end < screen.width() - 1 {
                    screen.swap_bottom_line(cmd);
                    true
                } else {
                    false
                }
            },
            None => false,
        }
    }
}

/// The last of the first `upto` bytes of `line` that is not zero, or zero.
pub fn last_character(line: &Vec<u8>, upto: usize) -> (index: usize)
    requires
        upto <= line@.len(),
    ensures
        index == ScreenView::last_character(line@, upto as int),
        index <= upto,
{
    let mut i: usize = upto;
    while i > 0 && line[i - 1] == 0
        invariant
            i <= upto <= line@.len(),
            ScreenView::last_character(line@, upto as int) == ScreenView::last_character(
                line@,
                i as int,
            ),
        decreases i,
    {
        i -= 1;
    }
    if i == 0 {
        0
    } else {
        i - 1
    }
}

} // verus!
