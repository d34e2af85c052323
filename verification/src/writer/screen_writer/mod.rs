//! Writing on the bottom line of a text screen.

pub mod screen_char;

use crate::writer::screen_writer::screen_char::{
    blank,
    blinked,
    unblinked,
    ColorCode,
    ScreenChar,
};
use vstd::prelude::*;

verus! {

/// What a screen is: its size, its cells row by row, the column of the
/// cursor on the bottom line, and the colours in which it writes.
pub struct ScreenView {
    pub width: int,
    pub height: int,
    pub column: int,
    pub color: ColorCode,
    pub cells: Seq<ScreenChar>,
}

impl ScreenView {
    /// The screen has at least one cell, and the cursor is on it.
    pub open spec fn wf(self) -> bool {
        &&& self.width >= 1
        &&& self.height >= 1
        &&& self.cells.len() == self.width * self.height
        &&& self.cells.len() >= self.width
        &&& 0 <= self.column < self.width
    }

    /// Index of the first cell of the bottom line.
    pub open spec fn bottom(self) -> int {
        self.cells.len() - self.width
    }

    /// The cell in column `col` of the bottom line.
    pub open spec fn bottom_cell(self, col: int) -> ScreenChar {
        self.cells[self.bottom() + col]
    }

    /// The screen with the cell in column `col` of the bottom line replaced.
    pub open spec fn with_bottom_cell(self, col: int, c: ScreenChar) -> ScreenView {
        ScreenView { cells: self.cells.update(self.bottom() + col, c), ..self }
    }

    /// The screen with the cursor moved to column `col`.
    pub open spec fn moved(self, col: int) -> ScreenView {
        let left = self.with_bottom_cell(self.column, unblinked(self.bottom_cell(self.column)));
        ScreenView { column: col, ..left.with_bottom_cell(col, blinked(left.bottom_cell(col))) }
    }

    /// The screen with every line moved up by one, an empty bottom line, and
    /// the cursor at its start.
    pub open spec fn scrolled(self) -> ScreenView {
        (ScreenView {
            cells: Seq::new(
                self.cells.len(),
                |i: int|
                    if i < self.bottom() {
                        if i + self.width == self.bottom() + self.column {
                            unblinked(self.cells[i + self.width])
                        } else {
                            self.cells[i + self.width]
                        }
                    } else {
                        blank()
                    },
            ),
            ..self
        }).moved(0)
    }

    /// The screen after `count` new lines.
    pub open spec fn scrolled_by(self, count: nat) -> ScreenView
        decreases count,
    {
        if count == 0 {
            self
        } else {
            self.scrolled().scrolled_by((count - 1) as nat)
        }
    }

    /// The first column from `from` on at which the text of the bottom line
    /// ends: the cell is empty, or the line is.
    pub open spec fn text_end(self, from: int) -> int
        decreases self.width - from,
    {
        if from < self.width && self.bottom_cell(from).ascii_character != 0 {
            self.text_end(from + 1)
        } else {
            from
        }
    }

    /// The text ends at or after the column from which it is followed.
    pub proof fn lemma_text_end(self, from: int)
        ensures
            from <= self.text_end(from),
            from <= self.width ==> self.text_end(from) <= self.width,
        decreases self.width - from,
    {
        if from < self.width && self.bottom_cell(from).ascii_character != 0 {
            self.lemma_text_end(from + 1);
        }
    }

    /// The column up to which the text is pushed to make room at the cursor:
    /// the end of the text, but at most the last column.
    pub open spec fn push_end(self) -> int {
        if self.text_end(self.column) < self.width - 1 {
            self.text_end(self.column)
        } else {
            self.width - 1
        }
    }

    /// The screen with the text from the cursor on pushed one column to the
    /// right; what does not fit is lost.
    pub open spec fn pushed_right(self) -> ScreenView {
        ScreenView {
            cells: Seq::new(
                self.cells.len(),
                |i: int|
                    if self.bottom() + self.column < i <= self.bottom() + self.push_end() {
                        self.cells[i - 1]
                    } else {
                        self.cells[i]
                    },
            ),
            ..self
        }
    }

    /// The screen with the character before the cursor removed: the text
    /// from the cursor on moves one column to the left, and so does the
    /// cursor.
    pub open spec fn pulled_left(self) -> ScreenView {
        (ScreenView {
            cells: Seq::new(
                self.cells.len(),
                |i: int|
                    if self.bottom() + self.column - 1 <= i < self.bottom() + self.text_end(
                        self.column,
                    ) - 1 {
                        self.cells[i + 1]
                    } else if i == self.bottom() + self.text_end(self.column) - 1 {
                        blank()
                    } else {
                        self.cells[i]
                    },
            ),
            ..self
        }).moved(self.column - 1)
    }

    /// The screen after the character `byte` was written at the cursor: the
    /// text under the cursor makes room, and the cursor moves on, to a new
    /// line where this one is full.
    pub open spec fn typed(self, byte: u8) -> ScreenView {
        let room = if self.bottom_cell(self.column).ascii_character != 0 {
            self.pushed_right()
        } else {
            self
        };
        let put = room.with_bottom_cell(
            self.column,
            ScreenChar { ascii_character: byte, color_code: self.color },
        );
        if self.column + 1 >= self.width {
            put.scrolled()
        } else {
            put.moved(self.column + 1)
        }
    }

    /// The screen after spaces were written until the cursor stands in a
    /// column that is a multiple of four, but `limit` spaces at most.
    pub open spec fn tabbed(self, limit: nat) -> ScreenView
        decreases limit,
    {
        if limit == 0 || self.column % 4 == 0 {
            self
        } else {
            self.typed(0x20).tabbed((limit - 1) as nat)
        }
    }

    /// The screen after `byte` was written: a tabulation writes a space and
    /// then fills up to the next multiple of four columns, a line feed or
    /// carriage return begins a new line, a backspace removes the character
    /// before the cursor, and any other byte is a character.
    pub open spec fn written(self, byte: u8) -> ScreenView {
        if byte == 0x09 {
            self.typed(0x20).tabbed(3)
        } else if byte == 0x0A || byte == 0x0D {
            self.scrolled()
        } else if byte == 0x08 {
            if self.column > 0 {
                self.pulled_left()
            } else {
                self
            }
        } else {
            self.typed(byte)
        }
    }

    /// The characters of the bottom line.
    pub open spec fn bottom_line(self) -> Seq<u8> {
        Seq::new(self.width as nat, |col: int| self.bottom_cell(col).ascii_character)
    }

    /// The last of the first `upto` columns of `line` that holds a
    /// character, or zero.
    pub open spec fn last_character(line: Seq<u8>, upto: int) -> int
        decreases upto,
    {
        if upto <= 0 {
            0
        } else if line[upto - 1] != 0 {
            upto - 1
        } else {
            Self::last_character(line, upto - 1)
        }
    }

    /// Number of characters of `line` that fit on a line of the screen.
    pub open spec fn fitting(self, line: Seq<u8>) -> int {
        if line.len() < self.width {
            line.len() as int
        } else {
            self.width
        }
    }

    /// The screen with `line` in place of the start of the bottom line, and
    /// the cursor behind its last character.
    pub open spec fn with_bottom_line(self, line: Seq<u8>) -> ScreenView {
        (ScreenView {
            cells: Seq::new(
                self.cells.len(),
                |i: int|
                    if self.bottom() <= i < self.bottom() + self.fitting(line) {
                        ScreenChar {
                            ascii_character: line[i - self.bottom()],
                            color_code: self.color,
                        }
                    } else {
                        self.cells[i]
                    },
            ),
            ..self
        }).moved(Self::last_character(line, self.fitting(line)) + 1)
    }
}

/// The screen after the bytes of `text` were written one after the other.
pub open spec fn written_all(screen: ScreenView, text: Seq<u8>) -> ScreenView
    decreases text.len(),
{
    if text.len() == 0 {
        screen
    } else {
        written_all(screen.written(text.first()), text.drop_first())
    }
}

/// The cells of a screen, row by row.
pub struct Buffer {
    pub chars: Vec<ScreenChar>,
}

/// A screen that is not shown: its cells, and where its cursor stood.
pub struct Screen {
    pub column_position: usize,
    pub color_code: ColorCode,
    pub buffer: Buffer,
}

/// The text screen: a grid of characters, written on its bottom line.
pub struct VGAScreen {
    column_position: usize,
    color_code: ColorCode,
    address: u32,
    buffer: Vec<ScreenChar>,
    width: usize,
    height: usize,
}

impl VGAScreen {
    pub closed spec fn view(&self) -> ScreenView {
        ScreenView {
            width: self.width as int,
            height: self.height as int,
            column: self.column_position as int,
            color: self.color_code,
            cells: self.buffer@,
        }
    }

    /// Address of the memory that the screen shows.
    pub closed spec fn spec_address(&self) -> u32 {
        self.address
    }

    pub open spec fn wf(&self) -> bool {
        self@.wf()
    }

    /// A screen of `width` by `height` empty cells at `addr`, with the
    /// cursor at the start of the bottom line.
    pub fn new(addr: u32, width: usize, height: usize) -> (screen: VGAScreen)
        requires
            width >= 1,
            height >= 1,
            width * height <= usize::MAX,
        ensures
            screen.wf(),
            screen.spec_address() == addr,
            screen@.width == width,
            screen@.height == height,
            screen@.column == 0,
            screen@.color == ColorCode(crate::writer::screen_writer::screen_char::DEFAULT_COLOR),
            forall|i: int| 0 <= i < screen@.cells.len() ==> screen@.cells[i] == blank(),
    {
        let cells: usize = width * height;
        assert(width * height >= width) by (nonlinear_arith)
            requires
                width >= 1,
                height >= 1,
        ;
        let mut buffer: Vec<ScreenChar> = Vec::new();
        let mut i: usize = 0;
        while i < cells
            invariant
                i <= cells,
                buffer@.len() == i,
                forall|k: int| 0 <= k < i ==> buffer@[k] == blank(),
            decreases cells - i,
        {
            buffer.push(ScreenChar::empty());
            i += 1;
        }
        VGAScreen {
            column_position: 0,
            color_code: ColorCode::default_code(),
            address: addr,
            buffer,
            width,
            height,
        }
    }

    /// Number of columns of the screen.
    pub fn width(&self) -> (width: usize)
        ensures
            width == self@.width,
    {
        self.width
    }

    /// Number of lines of the screen.
    pub fn height(&self) -> (height: usize)
        ensures
            height == self@.height,
    {
        self.height
    }

    /// Address of the memory that the screen shows.
    pub fn address(&self) -> (address: u32)
        ensures
            address == self.spec_address(),
    {
        self.address
    }

    /// Index of the first cell of the bottom line.
    fn bottom(&self) -> (index: usize)
        requires
            self.wf(),
        ensures
            index == self@.bottom(),
            index + self.width == self.buffer@.len(),
            index + self.width <= usize::MAX,
    {
        self.buffer.len() - self.width
    }

    /// The cell in column `col` of the bottom line.
    fn get_screenchar(&self, col: usize) -> (c: ScreenChar)
        requires
            self.wf(),
            col < self.width,
        ensures
            c == self@.bottom_cell(col as int),
    {
        self.buffer[self.bottom() + col]
    }

    /// Replaces the cell in column `col` of the bottom line.
    fn set_screenchar(&mut self, col: usize, character: ScreenChar)
        requires
            old(self).wf(),
            col < old(self).width,
        ensures
            final(self).wf(),
            final(self)@ == old(self)@.with_bottom_cell(col as int, character),
            final(self).spec_address() == old(self).spec_address(),
    {
        let index: usize = self.bottom() + col;
        self.buffer.set(index, character);
    }

    fn unblink_current(&mut self)
        requires
            old(self).wf(),
        ensures
            final(self).wf(),
            final(self)@ == old(self)@.with_bottom_cell(
                old(self)@.column,
                unblinked(old(self)@.bottom_cell(old(self)@.column)),
            ),
            final(self).spec_address() == old(self).spec_address(),
    {
        let col: usize = self.column_position;
        let mut character = self.get_screenchar(col);
        character.unblink();
        self.set_screenchar(col, character);
    }

    fn blink_current(&mut self)
        requires
            old(self).wf(),
        ensures
            final(self).wf(),
            final(self)@ == old(self)@.with_bottom_cell(
                old(self)@.column,
                blinked(old(self)@.bottom_cell(old(self)@.column)),
            ),
            final(self).spec_address() == old(self).spec_address(),
    {
        let col: usize = self.column_position;
        let mut character = self.get_screenchar(col);
        character.blink();
        self.set_screenchar(col, character);
    }

    /// Moves the cursor to column `new_col`.
    fn change_position(&mut self, new_col: usize)
        requires
            old(self).wf(),
            new_col < old(self).width,
        ensures
            final(self)@.width == old(self)@.width,
            final(self)@.height == old(self)@.height,
            final(self).wf(),
            final(self)@ == old(self)@.moved(new_col as int),
            final(self).spec_address() == old(self).spec_address(),
    {
        self.unblink_current();
        self.column_position = new_col;
        self.blink_current();
    }

    /// Begins a new line: every line moves up by one.
    fn new_line(&mut self)
        requires
            old(self).wf(),
        ensures
            final(self)@.width == old(self)@.width,
            final(self)@.height == old(self)@.height,
            final(self).wf(),
            final(self)@ == old(self)@.scrolled(),
            final(self).spec_address() == old(self).spec_address(),
    {
        self.unblink_current();
        let ghost lifted = self.buffer@;
        let bottom: usize = self.bottom();
        let width: usize = self.width;
        let mut i: usize = 0;
        while i < bottom
            invariant
                self.wf(),
                i <= bottom,
                bottom == self@.bottom(),
                bottom + width <= usize::MAX,
                width == self.width,
                self.width == old(self).width,
                self.height == old(self).height,
                self.column_position == old(self).column_position,
                self.color_code == old(self).color_code,
                self.address == old(self).address,
                self.buffer@.len() == lifted.len(),
                forall|k: int| 0 <= k < i ==> self.buffer@[k] == lifted[k + width],
                forall|k: int| i <= k < lifted.len() ==> self.buffer@[k] == lifted[k],
            decreases bottom - i,
        {
            let character = self.buffer[i + width];
            self.buffer.set(i, character);
            i += 1;
        }
        self.clear_row();
        proof {
            let target = ScreenView {
                cells: Seq::new(
                    old(self)@.cells.len(),
                    |i: int|
                        if i < old(self)@.bottom() {
                            if i + old(self)@.width == old(self)@.bottom() + old(self)@.column {
                                unblinked(old(self)@.cells[i + old(self)@.width])
                            } else {
                                old(self)@.cells[i + old(self)@.width]
                            }
                        } else {
                            blank()
                        },
                ),
                ..old(self)@
            };
            assert(self@.cells =~= target.cells);
        }
        self.change_position(0);
    }

    /// Empties the bottom line.
    fn clear_row(&mut self)
        requires
            old(self).wf(),
        ensures
            final(self).wf(),
            final(self)@ == (ScreenView {
                cells: Seq::new(
                    old(self)@.cells.len(),
                    |i: int|
                        if i < old(self)@.bottom() {
                            old(self)@.cells[i]
                        } else {
                            blank()
                        },
                ),
                ..old(self)@
            }),
            final(self).spec_address() == old(self).spec_address(),
    {
        let mut col: usize = 0;
        while col < self.width
            invariant
                self.wf(),
                col <= self.width,
                self.width == old(self).width,
                self.height == old(self).height,
                self.column_position == old(self).column_position,
                self.color_code == old(self).color_code,
                self.address == old(self).address,
                self.buffer@.len() == old(self).buffer@.len(),
                forall|k: int|
                    0 <= k < old(self)@.bottom() + col ==> self.buffer@[k] == if k < old(
                        self,
                    )@.bottom() {
                        old(self).buffer@[k]
                    } else {
                        blank()
                    },
                forall|k: int|
                    old(self)@.bottom() + col <= k < self.buffer@.len() ==> self.buffer@[k] == old(
                        self,
                    ).buffer@[k],
            decreases self.width - col,
        {
            self.set_screenchar(col, ScreenChar::empty());
            col += 1;
        }
        assert(self@.cells =~= Seq::new(
            old(self)@.cells.len(),
            |i: int|
                if i < old(self)@.bottom() {
                    old(self)@.cells[i]
                } else {
                    blank()
                },
        ));
    }

    /// Pushes the text from the cursor on one column to the right.
    fn shift_right(&mut self)
        requires
            old(self).wf(),
        ensures
            final(self).wf(),
            final(self)@ == old(self)@.pushed_right(),
            final(self).spec_address() == old(self).spec_address(),
    {
        let col: usize = self.column_position;
        let mut end_line: usize = col;
        while end_line < self.width - 1 && self.get_screenchar(end_line).ascii_character != 0x0
            invariant
                self.wf(),
                *self == *old(self),
                col == self.column_position,
                col <= end_line <= self.width - 1,
                self@.text_end(col as int) == self@.text_end(end_line as int),
            decreases self.width - end_line,
        {
            end_line += 1;
        }
        let ghost end = end_line;
        assert(end == old(self)@.push_end()) by {
            if end_line < self.width - 1 {
                assert(self@.text_end(end_line as int) == end_line);
            } else {
                self@.lemma_text_end(end_line as int);
            }
        }
        let ghost bottom = self@.bottom();
        while end_line > col
            invariant
                self.wf(),
                col <= end_line <= end,
                end < self.width,
                bottom == old(self)@.bottom(),
                self.width == old(self).width,
                self.height == old(self).height,
                self.column_position == old(self).column_position,
                self.color_code == old(self).color_code,
                self.address == old(self).address,
                self.buffer@.len() == old(self).buffer@.len(),
                forall|k: int|
                    0 <= k < self.buffer@.len() ==> self.buffer@[k] == if bottom + end_line < k
                        <= bottom + end {
                        old(self).buffer@[k - 1]
                    } else {
                        old(self).buffer@[k]
                    },
            decreases end_line,
        {
            let character = self.get_screenchar(end_line - 1);
            self.set_screenchar(end_line, character);
            end_line -= 1;
        }
        assert(self@.cells =~= old(self)@.pushed_right().cells);
    }

    /// Removes the character before the cursor.
    fn shift_left(&mut self)
        requires
            old(self).wf(),
            old(self)@.column > 0,
        ensures
            final(self)@.width == old(self)@.width,
            final(self)@.height == old(self)@.height,
            final(self).wf(),
            final(self)@ == old(self)@.pulled_left(),
            final(self).spec_address() == old(self).spec_address(),
    {
        let col: usize = self.column_position;
        let mut i: usize = col;
        let ghost bottom = self@.bottom();
        while i < self.width && self.get_screenchar(i).ascii_character != 0x0
            invariant
                self.wf(),
                col == old(self).column_position,
                0 < col <= i <= self.width,
                bottom == old(self)@.bottom(),
                self.width == old(self).width,
                self.height == old(self).height,
                self.column_position == old(self).column_position,
                self.color_code == old(self).color_code,
                self.address == old(self).address,
                self.buffer@.len() == old(self).buffer@.len(),
                old(self)@.text_end(col as int) == old(self)@.text_end(i as int),
                forall|k: int|
                    0 <= k < self.buffer@.len() ==> self.buffer@[k] == if bottom + col - 1 <= k
                        < bottom + i - 1 {
                        old(self).buffer@[k + 1]
                    } else {
                        old(self).buffer@[k]
                    },
            decreases self.width - i,
        {
            let character = self.get_screenchar(i);
            self.set_screenchar(i - 1, character);
            i += 1;
        }
        assert(i == old(self)@.text_end(col as int));
        self.set_screenchar(i - 1, ScreenChar::empty());
        proof {
            let target = ScreenView {
                cells: Seq::new(
                    old(self)@.cells.len(),
                    |k: int|
                        if old(self)@.bottom() + old(self)@.column - 1 <= k < old(self)@.bottom()
                            + old(self)@.text_end(old(self)@.column) - 1 {
                            old(self)@.cells[k + 1]
                        } else if k == old(self)@.bottom() + old(self)@.text_end(
                            old(self)@.column,
                        ) - 1 {
                            blank()
                        } else {
                            old(self)@.cells[k]
                        },
                ),
                ..old(self)@
            };
            assert(self@.cells =~= target.cells);
            assert(self@ == target);
        }
        self.change_position(col - 1);
    }

    /// Writes the character `byte` at the cursor.
    fn write_char(&mut self, byte: u8)
        requires
            old(self).wf(),
        ensures
            final(self)@.width == old(self)@.width,
            final(self)@.height == old(self)@.height,
            final(self).wf(),
            final(self)@ == old(self)@.typed(byte),
            final(self).spec_address() == old(self).spec_address(),
    {
        let col: usize = self.column_position;
        let color_code = self.color_code;
        if self.get_screenchar(col).ascii_character != 0x0 {
            self.shift_right();
        }
        self.set_screenchar(col, ScreenChar { ascii_character: byte, color_code });
        if self.column_position + 1 >= self.width {
            self.new_line();
        } else {
            self.change_position(self.column_position + 1);
        }
    }

    /// Dispaly character on the screen
    ///
    /// Characters are written on the bottom line of the screen.
    ///
    /// # Features
    ///
    /// - New line
    /// - Tabulation
    /// - Back space
    /// - Moving cursor left and right
    /// - Insert characters at any position on the line
    pub fn write_byte(&mut self, byte: u8)
        requires
            old(self).wf(),
        ensures
            final(self)@.width == old(self)@.width,
            final(self)@.height == old(self)@.height,
            final(self).wf(),
            final(self)@ == old(self)@.written(byte),
            final(self).spec_address() == old(self).spec_address(),
    {
        if byte == 0x09 {
            self.write_char(0x20);
            let ghost mut limit: nat = 3;
            while self.column_position % 4 != 0
                invariant
                    self.wf(),
                    self.address == old(self).address,
                    limit <= 3,
                    self.width == old(self).width,
                    self.height == old(self).height,
                    limit >= (4 - self.column_position % 4) % 4,
                    old(self)@.typed(0x20).tabbed(3) == self@.tabbed(limit),
                decreases limit,
            {
                self.write_char(0x20);
                proof {
                    limit = (limit - 1) as nat;
                }
            }
        } else if byte == 0x0A || byte == 0x0D {
            self.new_line();
        } else if byte == 0x8 {
            if self.column_position > 0 {
                self.shift_left();
            }
        } else {
            self.write_char(byte);
        }
    }

    /// Writes the bytes of `s` one after the other.
    pub fn write_str(&mut self, s: &Vec<u8>)
        requires
            old(self).wf(),
        ensures
            final(self)@.width == old(self)@.width,
            final(self)@.height == old(self)@.height,
            final(self).wf(),
            final(self)@ == written_all(old(self)@, s@),
            final(self).spec_address() == old(self).spec_address(),
    {
        let mut i: usize = 0;
        assert(s@.subrange(0, s@.len() as int) =~= s@);
        while i < s.len()
            invariant
                self.wf(),
                self.address == old(self).address,
                self.width == old(self).width,
                self.height == old(self).height,
                i <= s@.len(),
                written_all(old(self)@, s@) == written_all(self@, s@.subrange(i as int, s@.len() as int)),
            decreases s@.len() - i,
        {
            proof {
                let rest = s@.subrange(i as int, s@.len() as int);
                assert(rest.first() == s@[i as int]);
                assert(rest.drop_first() =~= s@.subrange(i + 1, s@.len() as int));
            }
            self.write_byte(s[i]);
            i += 1;
        }
        proof {
            assert(s@.subrange(0, s@.len() as int) =~= s@);
        }
    }

    /// Puts `ascii_line` in place of the start of the bottom line and the
    /// cursor behind its last character, which must leave room for it.
    pub fn swap_bottom_line(&mut self, ascii_line: &Vec<u8>)
        requires
            old(self).wf(),
            ScreenView::last_character(ascii_line@, old(self)@.fitting(ascii_line@)) + 1 < old(
                self,
            )@.width,
        ensures
            final(self).wf(),
            final(self)@ == old(self)@.with_bottom_line(ascii_line@),
            final(self).spec_address() == old(self).spec_address(),
    {
        let color_code = self.color_code;
        let mut end: usize = 0;
        let count: usize = if ascii_line.len() < self.width {
            ascii_line.len()
        } else {
            self.width
        };
        let ghost bottom = self@.bottom();
        let mut i: usize = 0;
        while i < count
            invariant
                self.wf(),
                i <= count,
                count == old(self)@.fitting(ascii_line@),
                count <= self.width,
                count <= ascii_line@.len(),
                bottom == old(self)@.bottom(),
                color_code == old(self).color_code,
                self.width == old(self).width,
                self.height == old(self).height,
                self.column_position == old(self).column_position,
                self.color_code == old(self).color_code,
                self.address == old(self).address,
                self.buffer@.len() == old(self).buffer@.len(),
                end == ScreenView::last_character(ascii_line@, i as int),
                forall|k: int|
                    0 <= k < self.buffer@.len() ==> self.buffer@[k] == if bottom <= k < bottom + i {
                        ScreenChar { ascii_character: ascii_line@[k - bottom], color_code }
                    } else {
                        old(self).buffer@[k]
                    },
            decreases count - i,
        {
            let c: u8 = ascii_line[i];
            self.set_screenchar(i, ScreenChar { ascii_character: c, color_code });
            if c != 0x0 {
                end = i;
            }
            i += 1;
        }
        proof {
            let target = ScreenView {
                cells: Seq::new(
                    old(self)@.cells.len(),
                    |k: int|
                        if old(self)@.bottom() <= k < old(self)@.bottom() + old(self)@.fitting(
                            ascii_line@,
                        ) {
                            ScreenChar {
                                ascii_character: ascii_line@[k - old(self)@.bottom()],
                                color_code: old(self)@.color,
                            }
                        } else {
                            old(self)@.cells[k]
                        },
                ),
                ..old(self)@
            };
            assert(self@.cells =~= target.cells);
            assert(self@ == target);
        }
        self.change_position(end + 1);
    }

    /// The cells of the screen and the column of its cursor, to be put back
    /// later.
    pub fn snapshot(&self) -> (saved: Screen)
        requires
            self.wf(),
        ensures
            saved.column_position == self@.column,
            saved.color_code == self@.color,
            saved.buffer.chars@ == self@.cells,
    {
        let mut chars: Vec<ScreenChar> = Vec::new();
        let mut i: usize = 0;
        while i < self.buffer.len()
            invariant
                i <= self.buffer@.len(),
                chars@ == self.buffer@.subrange(0, i as int),
            decreases self.buffer@.len() - i,
        {
            chars.push(self.buffer[i]);
            assert(chars@ =~= self.buffer@.subrange(0, i + 1));
            i += 1;
        }
        assert(chars@ =~= self.buffer@);
        Screen {
            column_position: self.column_position,
            color_code: self.color_code,
            buffer: Buffer { chars },
        }
    }

    /// Shows the cells of `saved` and puts the cursor where it was there.
    pub fn restore(&mut self, saved: &Screen)
        requires
            old(self).wf(),
            saved.buffer.chars@.len() == old(self)@.cells.len(),
            saved.column_position < old(self)@.width,
        ensures
            final(self).wf(),
            final(self)@ == (ScreenView {
                cells: saved.buffer.chars@,
                column: saved.column_position as int,
                ..old(self)@
            }).with_bottom_cell(
                saved.column_position as int,
                blinked(
                    saved.buffer.chars@[old(self)@.bottom() + saved.column_position],
                ),
            ),
            final(self).spec_address() == old(self).spec_address(),
    {
        let mut i: usize = 0;
        while i < self.buffer.len()
            invariant
                i <= self.buffer@.len(),
                self.buffer@.len() == saved.buffer.chars@.len(),
                self.buffer@.len() == old(self).buffer@.len(),
                self.width == old(self).width,
                self.height == old(self).height,
                self.color_code == old(self).color_code,
                self.address == old(self).address,
                self.column_position == old(self).column_position,
                forall|k: int| 0 <= k < i ==> self.buffer@[k] == saved.buffer.chars@[k],
            decreases self.buffer@.len() - i,
        {
            self.buffer.set(i, saved.buffer.chars[i]);
            i += 1;
        }
        assert(self.buffer@ =~= saved.buffer.chars@);
        self.column_position = saved.column_position;
        self.blink_current();
    }

    /// Full screen clear
    pub fn clear_screen(&mut self)
        requires
            old(self).wf(),
        ensures
            final(self)@.width == old(self)@.width,
            final(self)@.height == old(self)@.height,
            final(self).wf(),
            final(self)@ == old(self)@.scrolled_by(old(self)@.height as nat),
            final(self).spec_address() == old(self).spec_address(),
    {
        let mut row: usize = 0;
        while row < self.height
            invariant
                self.wf(),
                row <= self.height,
                self.height == old(self).height,
                self.width == old(self).width,
                self.address == old(self).address,
                old(self)@.scrolled_by(old(self)@.height as nat) == self@.scrolled_by(
                    (self.height - row) as nat,
                ),
            decreases self.height - row,
        {
            self.new_line();
            row += 1;
        }
    }

    /// Move cursor to the left
    pub fn left(&mut self)
        requires
            old(self).wf(),
        ensures
            final(self).wf(),
            final(self)@ == if old(self)@.column > 0 {
                old(self)@.moved(old(self)@.column - 1)
            } else {
                old(self)@
            },
    {
        if self.column_position > 0 {
            self.change_position(self.column_position - 1);
        }
    }

    /// Move cursor to the right
    pub fn right(&mut self)
        requires
            old(self).wf(),
        ensures
            final(self).wf(),
            final(self)@ == if old(self)@.column < old(self)@.width - 1 && old(self)@.bottom_cell(
                old(self)@.column,
            ).ascii_character != 0 {
                old(self)@.moved(old(self)@.column + 1)
            } else {
                old(self)@
            },
    {
        if self.column_position < self.width - 1 {
            let col: usize = self.column_position;
            let c: u8 = self.get_screenchar(col).ascii_character;
            if c != 0x0 {
                self.change_position(self.column_position + 1);
            }
        }
    }

    /// Copy the last line in a buffer
    pub fn get_bottom_line(&self) -> (ascii_line: Vec<u8>)
        requires
            self.wf(),
        ensures
            ascii_line@ == self@.bottom_line(),
    {
        let mut ascii_line: Vec<u8> = Vec::new();
        let mut i: usize = 0;
        while i < self.width
            invariant
                self.wf(),
                i <= self.width,
                ascii_line@.len() == i,
                forall|k: int|
                    0 <= k < i ==> ascii_line@[k] == self@.bottom_cell(k).ascii_character,
            decreases self.width - i,
        {
            ascii_line.push(self.get_screenchar(i).ascii_character);
            i += 1;
        }
        assert(ascii_line@ =~= self@.bottom_line());
        ascii_line
    }
}

} // verus!
