//! Characters of the text screen and their colours.

use vstd::prelude::*;

verus! {

#[derive(Clone, Copy, PartialEq, Eq, Structural)]
pub enum Color {
    Black,
    Blue,
    Green,
    Cyan,
    Red,
    Magenta,
    Brown,
    LightGray,
    DarkGray,
    LightBlue,
    LightGreen,
    LightCyan,
    LightRed,
    Pink,
    Yellow,
    White,
}

impl Color {
    /// Number of the colour in the palette of the screen.
    pub open spec fn spec_code(self) -> u8 {
        match self {
            Color::Black => 0,
            Color::Blue => 1,
            Color::Green => 2,
            Color::Cyan => 3,
            Color::Red => 4,
            Color::Magenta => 5,
            Color::Brown => 6,
            Color::LightGray => 7,
            Color::DarkGray => 8,
            Color::LightBlue => 9,
            Color::LightGreen => 10,
            Color::LightCyan => 11,
            Color::LightRed => 12,
            Color::Pink => 13,
            Color::Yellow => 14,
            Color::White => 15,
        }
    }

    /// Number of the colour in the palette of the screen.
    pub fn code(self) -> (code: u8)
        ensures
            code == self.spec_code(),
            code < 16,
    {
        match self {
            Color::Black => 0,
            Color::Blue => 1,
            Color::Green => 2,
            Color::Cyan => 3,
            Color::Red => 4,
            Color::Magenta => 5,
            Color::Brown => 6,
            Color::LightGray => 7,
            Color::DarkGray => 8,
            Color::LightBlue => 9,
            Color::LightGreen => 10,
            Color::LightCyan => 11,
            Color::LightRed => 12,
            Color::Pink => 13,
            Color::Yellow => 14,
            Color::White => 15,
        }
    }
}

/// A colour code: the background in the high four bits, the foreground in
/// the low four.
#[derive(Clone, Copy, PartialEq, Eq, Structural)]
pub struct ColorCode(pub u8);

/// The colour in which the kernel writes: light green on black.
pub const DEFAULT_COLOR: u8 = 0x0A;

impl ColorCode {
    pub fn new(foreground: Color, background: Color) -> (code: ColorCode)
        ensures
            code.0 == background.spec_code() << 4 | foreground.spec_code(),
            code.0 & 0xF == foreground.spec_code(),
            code.0 >> 4 == background.spec_code(),
    {
        let b: u8 = background.code();
        let f: u8 = foreground.code();
        assert((b << 4 | f) & 0xF == f && (b << 4 | f) >> 4 == b) by (bit_vector)
            requires
                b < 16,
                f < 16,
        ;
        ColorCode(b << 4 | f)
    }

    /// The colour in which the kernel writes.
    pub fn default_code() -> (code: ColorCode)
        ensures
            code == ColorCode(DEFAULT_COLOR),
    {
        ColorCode(DEFAULT_COLOR)
    }
}

/// A character of the screen: its code and its colours.
#[derive(Clone, Copy, PartialEq, Eq, Structural)]
pub struct ScreenChar {
    pub ascii_character: u8,
    pub color_code: ColorCode,
}

/// The character of an empty cell.
pub open spec fn blank() -> ScreenChar {
    ScreenChar { ascii_character: 0, color_code: ColorCode(DEFAULT_COLOR) }
}

/// `c` on a background that marks the cursor.
pub open spec fn blinked(c: ScreenChar) -> ScreenChar {
    ScreenChar {
        ascii_character: c.ascii_character,
        color_code: ColorCode((c.color_code.0 & 0x0F) | 0x80),
    }
}

/// `c` on a black background.
pub open spec fn unblinked(c: ScreenChar) -> ScreenChar {
    ScreenChar { ascii_character: c.ascii_character, color_code: ColorCode(c.color_code.0 & 0x0F) }
}

impl ScreenChar {
    /// An empty cell.
    pub fn empty() -> (c: ScreenChar)
        ensures
            c == blank(),
    {
        ScreenChar { ascii_character: 0, color_code: ColorCode(DEFAULT_COLOR) }
    }

    pub fn blink(&mut self)
        ensures
            *final(self) == blinked(*old(self)),
    {
        let c: u8 = self.color_code.0;
        assert((c & !(0xFu8 << 4)) | (0x8u8 << 4) == (c & 0x0F) | 0x80) by (bit_vector);
        self.color_code = ColorCode((c & !(0xFu8 << 4)) | (0x8u8 << 4));
    }

    pub fn unblink(&mut self)
        ensures
            *final(self) == unblinked(*old(self)),
    {
        let c: u8 = self.color_code.0;
        assert(c & !(0xFu8 << 4) == c & 0x0F) by (bit_vector);
        self.color_code = ColorCode(c & !(0xFu8 << 4));
    }
}

} // verus!
