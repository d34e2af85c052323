//! Several screens that take turns on the one text screen.

use crate::writer::screen_writer::screen_char::{blank, blinked, ColorCode, ScreenChar};
use crate::writer::screen_writer::{Buffer, Screen, ScreenView, VGAScreen};
use vstd::prelude::*;

verus! {

/// Number of lines of the text screen.
pub const BUFFER_HEIGHT: usize = 25;

/// Number of columns of the text screen.
pub const BUFFER_WIDTH: usize = 80;

/// Number of screens that take turns.
pub const NUMBER_OF_SCREENS: usize = 6;

/// Address of the memory that the text screen shows.
pub const SCREEN_ADDRESS: u32 = 0xb8000;

/// Writes on the screen that is shown, and keeps the others.
pub struct ScreenWriter {
    screen: VGAScreen,
    screens: Vec<Screen>,
    index: usize,
}

/// Whether `saved` can be shown on a screen of `cells` cells and `width`
/// columns.
pub open spec fn fits(saved: Screen, cells: int, width: int) -> bool {
    saved.buffer.chars@.len() == cells && saved.column_position < width
}

impl ScreenWriter {
    /// The screen that is shown.
    pub closed spec fn view(&self) -> ScreenView {
        self.screen@
    }

    /// The screens that take turns, as they were when each was last put
    /// away.
    pub closed spec fn saved(&self) -> Seq<Screen> {
        self.screens@
    }

    /// Number of the screen that is shown.
    pub closed spec fn shown(&self) -> int {
        self.index as int
    }

    /// Every screen has the size of the text screen, and one of them is
    /// shown.
    pub closed spec fn wf(&self) -> bool {
        &&& self.screen.wf()
        &&& self.screen@.width == BUFFER_WIDTH
        &&& self.screen@.height == BUFFER_HEIGHT
        &&& self.screens@.len() == NUMBER_OF_SCREENS
        &&& self.index < NUMBER_OF_SCREENS
        &&& forall|i: int|
            0 <= i < NUMBER_OF_SCREENS ==> fits(
                #[trigger] self.screens@[i],
                BUFFER_WIDTH * BUFFER_HEIGHT,
                BUFFER_WIDTH as int,
            )
    }

    /// Six empty screens, the first of which is shown.
    pub fn new() -> (writer: ScreenWriter)
        ensures
            writer.wf(),
            writer.shown() == 0,
            writer@.column == 0,
            forall|i: int| 0 <= i < writer@.cells.len() ==> writer@.cells[i] == blank(),
            forall|i: int, k: int|
                0 <= i < NUMBER_OF_SCREENS && 0 <= k < BUFFER_WIDTH * BUFFER_HEIGHT
                    ==> writer.saved()[i].buffer.chars@[k] == blank(),
            forall|i: int| 0 <= i < NUMBER_OF_SCREENS ==> writer.saved()[i].column_position == 0,
    {
        let screen = VGAScreen::new(SCREEN_ADDRESS, BUFFER_WIDTH, BUFFER_HEIGHT);
        let mut screens: Vec<Screen> = Vec::new();
        let mut i: usize = 0;
        while i < NUMBER_OF_SCREENS
            invariant
                i <= NUMBER_OF_SCREENS,
                screens@.len() == i,
                forall|j: int|
                    0 <= j < i ==> fits(
                        #[trigger] screens@[j],
                        BUFFER_WIDTH * BUFFER_HEIGHT,
                        BUFFER_WIDTH as int,
                    ) && screens@[j].column_position == 0,
                forall|j: int, k: int|
                    0 <= j < i && 0 <= k < BUFFER_WIDTH * BUFFER_HEIGHT
                        ==> screens@[j].buffer.chars@[k] == blank(),
            decreases NUMBER_OF_SCREENS - i,
        {
            let mut chars: Vec<ScreenChar> = Vec::new();
            let mut k: usize = 0;
            while k < BUFFER_WIDTH * BUFFER_HEIGHT
                invariant
                    k <= BUFFER_WIDTH * BUFFER_HEIGHT,
                    chars@.len() == k,
                    forall|l: int| 0 <= l < k ==> chars@[l] == blank(),
                decreases BUFFER_WIDTH * BUFFER_HEIGHT - k,
            {
                chars.push(ScreenChar::empty());
                k += 1;
            }
            screens.push(
                Screen {
                    column_position: 0,
                    color_code: ColorCode::default_code(),
                    buffer: Buffer { chars },
                },
            );
            i += 1;
        }
        ScreenWriter { screen, screens, index: 0 }
    }

    /// Number of the screen that is shown.
    pub fn index(&self) -> (index: usize)
        ensures
            index == self.shown(),
    {
        self.index
    }

    /// Puts the screen that is shown away and shows screen `index`.
    pub fn load_screen(&mut self, index: usize)
        requires
            old(self).wf(),
            index < NUMBER_OF_SCREENS,
        ensures
            final(self).wf(),
            final(self).shown() == index,
            final(self).saved().len() == NUMBER_OF_SCREENS,
            final(self).saved()[old(self).shown() as int].buffer.chars@ == old(self)@.cells,
            final(self).saved()[old(self).shown() as int].column_position == old(self)@.column,
            forall|i: int|
                0 <= i < NUMBER_OF_SCREENS && i != old(self).shown() ==> final(self).saved()[i]
                    == old(self).saved()[i],
            final(self)@ == (ScreenView {
                cells: final(self).saved()[index as int].buffer.chars@,
                column: final(self).saved()[index as int].column_position as int,
                ..old(self)@
            }).with_bottom_cell(
                final(self).saved()[index as int].column_position as int,
                blinked(
                    final(self).saved()[index as int].buffer.chars@[old(self)@.bottom()
                        + final(self).saved()[index as int].column_position],
                ),
            ),
    {
        let current = self.screen.snapshot();
        let slot: usize = self.index;
        self.screens.set(slot, current);
        self.screen.restore(&self.screens[index]);
        self.index = index;
    }

    /// What is shown once the screen `saved` was put on a screen that showed
    /// `shown`: its cells, with the cursor where it stood.
    pub open spec fn showing(shown: ScreenView, saved: Screen) -> ScreenView {
        (ScreenView {
            cells: saved.buffer.chars@,
            column: saved.column_position as int,
            ..shown
        }).with_bottom_cell(
            saved.column_position as int,
            blinked(saved.buffer.chars@[shown.bottom() + saved.column_position]),
        )
    }

    /// Load an arbitrary screen
    pub fn swap_screen(&mut self, index: usize)
        requires
            old(self).wf(),
        ensures
            final(self).wf(),
            index >= NUMBER_OF_SCREENS ==> final(self)@ == old(self)@ && final(self).saved()
                == old(self).saved() && final(self).shown() == old(self).shown(),
            index < NUMBER_OF_SCREENS ==> {
                &&& final(self).shown() == index
                &&& final(self).saved()[old(self).shown() as int].buffer.chars@ == old(self)@.cells
                &&& final(self).saved()[old(self).shown() as int].column_position == old(
                    self,
                )@.column
                &&& final(self)@ == Self::showing(old(self)@, final(self).saved()[index as int])
                &&& forall|i: int|
                    0 <= i < NUMBER_OF_SCREENS && i != old(self).shown() ==> final(self).saved()[i]
                        == old(self).saved()[i]
            },
    {
        if index < NUMBER_OF_SCREENS {
            self.load_screen(index);
        }
    }

    /// Load next screen
    pub fn next_screen(&mut self)
        requires
            old(self).wf(),
        ensures
            final(self).wf(),
            final(self).shown() == if old(self).shown() == NUMBER_OF_SCREENS - 1 {
                0
            } else {
                old(self).shown() + 1
            },
            final(self).saved()[old(self).shown() as int].buffer.chars@ == old(self)@.cells,
            final(self).saved()[old(self).shown() as int].column_position == old(self)@.column,
            final(self)@ == Self::showing(old(self)@, final(self).saved()[final(self).shown()]),
            forall|i: int|
                0 <= i < NUMBER_OF_SCREENS && i != old(self).shown() ==> final(self).saved()[i]
                    == old(self).saved()[i],
    {
        let next: usize = if self.index == NUMBER_OF_SCREENS - 1 {
            0
        } else {
            self.index + 1
        };
        self.load_screen(next);
    }

    /// Load previous screen
    pub fn prev_screen(&mut self)
        requires
            old(self).wf(),
        ensures
            final(self).wf(),
            final(self).shown() == if old(self).shown() == 0 {
                NUMBER_OF_SCREENS - 1
            } else {
                old(self).shown() - 1
            },
            final(self).saved()[old(self).shown() as int].buffer.chars@ == old(self)@.cells,
            final(self).saved()[old(self).shown() as int].column_position == old(self)@.column,
            final(self)@ == Self::showing(old(self)@, final(self).saved()[final(self).shown()]),
            forall|i: int|
                0 <= i < NUMBER_OF_SCREENS && i != old(self).shown() ==> final(self).saved()[i]
                    == old(self).saved()[i],
    {
        let prev: usize = if self.index == 0 {
            NUMBER_OF_SCREENS - 1
        } else {
            self.index - 1
        };
        self.load_screen(prev);
    }

    /// Writes `byte` on the screen that is shown.
    pub fn write_byte(&mut self, byte: u8)
        requires
            old(self).wf(),
        ensures
            final(self).wf(),
            final(self)@ == old(self)@.written(byte),
            final(self).shown() == old(self).shown(),
            final(self).saved() == old(self).saved(),
    {
        self.screen.write_byte(byte);
    }

    /// Full screen clear
    pub fn clear_screen(&mut self)
        requires
            old(self).wf(),
        ensures
            final(self).wf(),
            final(self)@ == old(self)@.scrolled_by(BUFFER_HEIGHT as nat),
            final(self).shown() == old(self).shown(),
            final(self).saved() == old(self).saved(),
    {
        self.screen.clear_screen();
    }

    /// Move cursor to the left
    pub fn left(&mut self)
        requires
            old(self).wf(),
        ensures
            final(self).wf(),
            final(self)@ == if old(self)@.column > 0 {
                old(self)@.moved(old(self)@.column - 1)
            } else {
                old(self)@
            },
            final(self).shown() == old(self).shown(),
            final(self).saved() == old(self).saved(),
    {
        self.screen.left();
    }

    /// Move cursor to the right
    pub fn right(&mut self)
        requires
            old(self).wf(),
        ensures
            final(self).wf(),
            final(self)@ == if old(self)@.column < old(self)@.width - 1 && old(self)@.bottom_cell(
                old(self)@.column,
            ).ascii_character != 0 {
                old(self)@.moved(old(self)@.column + 1)
            } else {
                old(self)@
            },
            final(self).shown() == old(self).shown(),
            final(self).saved() == old(self).saved(),
    {
        self.screen.right();
    }

    /// Copy the last line in a buffer
    pub fn get_bottom_line(&self) -> (ascii_line: Vec<u8>)
        requires
            self.wf(),
        ensures
            ascii_line@ == self@.bottom_line(),
    {
        self.screen.get_bottom_line()
    }
}

} // verus!
