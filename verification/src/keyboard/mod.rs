//! Keyboard driver
//!
//! # Features
//! - Shift key
//! - Control key
//! - Left and right arrow

pub mod sets;

use crate::keyboard::sets::{KEYS, SET_2, SET_2_SHIFT};
use vstd::prelude::*;

verus! {

/// Scan code that announces the release of a key.
pub const RELEASE_CODE: usize = 0xF0;

/// Scan code that announces an extended key.
pub const EXTENDED_CODE: usize = 0xE0;

pub struct KeyMap {
    pub key_array: [char; 132],
    pub shift_key_array: [char; 132],
}

/// What the interpreter remembers between scan codes.
#[derive(Copy, Clone, PartialEq, Eq, Structural)]
pub struct Flags {
    /// The next scan code names a key that was released.
    pub release: bool,
    /// The next scan code names an extended key.
    pub extended: bool,
    /// A shift key is held.
    pub shift: bool,
    /// A control key is held.
    pub control: bool,
}

/// Setting or clearing one of the four low bits changes that bit and none
/// of the other three.
pub proof fn lemma_flag_bits(bits: u8, mask: u8, other: u8)
    requires
        mask == 1 || mask == 2 || mask == 4 || mask == 8,
        other == 1 || other == 2 || other == 4 || other == 8,
    ensures
        ((bits | mask) & other != 0) == (mask == other || bits & other != 0),
        ((bits & !mask) & other != 0) == (mask != other && bits & other != 0),
{
    assert(((bits | mask) & other != 0) == (mask == other || bits & other != 0) && ((bits & !mask)
        & other != 0) == (mask != other && bits & other != 0)) by (bit_vector)
        requires
            mask == 1 || mask == 2 || mask == 4 || mask == 8,
            other == 1 || other == 2 || other == 4 || other == 8,
    ;
}

/// The state of the interpreter, one bit for each thing it remembers.
pub struct State(u8);

impl State {
    pub closed spec fn view(&self) -> Flags {
        Flags {
            release: self.0 & 1 != 0,
            extended: self.0 & 2 != 0,
            shift: self.0 & 4 != 0,
            control: self.0 & 8 != 0,
        }
    }

    /// The state in which nothing is remembered.
    pub fn new() -> (state: State)
        ensures
            state@ == (Flags { release: false, extended: false, shift: false, control: false }),
    {
        assert(0u8 & 1 == 0 && 0u8 & 2 == 0 && 0u8 & 4 == 0 && 0u8 & 8 == 0) by (bit_vector);
        State(0)
    }

    /// Sets or clears the bits of `mask`, which is one of the four flags.
    fn set(&mut self, mask: u8, value: bool)
        requires
            mask == 1 || mask == 2 || mask == 4 || mask == 8,
        ensures
            final(self)@.release == if mask == 1 {
                value
            } else {
                old(self)@.release
            },
            final(self)@.extended == if mask == 2 {
                value
            } else {
                old(self)@.extended
            },
            final(self)@.shift == if mask == 4 {
                value
            } else {
                old(self)@.shift
            },
            final(self)@.control == if mask == 8 {
                value
            } else {
                old(self)@.control
            },
    {
        proof {
            lemma_flag_bits(self.0, mask, 1);
            lemma_flag_bits(self.0, mask, 2);
            lemma_flag_bits(self.0, mask, 4);
            lemma_flag_bits(self.0, mask, 8);
        }
        if value {
            self.0 = self.0 | mask;
        } else {
            self.0 = self.0 & !mask;
        }
    }

    pub fn release(&self) -> (set: bool)
        ensures
            set == self@.release,
    {
        self.0 & 1 != 0
    }

    pub fn set_release(&mut self, value: bool)
        ensures
            final(self)@ == (Flags { release: value, ..old(self)@ }),
    {
        self.set(1, value);
    }

    pub fn extended(&self) -> (set: bool)
        ensures
            set == self@.extended,
    {
        self.0 & 2 != 0
    }

    pub fn set_extended(&mut self, value: bool)
        ensures
            final(self)@ == (Flags { extended: value, ..old(self)@ }),
    {
        self.set(2, value);
    }

    pub fn shift(&self) -> (set: bool)
        ensures
            set == self@.shift,
    {
        self.0 & 4 != 0
    }

    pub fn set_shift(&mut self, value: bool)
        ensures
            final(self)@ == (Flags { shift: value, ..old(self)@ }),
    {
        self.set(4, value);
    }

    pub fn control(&self) -> (set: bool)
        ensures
            set == self@.control,
    {
        self.0 & 8 != 0
    }

    pub fn set_control(&mut self, value: bool)
        ensures
            final(self)@ == (Flags { control: value, ..old(self)@ }),
    {
        self.set(8, value);
    }

    /// A shift key went down, or up if a release was announced.
    pub fn refresh_shift(&mut self)
        ensures
            final(self)@ == (Flags { shift: !old(self)@.release, release: false, ..old(self)@ }),
    {
        if self.release() {
            self.set_shift(false);
            self.set_release(false);
        } else {
            self.set_shift(true);
        }
    }

    /// A control key went down, or up if a release was announced.
    pub fn refresh_control(&mut self)
        ensures
            final(self)@ == (Flags {
                control: !old(self)@.release,
                release: false,
                extended: false,
                ..old(self)@
            }),
    {
        self.set_extended(false);
        if self.release() {
            self.set_control(false);
            self.set_release(false);
        } else {
            self.set_control(true);
        }
    }
}

/// Specific instruction to perform
#[derive(Debug, Copy, Clone, PartialEq, Eq, Structural)]
pub enum Command {
    /// Moove the screen cursor left
    Left,
    /// Moove the screen cursor right
    Right,
    /// Display previous screen
    Prev,
    /// Display next screen
    Next,
    /// Execute the current line
    Enter,
    /// Load the last command executed
    LastCommand,
}

/// Scan code interpretation
#[derive(Debug, Copy, Clone, PartialEq, Eq, Structural)]
pub enum Key {
    /// An ascii character to be printed on screen
    Character(char),
    /// A command to execute
    Command(Command),
    /// NOP
    Nop,
}

/// What an extended scan code means while no release is pending.
pub open spec fn extended_key(scan_code: usize, control: bool) -> Key {
    if scan_code == 0x6B && control {
        Key::Command(Command::Prev)
    } else if scan_code == 0x74 && control {
        Key::Command(Command::Next)
    } else if scan_code == 0x6B {
        Key::Command(Command::Left)
    } else if scan_code == 0x74 {
        Key::Command(Command::Right)
    } else if scan_code == 0x75 {
        Key::Command(Command::LastCommand)
    } else {
        Key::Nop
    }
}

/// What the interpreter remembers after `scan_code`, and what the scan code
/// means.
///
/// The codes that announce a release or an extended key, and the codes of
/// the shift and control keys, change what is remembered and mean nothing
/// by themselves. Any other code means nothing if a release was announced,
/// which it uses up; otherwise an extended code is a command, and a regular
/// code is the enter command or the character that the key map gives,
/// shifted or not.
pub open spec fn interpret(flags: Flags, keymap: KeyMap, scan_code: usize) -> (Flags, Key) {
    if scan_code == RELEASE_CODE {
        (Flags { release: true, ..flags }, Key::Nop)
    } else if scan_code == EXTENDED_CODE {
        (Flags { extended: true, ..flags }, Key::Nop)
    } else if scan_code == 0x59 || scan_code == 0x12 {
        (Flags { shift: !flags.release, release: false, ..flags }, Key::Nop)
    } else if scan_code == 0x14 {
        (
            Flags { control: !flags.release, release: false, extended: false, ..flags },
            Key::Nop,
        )
    } else if flags.extended {
        (
            Flags { extended: false, release: false, ..flags },
            if flags.release {
                Key::Nop
            } else {
                extended_key(scan_code, flags.control)
            },
        )
    } else if scan_code <= 0x83 {
        (
            Flags { release: false, ..flags },
            if flags.release {
                Key::Nop
            } else if scan_code == 0x5A {
                Key::Command(Command::Enter)
            } else if flags.shift {
                Key::Character(keymap.shift_key_array[scan_code as int])
            } else {
                Key::Character(keymap.key_array[scan_code as int])
            },
        )
    } else {
        (flags, Key::Nop)
    }
}

/// Scan code interpreter
///
/// Handle scan codes according to it's keymap and state. Output the
/// character to print or the action to execute.
///
/// It's state evolve with the user input, modifying the way next scan codes
/// will be interpreted.
pub struct Keyboard {
    state: State,
    keymap: KeyMap,
}

impl Keyboard {
    /// What the interpreter remembers.
    pub closed spec fn flags(&self) -> Flags {
        self.state@
    }

    /// The key map by which characters are chosen.
    pub closed spec fn keymap(&self) -> KeyMap {
        self.keymap
    }

    /// Set 2 keyboard interpreter
    pub fn new() -> (keyboard: Keyboard)
        ensures
            keyboard.flags() == (Flags {
                release: false,
                extended: false,
                shift: false,
                control: false,
            }),
            keyboard.keymap() == (KeyMap { key_array: SET_2, shift_key_array: SET_2_SHIFT }),
    {
        Keyboard {
            keymap: KeyMap { key_array: SET_2, shift_key_array: SET_2_SHIFT },
            state: State::new(),
        }
    }

    /// Parse scan code into instruction
    ///
    /// # Special scan codes
    ///
    /// - 0xE0 signal extended key
    /// - 0xF0 signal released key
    pub fn handle_scan_code(&mut self, scan_code: usize) -> (key: Key)
        ensures
            (final(self).flags(), key) == interpret(old(self).flags(), old(self).keymap(), scan_code),
            final(self).keymap() == old(self).keymap(),
    {
        if scan_code == RELEASE_CODE {
            self.state.set_release(true);
            Key::Nop
        } else if scan_code == EXTENDED_CODE {
            self.state.set_extended(true);
            Key::Nop
        } else if scan_code == 0x59 || scan_code == 0x12 {
            self.state.refresh_shift();
            Key::Nop
        } else if scan_code == 0x14 {
            self.state.refresh_control();
            Key::Nop
        } else if self.state.extended() {
            self.state.set_extended(false);
            if self.state.release() {
                self.state.set_release(false);
                Key::Nop
            } else if scan_code == 0x6B && self.state.control() {
                Key::Command(Command::Prev)
            } else if scan_code == 0x74 && self.state.control() {
                Key::Command(Command::Next)
            } else if scan_code == 0x6B {
                Key::Command(Command::Left)
            } else if scan_code == 0x74 {
                Key::Command(Command::Right)
            } else if scan_code == 0x75 {
                Key::Command(Command::LastCommand)
            } else {
                Key::Nop
            }
        } else if scan_code <= 0x83 {
            if self.state.release() {
                self.state.set_release(false);
                Key::Nop
            } else if scan_code == 0x5A {
                Key::Command(Command::Enter)
            } else {
                Key::Character(self.get_char(scan_code))
            }
        } else {
            Key::Nop
        }
    }

    /// The character of `scan_code`, shifted or not.
    pub fn get_char(&self, scan_code: usize) -> (c: char)
        requires
            scan_code < KEYS,
        ensures
            c == if self.flags().shift {
                self.keymap().shift_key_array[scan_code as int]
            } else {
                self.keymap().key_array[scan_code as int]
            },
    {
        if !self.state.shift() {
            self.keymap.key_array[scan_code]
        } else {
            self.keymap.shift_key_array[scan_code]
        }
    }
}

} // verus!
