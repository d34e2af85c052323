//! Key maps of scan code set 2: the character of each scan code, without
//! and with the shift key.

use vstd::prelude::*;

verus! {

/// The character of a scan code to which no character belongs.
pub const NUL: char = '\0';

/// Number of scan codes that a key map covers.
pub const KEYS: usize = 0x84;

/// Characters of the scan codes of set 2.
pub const SET_2: [char; 132] = [
    NUL, NUL, NUL, NUL, NUL, NUL, NUL, NUL,
    NUL, NUL, NUL, NUL, NUL, '\t', '`', NUL,
    NUL, NUL, NUL, NUL, NUL, 'q', '1', NUL,
    NUL, NUL, 'z', 's', 'a', 'w', '2', NUL,
    NUL, 'c', 'x', 'd', 'e', '4', '3', NUL,
    NUL, ' ', 'v', 'f', 't', 'r', '5', NUL,
    NUL, 'n', 'b', 'h', 'g', 'y', '6', NUL,
    NUL, NUL, 'm', 'j', 'u', '7', '8', NUL,
    NUL, ',', 'k', 'i', 'o', '0', '9', NUL,
    NUL, '.', '/', 'l', ';', 'p', '-', NUL,
    NUL, NUL, '\'', NUL, '[', '=', NUL, NUL,
    NUL, NUL, '\r', ']', NUL, '\\', NUL, NUL,
    NUL, NUL, NUL, NUL, NUL, NUL, '\u{8}', NUL,
    NUL, '1', NUL, '4', '7', NUL, NUL, NUL,
    '0', '.', '2', '5', '6', '8', NUL, NUL,
    NUL, '+', '3', '-', '*', '9', NUL, NUL,
    NUL, NUL, NUL, NUL,
];

/// Characters of the scan codes of set 2 while a shift key is held.
pub const SET_2_SHIFT: [char; 132] = [
    NUL, NUL, NUL, NUL, NUL, NUL, NUL, NUL,
    NUL, NUL, NUL, NUL, NUL, '\t', '~', NUL,
    NUL, NUL, NUL, NUL, NUL, 'Q', '!', NUL,
    NUL, NUL, 'Z', 'S', 'A', 'W', '@', NUL,
    NUL, 'C', 'X', 'D', 'E', '$', '#', NUL,
    NUL, ' ', 'V', 'F', 'T', 'R', '%', NUL,
    NUL, 'N', 'B', 'H', 'G', 'Y', '^', NUL,
    NUL, NUL, 'M', 'J', 'U', '&', '*', NUL,
    NUL, '<', 'K', 'I', 'O', ')', '(', NUL,
    NUL, '>', '?', 'L', ':', 'P', '_', NUL,
    NUL, NUL, '"', NUL, '{', '+', NUL, NUL,
    NUL, NUL, '\r', '}', NUL, '|', NUL, NUL,
    NUL, NUL, NUL, NUL, NUL, NUL, '\u{8}', NUL,
    NUL, '1', NUL, '4', '7', NUL, NUL, NUL,
    '0', '.', '2', '5', '6', '8', NUL, NUL,
    NUL, '+', '3', '-', '*', '9', NUL, NUL,
    NUL, NUL, NUL, NUL,
];

} // verus!
