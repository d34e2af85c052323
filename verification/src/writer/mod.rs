//! Screen driver
//!
//! # Features
//!
//! - Print characters on the bottom line of the screen
//! - A new line is added when the current is full
//! - The cursor can be moved along the line to write at specific position
//! - Characters can be removed from screen with backspace

pub mod multiscreen;
pub mod screen_writer;
