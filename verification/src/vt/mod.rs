//! Headless reading of terminal output: a screen that text is written to, the signals in the output
//! that ask for attention, and the lines that look like a prompt.

pub mod events;
pub mod laws;
pub mod prompt;
pub mod screen;
