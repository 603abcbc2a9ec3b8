//! A single-line terminal progress bar: the bar, the template it is written
//! into, and the elapsed-time field, all computed from plain values. Reading
//! the terminal's width and the clock, and writing the line, are left to the
//! caller, who hands the width and the elapsed seconds in and shows the
//! returned frame.
pub mod bar;
pub mod clock;
pub mod progress;
pub mod text;
