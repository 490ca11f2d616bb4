//! Control core of a five-digit seven-segment LED clock and stopwatch.

pub mod bus;
pub mod clock;
pub mod display;
pub mod segments;
