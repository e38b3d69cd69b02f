//! Timing: the clock entry point and the time structures it returns.

pub mod clock;
pub mod timestruct;
