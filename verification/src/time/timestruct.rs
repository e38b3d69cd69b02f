//! Basic time structures.
use vstd::prelude::*;

verus! {

/// A point in time: whole seconds and the nanoseconds within the second.
#[derive(Copy, Clone, Debug, Eq, PartialEq, Structural)]
pub struct TimeSpec {
    pub tv_sec: i32,
    pub tv_nsec: i32,
}

impl TimeSpec {
    /// A known point in time.
    pub fn new(tv_sec: i32, tv_nsec: i32) -> (r: TimeSpec)
        ensures
            r.tv_sec == tv_sec,
            r.tv_nsec == tv_nsec,
    {
        TimeSpec { tv_sec, tv_nsec }
    }

    /// The zero point in time.
    pub fn empty() -> (r: TimeSpec)
        ensures
            r.tv_sec == 0,
            r.tv_nsec == 0,
    {
        TimeSpec { tv_sec: 0, tv_nsec: 0 }
    }
}

impl Default for TimeSpec {
    /// The zero point in time.
    fn default() -> (r: TimeSpec)
        ensures
            r.tv_sec == 0 && r.tv_nsec == 0,
    {
        TimeSpec::empty()
    }
}

} // verus!
