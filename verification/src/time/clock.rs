//! The clock: until a hardware time source is wired up, the current time
//! reads as the zero point.
use vstd::prelude::*;

use crate::time::timestruct::TimeSpec;

verus! {

/// The current time; for now always the zero point.
pub fn now() -> (r: TimeSpec)
    ensures
        r.tv_sec == 0,
        r.tv_nsec == 0,
{
    TimeSpec::empty()
}

} // verus!
