//! File metadata, following the conventional field layout.
use vstd::prelude::*;

use crate::time::timestruct::TimeSpec;

verus! {

/// File information: identity, ownership, size and block shape, and the
/// access, modification and status-change times.
#[derive(Copy, Clone, Debug, Eq, PartialEq, Structural)]
pub struct Stat {
    pub st_dev: i32,
    pub st_ino: i32,
    pub st_mode: i32,
    pub st_nlink: i32,
    pub st_uid: i32,
    pub st_gid: i32,
    pub st_rdev: i32,
    pub st_size: i32,
    pub st_blksize: i32,
    pub st_blocks: i32,
    pub st_atim: TimeSpec,
    pub st_mtim: TimeSpec,
    pub st_ctim: TimeSpec,
}

impl Default for Stat {
    /// Metadata with every field zero.
    fn default() -> (r: Stat)
        ensures
            r.st_dev == 0 && r.st_ino == 0 && r.st_mode == 0 && r.st_nlink == 0,
            r.st_uid == 0 && r.st_gid == 0 && r.st_rdev == 0 && r.st_size == 0,
            r.st_blksize == 0 && r.st_blocks == 0,
            r.st_atim == (TimeSpec { tv_sec: 0, tv_nsec: 0 }),
            r.st_mtim == (TimeSpec { tv_sec: 0, tv_nsec: 0 }),
            r.st_ctim == (TimeSpec { tv_sec: 0, tv_nsec: 0 }),
    {
        Stat {
            st_dev: 0,
            st_ino: 0,
            st_mode: 0,
            st_nlink: 0,
            st_uid: 0,
            st_gid: 0,
            st_rdev: 0,
            st_size: 0,
            st_blksize: 0,
            st_blocks: 0,
            st_atim: TimeSpec { tv_sec: 0, tv_nsec: 0 },
            st_mtim: TimeSpec { tv_sec: 0, tv_nsec: 0 },
            st_ctim: TimeSpec { tv_sec: 0, tv_nsec: 0 },
        }
    }
}

} // verus!
