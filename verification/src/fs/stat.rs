//! Linux-compatible `struct stat`.
use vstd::prelude::*;

verus! {

#[derive(Debug, Clone, Copy, PartialEq, Eq, Structural)]
pub struct FileStat {
    pub st_dev: u64,
    pub st_ino: u64,
    pub st_mode: u32,
    pub st_nlink: u32,
    pub st_uid: u32,
    pub st_gid: u32,
    pub st_rdev: u64,
    pub pad: u64,
    pub st_size: i64,
    pub st_blksize: i32,
    pub pad2: i32,
    pub st_blocks: i64,
    pub st_atime: i64,
    pub st_atime_nsec: i64,
    pub st_mtime: i64,
    pub st_mtime_nsec: i64,
    pub st_ctime: i64,
    pub st_ctime_nsec: i64,
    pub unused0: u32,
    pub unused1: u32,
}

pub open spec fn zero_stat() -> FileStat {
    FileStat {
        st_dev: 0, st_ino: 0, st_mode: 0, st_nlink: 0, st_uid: 0, st_gid: 0, st_rdev: 0, pad: 0,
        st_size: 0, st_blksize: 0, pad2: 0, st_blocks: 0, st_atime: 0, st_atime_nsec: 0,
        st_mtime: 0, st_mtime_nsec: 0, st_ctime: 0, st_ctime_nsec: 0, unused0: 0, unused1: 0,
    }
}

impl FileStat {
    /// A stat with every field zero.
    pub fn zeroed() -> (s: Self)
        ensures s == zero_stat(),
    {
        FileStat {
            st_dev: 0, st_ino: 0, st_mode: 0, st_nlink: 0, st_uid: 0, st_gid: 0, st_rdev: 0, pad: 0,
            st_size: 0, st_blksize: 0, pad2: 0, st_blocks: 0, st_atime: 0, st_atime_nsec: 0,
            st_mtime: 0, st_mtime_nsec: 0, st_ctime: 0, st_ctime_nsec: 0, unused0: 0, unused1: 0,
        }
    }

    /// A stat with only `st_mode` set.
    pub fn with_mode(mode: u32) -> (s: Self)
        ensures s == (FileStat { st_mode: mode, ..zero_stat() }),
    {
        let mut s = Self::zeroed();
        s.st_mode = mode;
        s
    }
}

} // verus!
