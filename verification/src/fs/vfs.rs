//! Directory entries and open flags.
use vstd::prelude::*;

verus! {

/// A directory entry.
#[derive(Debug)]
pub struct DirEntry {
    pub name: Vec<u8>,
    pub inode: u64,
    /// DT_REG=8, DT_DIR=4, DT_LNK=10
    pub file_type: u8,
}

/// Options decoded from the flags of `open`.
#[derive(Debug, Clone, Copy, PartialEq, Eq, Structural)]
pub struct OpenOptions {
    pub read: bool,
    pub write: bool,
    pub append: bool,
    pub create: bool,
    pub truncate: bool,
    pub exclusive: bool,
    pub nonblock: bool,
    pub cloexec: bool,
    pub directory: bool,
}

impl OpenOptions {
    pub open spec fn spec_from_flags(flags: i32) -> OpenOptions {
        let access = flags & 3;
        OpenOptions {
            read: access == 0 || access == 2,
            write: access == 1 || access == 2,
            append: flags & 0x400 != 0,
            create: flags & 0x40 != 0,
            truncate: flags & 0x200 != 0,
            exclusive: flags & 0x80 != 0,
            nonblock: flags & 0x800 != 0,
            cloexec: flags & 0x80000 != 0,
            directory: flags & 0x10000 != 0,
        }
    }

    pub fn from_flags(flags: i32) -> (r: Self)
        ensures r == Self::spec_from_flags(flags),
    {
        let access = flags & 3;
        Self {
            read: access == 0 || access == 2,
            write: access == 1 || access == 2,
            append: flags & 0x400 != 0,
            create: flags & 0x40 != 0,
            truncate: flags & 0x200 != 0,
            exclusive: flags & 0x80 != 0,
            nonblock: flags & 0x800 != 0,
            cloexec: flags & 0x80000 != 0,
            directory: flags & 0x10000 != 0,
        }
    }
}

} // verus!
