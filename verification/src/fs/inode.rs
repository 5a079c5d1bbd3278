//! Inode types and their encodings in `st_mode` and in directory entries.
use vstd::prelude::*;

verus! {

/// Inode type
#[derive(Debug, Clone, Copy, PartialEq, Eq, Structural)]
pub enum InodeType {
    Regular,
    Directory,
    Symlink,
    Pipe,
    Socket,
    CharDevice,
    BlockDevice,
}

impl InodeType {
    pub open spec fn spec_mode_bits(self) -> u32 {
        match self {
            InodeType::Regular => 0o100000,
            InodeType::Directory => 0o040000,
            InodeType::Symlink => 0o120000,
            InodeType::Pipe => 0o010000,
            InodeType::Socket => 0o140000,
            InodeType::CharDevice => 0o020000,
            InodeType::BlockDevice => 0o060000,
        }
    }

    /// The file type bits of `st_mode`.
    pub fn mode_bits(&self) -> (r: u32)
        ensures r == self.spec_mode_bits(),
    {
        match self {
            InodeType::Regular => 0o100000,
            InodeType::Directory => 0o040000,
            InodeType::Symlink => 0o120000,
            InodeType::Pipe => 0o010000,
            InodeType::Socket => 0o140000,
            InodeType::CharDevice => 0o020000,
            InodeType::BlockDevice => 0o060000,
        }
    }

    /// The `d_type` of a directory entry.
    pub fn dirent_type(&self) -> (r: u8)
        ensures
            r == match self {
                InodeType::Regular => 8u8,
                InodeType::Directory => 4u8,
                InodeType::Symlink => 10u8,
                InodeType::CharDevice => 2u8,
                InodeType::BlockDevice => 6u8,
                InodeType::Pipe => 1u8,
                InodeType::Socket => 12u8,
            },
    {
        match self {
            InodeType::Regular => 8,
            InodeType::Directory => 4,
            InodeType::Symlink => 10,
            InodeType::CharDevice => 2,
            InodeType::BlockDevice => 6,
            InodeType::Pipe => 1,
            InodeType::Socket => 12,
        }
    }
}

pub struct Inode {
    pub ino: u64,
    pub itype: InodeType,
    pub mode: u32,
    pub uid: u32,
    pub gid: u32,
    pub nlink: u32,
    pub size: u64,
    pub atime: i64,
    pub mtime: i64,
    pub ctime: i64,
}

} // verus!
