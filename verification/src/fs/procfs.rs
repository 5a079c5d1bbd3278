//! The `/proc` file system: fixed, read-only text files about the system.
use vstd::prelude::*;
use super::stat::{FileStat, zero_stat};
use super::vfs::DirEntry;
use super::lex::bytes_eq;
use super::tmpfs::copy_bytes;
use super::tmpfile::{copy_range, read_count, read_slice};
use vstd::string::StringSliceAdditionalSpecFns;

verus! {

pub struct ProcFs;

/// What `/proc` holds at a path (relative to its mount point).
pub open spec fn proc_content(p: Seq<u8>) -> Option<Seq<u8>> {
    if p == "/self/maps".spec_bytes() || p == "/self/smaps".spec_bytes() {
        Some(Seq::empty())
    } else if p == "/self/status".spec_bytes() {
        Some(STATUS_TEXT.spec_bytes())
    } else if p == "/self/stat".spec_bytes() {
        Some(STAT_TEXT.spec_bytes())
    } else if p == "/sys/kernel/ostype".spec_bytes() {
        Some("Linux\n".spec_bytes())
    } else if p == "/sys/kernel/osrelease".spec_bytes() {
        Some("5.15.0-iJiege\n".spec_bytes())
    } else if p == "/sys/kernel/hostname".spec_bytes() {
        Some("ijiege\n".spec_bytes())
    } else if p == "/meminfo".spec_bytes() {
        Some(MEMINFO_TEXT.spec_bytes())
    } else if p == "/cpuinfo".spec_bytes() {
        Some(CPUINFO_TEXT.spec_bytes())
    } else if p == "/version".spec_bytes() {
        Some(VERSION_TEXT.spec_bytes())
    } else if p == "/net/if_inet6".spec_bytes() || p == "/net/fib_trie".spec_bytes() {
        Some(Seq::empty())
    } else {
        None
    }
}

pub const STATUS_TEXT: &'static str = "Name:\tnginx\nPid:\t1\nPPid:\t0\nUid:\t0 0 0 0\nGid:\t0 0 0 0\nVmSize:\t1024 kB\nVmRSS:\t1024 kB\nThreads:\t1\n";
pub const STAT_TEXT: &'static str = "1 (nginx) S 0 1 1 0 -1 0 0 0 0 0 0 0 0 0 0 1 0 0 0 0 0 0\n";
pub const MEMINFO_TEXT: &'static str = "MemTotal:       131072 kB\nMemFree:        65536 kB\nMemAvailable:   65536 kB\nBuffers:        1024 kB\nCached:         4096 kB\n";
pub const CPUINFO_TEXT: &'static str = "processor\t: 0\nvendor_id\t: riscv64\nmodel name\t: iJiege RISC-V\nmhz\t\t: 10\n\n";
pub const VERSION_TEXT: &'static str = "Linux version 5.15.0-iJiege (gcc version 11.0.0) #1 SMP\n";

fn is(p: &[u8], lit: &str) -> (r: bool)
    ensures r == (p@ == lit.spec_bytes()),
{
    bytes_eq(p, lit.as_bytes())
}

fn text(lit: &str) -> (r: Vec<u8>)
    ensures r@ == lit.spec_bytes(),
{
    copy_bytes(lit.as_bytes())
}

/// An open file of `/proc`: its contents, fixed when it was opened, and a read offset.
pub struct ProcFile {
    pub data: Vec<u8>,
    pub offset: usize,
}

impl ProcFs {
    /// Opens the file at `path`, with its contents; `None` where `/proc` has none.
    pub fn open(&self, path: &[u8], flags: i32, mode: u32) -> (r: Option<ProcFile>)
        ensures
            r.is_some() == proc_content(path@).is_some(),
            r matches Some(f) ==> f.offset == 0 && Some(f.data@) == proc_content(path@),
    {
        let data = if is(path, "/self/maps") || is(path, "/self/smaps") {
            Vec::new()
        } else if is(path, "/self/status") {
            text(STATUS_TEXT)
        } else if is(path, "/self/stat") {
            text(STAT_TEXT)
        } else if is(path, "/sys/kernel/ostype") {
            text("Linux\n")
        } else if is(path, "/sys/kernel/osrelease") {
            text("5.15.0-iJiege\n")
        } else if is(path, "/sys/kernel/hostname") {
            text("ijiege\n")
        } else if is(path, "/meminfo") {
            text(MEMINFO_TEXT)
        } else if is(path, "/cpuinfo") {
            text(CPUINFO_TEXT)
        } else if is(path, "/version") {
            text(VERSION_TEXT)
        } else if is(path, "/net/if_inet6") || is(path, "/net/fib_trie") {
            Vec::new()
        } else {
            return None;
        };
        proof {
            if data@.len() == 0 {
                assert(data@ =~= Seq::<u8>::empty());
            }
        }
        Some(ProcFile { data, offset: 0 })
    }

    /// Every path reads as a one-link regular file, mode r--r--r--.
    pub fn stat(&self, path: &[u8]) -> (r: Option<FileStat>)
        ensures r == Some(FileStat { st_mode: 0o100444, st_nlink: 1, ..zero_stat() }),
    {
        let mut st = FileStat::with_mode(0o100444);
        st.st_nlink = 1;
        Some(st)
    }

    /// The root lists meminfo, cpuinfo, version (files) and self (a directory).
    pub fn readdir(&self, path: &[u8]) -> (r: Option<Vec<DirEntry>>)
        ensures
            r.is_some() == (path@ == "/".spec_bytes()),
            r matches Some(es) ==> es@.len() == 4
                && es@[0].name@ == "meminfo".spec_bytes() && es@[0].inode == 1 && es@[0].file_type == 8
                && es@[1].name@ == "cpuinfo".spec_bytes() && es@[1].inode == 2 && es@[1].file_type == 8
                && es@[2].name@ == "version".spec_bytes() && es@[2].inode == 3 && es@[2].file_type == 8
                && es@[3].name@ == "self".spec_bytes() && es@[3].inode == 4 && es@[3].file_type == 4,
    {
        if is(path, "/") {
            let mut v: Vec<DirEntry> = Vec::new();
            v.push(DirEntry { name: text("meminfo"), inode: 1, file_type: 8 });
            v.push(DirEntry { name: text("cpuinfo"), inode: 2, file_type: 8 });
            v.push(DirEntry { name: text("version"), inode: 3, file_type: 8 });
            v.push(DirEntry { name: text("self"), inode: 4, file_type: 4 });
            Some(v)
        } else {
            None
        }
    }

    pub fn mkdir(&self, path: &[u8], mode: u32) -> (r: isize) ensures r == -1, { -1 }
    pub fn unlink(&self, path: &[u8]) -> (r: isize) ensures r == -1, { -1 }
    pub fn rmdir(&self, path: &[u8]) -> (r: isize) ensures r == -1, { -1 }
    pub fn rename(&self, old_path: &[u8], new_path: &[u8]) -> (r: isize) ensures r == -1, { -1 }
    pub fn link(&self, old_path: &[u8], new_path: &[u8]) -> (r: isize) ensures r == -1, { -1 }
    pub fn symlink(&self, target: &[u8], link: &[u8]) -> (r: isize) ensures r == -1, { -1 }
    pub fn readlink(&self, path: &[u8]) -> (r: Option<Vec<u8>>) ensures r.is_none(), { None }
}

/// The offset a seek of a `/proc` file moves to, or `None` when refused.
pub open spec fn proc_seek_target(cur: int, size: int, off: i64, whence: i32) -> Option<int> {
    let new = if whence == 0 {
        Some(off as int)
    } else if whence == 1 {
        Some((cur as i64).wrapping_add(off) as int)
    } else if whence == 2 {
        Some((size as i64).wrapping_add(off) as int)
    } else {
        None
    };
    match new {
        Some(n) => if n < 0 { None } else { Some(n) },
        None => None,
    }
}

impl ProcFile {
    /// Reads up to `len` bytes at the offset and advances it.
    pub fn read(&mut self, len: usize) -> (r: (isize, Vec<u8>))
        requires len <= isize::MAX,
        ensures
            ({
                let n = read_count(old(self).data@.len() as int, old(self).offset as int, len as int);
                &&& r.0 == n
                &&& r.1@ == read_slice(old(self).data@, old(self).offset as int, n)
                &&& final(self).offset == old(self).offset + n
            }),
            final(self).data@ == old(self).data@,
    {
        if self.offset >= self.data.len() {
            return (0, Vec::new());
        }
        let start = self.offset;
        let n = if len < self.data.len() - start { len } else { self.data.len() - start };
        let out = copy_range(self.data.as_slice(), start, n);
        self.offset = start + n;
        (n as isize, out)
    }

    /// Read-only: every write fails.
    pub fn write(&self, buf: &[u8]) -> (r: isize)
        ensures r == -1,
    {
        -1
    }

    pub fn stat(&self) -> (st: FileStat)
        ensures st == (FileStat { st_mode: 0o100444, st_size: self.data@.len() as i64, ..zero_stat() }),
    {
        let mut st = FileStat::with_mode(0o100444);
        st.st_size = self.data.len() as i64;
        st
    }

    /// Moves the offset from the start, the current offset or the end (`whence` 0, 1, 2);
    /// -1 for another `whence` or a negative result.
    pub fn seek(&mut self, offset: i64, whence: i32) -> (r: i64)
        requires
            old(self).offset <= i64::MAX,
            old(self).data@.len() <= i64::MAX,
        ensures
            final(self).data@ == old(self).data@,
            proc_seek_target(old(self).offset as int, old(self).data@.len() as int, offset, whence) matches Some(n)
                ==> (n <= usize::MAX ==> r == n && final(self).offset == n),
            proc_seek_target(old(self).offset as int, old(self).data@.len() as int, offset, whence).is_none()
                ==> r == -1 && final(self).offset == old(self).offset,
    {
        let new_offset: i64 = if whence == 0 {
            offset
        } else if whence == 1 {
            (self.offset as i64).wrapping_add(offset)
        } else if whence == 2 {
            (self.data.len() as i64).wrapping_add(offset)
        } else {
            return -1;
        };
        if new_offset < 0 {
            return -1;
        }
        self.offset = new_offset as usize;
        new_offset
    }
}

} // verus!
