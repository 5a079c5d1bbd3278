//! The `/dev` file system: null, zero, random and terminal devices.
use vstd::prelude::*;
use super::stat::{FileStat, zero_stat};
use super::vfs::DirEntry;
use super::lex::bytes_eq;
use vstd::string::StringSliceAdditionalSpecFns;

verus! {

/// The devices that `/dev` offers.
#[derive(Debug, Clone, Copy, PartialEq, Eq, Structural)]
pub enum DevKind {
    Null,
    Zero,
    Random,
    Tty,
}

pub struct DevFs;

/// The device behind a path of `/dev`.
pub open spec fn dev_of(p: Seq<u8>) -> Option<DevKind> {
    if p == "/null".spec_bytes() {
        Some(DevKind::Null)
    } else if p == "/zero".spec_bytes() {
        Some(DevKind::Zero)
    } else if p == "/urandom".spec_bytes() || p == "/random".spec_bytes() {
        Some(DevKind::Random)
    } else if p == "/tty".spec_bytes() || p == "/console".spec_bytes() || p == "/ttyS0".spec_bytes() {
        Some(DevKind::Tty)
    } else {
        None
    }
}

fn is(p: &[u8], lit: &str) -> (r: bool)
    ensures r == (p@ == lit.spec_bytes()),
{
    bytes_eq(p, lit.as_bytes())
}

fn entry(name: &str, inode: u64) -> (e: DirEntry)
    ensures e.name@ == name.spec_bytes(), e.inode == inode, e.file_type == 2,
{
    let b = name.as_bytes();
    DirEntry { name: super::tmpfs::copy_bytes(b), inode, file_type: 2 }
}

impl DevFs {
    pub fn open(&self, path: &[u8], flags: i32, mode: u32) -> (r: Option<DevKind>)
        ensures r == dev_of(path@),
    {
        if is(path, "/null") {
            Some(DevKind::Null)
        } else if is(path, "/zero") {
            Some(DevKind::Zero)
        } else if is(path, "/urandom") || is(path, "/random") {
            Some(DevKind::Random)
        } else if is(path, "/tty") || is(path, "/console") || is(path, "/ttyS0") {
            Some(DevKind::Tty)
        } else {
            None
        }
    }

    /// Character devices are 0o020666, the root directory 0o040755, one link each.
    pub fn stat(&self, path: &[u8]) -> (r: Option<FileStat>)
        ensures
            r == (if dev_of(path@).is_some() {
                Some(FileStat { st_mode: 0o020666, st_nlink: 1, ..zero_stat() })
            } else if path@ == "/".spec_bytes() {
                Some(FileStat { st_mode: 0o040755, st_nlink: 1, ..zero_stat() })
            } else {
                None
            }),
    {
        let mode = if self.open(path, 0, 0).is_some() {
            0o020666
        } else if is(path, "/") {
            0o040755
        } else {
            return None;
        };
        let mut st = FileStat::zeroed();
        st.st_mode = mode;
        st.st_nlink = 1;
        Some(st)
    }

    /// The listing of the root: null, zero, urandom, random, tty.
    pub fn readdir(&self, path: &[u8]) -> (r: Option<Vec<DirEntry>>)
        ensures
            r.is_some() == (path@ == "/".spec_bytes()),
            r matches Some(es) ==> es@.len() == 5
                && es@[0].name@ == "null".spec_bytes() && es@[0].inode == 1
                && es@[1].name@ == "zero".spec_bytes() && es@[1].inode == 2
                && es@[2].name@ == "urandom".spec_bytes() && es@[2].inode == 3
                && es@[3].name@ == "random".spec_bytes() && es@[3].inode == 4
                && es@[4].name@ == "tty".spec_bytes() && es@[4].inode == 5
                && forall|i: int| 0 <= i < 5 ==> #[trigger] es@[i].file_type == 2,
    {
        if is(path, "/") {
            let mut v: Vec<DirEntry> = Vec::new();
            v.push(entry("null", 1));
            v.push(entry("zero", 2));
            v.push(entry("urandom", 3));
            v.push(entry("random", 4));
            v.push(entry("tty", 5));
            Some(v)
        } else {
            None
        }
    }

    pub fn mkdir(&self, path: &[u8], mode: u32) -> (r: isize) ensures r == -1, { -1 }
    pub fn unlink(&self, path: &[u8]) -> (r: isize) ensures r == -1, { -1 }
    pub fn rmdir(&self, path: &[u8]) -> (r: isize) ensures r == -1, { -1 }
    pub fn rename(&self, old_path: &[u8], new_path: &[u8]) -> (r: isize) ensures r == -1, { -1 }
    pub fn link(&self, old_path: &[u8], new_path: &[u8]) -> (r: isize) ensures r == -1, { -1 }
    pub fn symlink(&self, target: &[u8], link: &[u8]) -> (r: isize) ensures r == -1, { -1 }
    pub fn readlink(&self, path: &[u8]) -> (r: Option<Vec<u8>>) ensures r.is_none(), { None }
}

/// The generator behind the random devices: one step of a 64-bit linear congruential generator.
pub open spec fn lcg_next(s: u64) -> u64 {
    s.wrapping_mul(6364136223846793005u64).wrapping_add(1442695040888963407u64)
}

/// The seeds after `n` steps from `s`.
pub open spec fn lcg_iter(s: u64, n: nat) -> u64
    decreases n,
{
    if n == 0 { s } else { lcg_next(lcg_iter(s, (n - 1) as nat)) }
}

/// The bytes the generator gives from seed `s`: bits 33 to 40 of each following seed.
pub open spec fn lcg_bytes(s: u64, n: nat) -> Seq<u8> {
    Seq::new(n, |i: int| (lcg_iter(s, (i + 1) as nat) >> 33u64) as u8)
}

/// Fills `len` bytes from the generator, advancing `seed` once per byte.
pub fn lcg_fill(seed: &mut u64, len: usize) -> (r: Vec<u8>)
    ensures
        r@ == lcg_bytes(*old(seed), len as nat),
        *final(seed) == lcg_iter(*old(seed), len as nat),
{
    let mut out: Vec<u8> = Vec::new();
    let mut i: usize = 0;
    while i < len
        invariant
            i <= len,
            *seed == lcg_iter(*old(seed), i as nat),
            out@ == lcg_bytes(*old(seed), i as nat),
        decreases len - i,
    {
        *seed = seed.wrapping_mul(6364136223846793005u64).wrapping_add(1442695040888963407u64);
        out.push((*seed >> 33u64) as u8);
        assert(out@ =~= lcg_bytes(*old(seed), (i + 1) as nat));
        i = i + 1;
    }
    out
}

impl DevKind {
    /// Reads `len` bytes: nothing from null and the terminal, zeros from zero,
    /// generator output from random.
    pub fn read(&self, seed: &mut u64, len: usize) -> (r: (isize, Vec<u8>))
        requires len <= isize::MAX,
        ensures
            *self == DevKind::Null || *self == DevKind::Tty ==> r.0 == 0 && r.1@.len() == 0 && *final(seed) == *old(seed),
            *self == DevKind::Zero ==> r.0 == len && r.1@ == Seq::new(len as nat, |i: int| 0u8) && *final(seed) == *old(seed),
            *self == DevKind::Random ==> r.0 == len && r.1@ == lcg_bytes(*old(seed), len as nat)
                && *final(seed) == lcg_iter(*old(seed), len as nat),
    {
        match self {
            DevKind::Null | DevKind::Tty => (0, Vec::new()),
            DevKind::Zero => {
                let mut v: Vec<u8> = Vec::new();
                super::tmpfile::grow_zeros(&mut v, len);
                assert(v@ =~= Seq::new(len as nat, |i: int| 0u8));
                (len as isize, v)
            },
            DevKind::Random => {
                let v = lcg_fill(seed, len);
                (len as isize, v)
            },
        }
    }

    /// Writes are accepted whole; the terminal prints them.
    pub fn write(&self, buf: &[u8]) -> (r: isize)
        requires buf@.len() <= isize::MAX,
        ensures r == buf@.len(),
    {
        buf.len() as isize
    }

    pub fn stat(&self) -> (st: FileStat)
        ensures
            st == (match *self {
                DevKind::Null => FileStat { st_mode: 0o020666, st_rdev: 0x0103, ..zero_stat() },
                DevKind::Zero => FileStat { st_mode: 0o020666, st_rdev: 0x0105, ..zero_stat() },
                _ => FileStat { st_mode: 0o020666, ..zero_stat() },
            }),
    {
        let mut st = FileStat::with_mode(0o020666);
        match self {
            DevKind::Null => { st.st_rdev = 0x0103; },
            DevKind::Zero => { st.st_rdev = 0x0105; },
            _ => {},
        }
        st
    }

    /// Terminal requests succeed; TIOCGWINSZ (0x5413) reports 24 rows, 80 columns,
    /// 640 by 480 pixels, as four little-endian u16 to store at the argument.
    /// On the other devices the call is a stub that answers 0.
    pub fn ioctl(&self, request: u64) -> (r: (isize, Option<Vec<u8>>))
        ensures
            r.0 == 0,
            (*self == DevKind::Tty && request == 0x5413) ==> (r.1 matches Some(b) && b@ == seq![24u8, 0, 80, 0, 128, 2, 224, 1]),
            !(*self == DevKind::Tty && request == 0x5413) ==> r.1.is_none(),
    {
        if *self == DevKind::Tty && request == 0x5413 {
            let v = vec![24u8, 0, 80, 0, 128, 2, 224, 1];
            (0, Some(v))
        } else {
            (0, None)
        }
    }
}

} // verus!
