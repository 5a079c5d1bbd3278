pub mod inode;
pub mod vfs;
pub mod stat;
pub mod path;
pub mod lex;
pub mod tmpfs;
pub mod tmpfile;
pub mod devfs;
pub mod pipe;
pub mod procfs;
pub mod socket;
pub mod cpio;

use vstd::prelude::*;
use tmpfs::{TmpFs, Opened, NodeV};
use stat::FileStat;
use vfs::DirEntry;
use cpio::{CpioAct, apply_act, apply_acts, cpio_acts};
use vstd::string::StringSliceAdditionalSpecFns;

verus! {

/// The path, relative to the root mount, that an absolute path names; `None` for a path
/// that does not start with `/` (no mount point covers it).
pub open spec fn rel_path(p: Seq<u8>) -> Option<Seq<u8>> {
    if p.len() > 0 && p[0] == 47u8 {
        Some(if p.len() == 1 { p } else { p.skip(1) })
    } else {
        None
    }
}

fn rel_of(path: &[u8]) -> (r: Option<Vec<u8>>)
    ensures
        r.is_some() == rel_path(path@).is_some(),
        r matches Some(v) ==> rel_path(path@) == Some(v@),
{
    if path.len() > 0 && path[0] == 47u8 {
        if path.len() == 1 {
            Some(tmpfs::copy_bytes(path))
        } else {
            Some(tmpfile::copy_range(path, 1, path.len() - 1))
        }
    } else {
        None
    }
}

/// The directories the root file system starts with, in the order they are made.
pub open spec fn init_dirs() -> Seq<CpioAct> {
    seq![
        CpioAct::Dir("/tmp".spec_bytes()), CpioAct::Dir("/var".spec_bytes()),
        CpioAct::Dir("/var/run".spec_bytes()), CpioAct::Dir("/var/log".spec_bytes()),
        CpioAct::Dir("/etc".spec_bytes()), CpioAct::Dir("/proc".spec_bytes()),
        CpioAct::Dir("/dev".spec_bytes()), CpioAct::Dir("/run".spec_bytes()),
        CpioAct::Dir("/usr".spec_bytes()), CpioAct::Dir("/usr/sbin".spec_bytes()),
        CpioAct::Dir("/usr/lib".spec_bytes()), CpioAct::Dir("/lib".spec_bytes()),
    ]
}

/// The nodes of a fresh file system: the root directory, inode 1.
pub open spec fn root_only() -> spec_fn(Seq<u8>) -> Option<NodeV> {
    |q: Seq<u8>| if q == seq![47u8] { Some(NodeV::Dir { ino: 1, mode: 0o755 }) } else { None }
}

fn make_dir(fs: &mut TmpFs, path: &str, Ghost(done): Ghost<Seq<CpioAct>>, now_ms: u64)
    requires
        old(fs).wf(),
        ({
            let (f, i) = apply_acts(root_only(), 2, done, now_ms);
            &&& old(fs).next_ino == i
            &&& forall|q: Seq<u8>| #[trigger] old(fs).node_at(q) == f(q)
        }),
    ensures
        final(fs).wf(),
        ({
            let (f, i) = apply_acts(root_only(), 2, done.push(CpioAct::Dir(path.spec_bytes())), now_ms);
            &&& final(fs).next_ino == i
            &&& forall|q: Seq<u8>| #[trigger] final(fs).node_at(q) == f(q)
        }),
{
    let ghost nd = done.push(CpioAct::Dir(path.spec_bytes()));
    assert(nd.drop_last() =~= done);
    let ghost (f0, i0) = apply_acts(root_only(), 2, done, now_ms);
    fs.create_dir(path.as_bytes());
    proof {
        let (f1, i1) = apply_act(f0, i0, CpioAct::Dir(path.spec_bytes()), now_ms);
        assert forall|q: Seq<u8>| #[trigger] fs.node_at(q) == f1(q) by {
            assert(old(fs).node_at(q) == f0(q));
            assert(old(fs).node_at(path::normalized(path.spec_bytes())) == f0(path::normalized(path.spec_bytes())));
        }
    }
}

fn make_std_dirs(fs: &mut TmpFs, now_ms: u64)
    requires
        old(fs).wf(),
        old(fs).next_ino == 2,
        forall|q: Seq<u8>| #[trigger] old(fs).node_at(q) == (root_only())(q),
    ensures
        final(fs).wf(),
        ({
            let (f, i) = apply_acts(root_only(), 2, init_dirs(), now_ms);
            &&& final(fs).next_ino == i
            &&& forall|q: Seq<u8>| #[trigger] final(fs).node_at(q) == f(q)
        }),
{
    proof { assert(apply_acts(root_only(), 2, Seq::<CpioAct>::empty(), now_ms) == (root_only(), 2u64)); }
    let ghost mut done: Seq<CpioAct> = Seq::empty();
    make_dir(fs, "/tmp", Ghost(done), now_ms);
    proof { done = done.push(CpioAct::Dir("/tmp".spec_bytes())); }
    make_dir(fs, "/var", Ghost(done), now_ms);
    proof { done = done.push(CpioAct::Dir("/var".spec_bytes())); }
    make_dir(fs, "/var/run", Ghost(done), now_ms);
    proof { done = done.push(CpioAct::Dir("/var/run".spec_bytes())); }
    make_dir(fs, "/var/log", Ghost(done), now_ms);
    proof { done = done.push(CpioAct::Dir("/var/log".spec_bytes())); }
    make_dir(fs, "/etc", Ghost(done), now_ms);
    proof { done = done.push(CpioAct::Dir("/etc".spec_bytes())); }
    make_dir(fs, "/proc", Ghost(done), now_ms);
    proof { done = done.push(CpioAct::Dir("/proc".spec_bytes())); }
    make_dir(fs, "/dev", Ghost(done), now_ms);
    proof { done = done.push(CpioAct::Dir("/dev".spec_bytes())); }
    make_dir(fs, "/run", Ghost(done), now_ms);
    proof { done = done.push(CpioAct::Dir("/run".spec_bytes())); }
    make_dir(fs, "/usr", Ghost(done), now_ms);
    proof { done = done.push(CpioAct::Dir("/usr".spec_bytes())); }
    make_dir(fs, "/usr/sbin", Ghost(done), now_ms);
    proof { done = done.push(CpioAct::Dir("/usr/sbin".spec_bytes())); }
    make_dir(fs, "/usr/lib", Ghost(done), now_ms);
    proof { done = done.push(CpioAct::Dir("/usr/lib".spec_bytes())); }
    make_dir(fs, "/lib", Ghost(done), now_ms);
    proof { done = done.push(CpioAct::Dir("/lib".spec_bytes())); }
    assert(done =~= init_dirs());
}

/// The root file system: a fresh in-memory file system with the standard directories, then
/// the contents of the initial image `initrd` (files stamped `now_ms`).
#[verifier::rlimit(40)]
pub fn init(initrd: &[u8], now_ms: u64) -> (fs: TmpFs)
    requires
        initrd@.len() + 8 <= usize::MAX,
        cpio_acts(initrd@, 0).is_some(),
    ensures
        fs.wf(),
        ({
            let (f0, i0) = apply_acts(root_only(), 2, init_dirs(), now_ms);
            let (f, i) = if initrd@.len() == 0 { (f0, i0) } else { apply_acts(f0, i0, cpio_acts(initrd@, 0).unwrap(), now_ms) };
            &&& fs.next_ino == i
            &&& forall|q: Seq<u8>| #[trigger] fs.node_at(q) == f(q)
        }),
{
    let mut fs = TmpFs::new();
    proof {
        assert forall|q: Seq<u8>| #[trigger] fs.node_at(q) == (root_only())(q) by {
            if q != seq![47u8] { assert(fs.node_at(q).is_none()); }
        }
        assert(apply_acts(root_only(), 2, Seq::<CpioAct>::empty(), now_ms) == (root_only(), 2u64));
    }
    make_std_dirs(&mut fs, now_ms);
    if initrd.len() > 0 {
        let ghost mid = fs;
        cpio::extract_cpio(&mut fs, initrd, now_ms);
        proof {
            let (f0, i0) = apply_acts(root_only(), 2, init_dirs(), now_ms);
            assert((|q: Seq<u8>| mid.node_at(q)) =~= f0);
        }
    }
    fs
}

/// The root file system as `init` builds it, when the image's entries can be read.
pub fn try_init(initrd: &[u8], now_ms: u64) -> (r: Option<TmpFs>)
    requires initrd@.len() + 8 <= usize::MAX,
    ensures
        r.is_some() == cpio_acts(initrd@, 0).is_some(),
        r matches Some(fs) ==> fs.wf() && ({
            let (f0, i0) = apply_acts(root_only(), 2, init_dirs(), now_ms);
            let (f, i) = if initrd@.len() == 0 { (f0, i0) } else { apply_acts(f0, i0, cpio_acts(initrd@, 0).unwrap(), now_ms) };
            &&& fs.next_ino == i
            &&& forall|q: Seq<u8>| #[trigger] fs.node_at(q) == f(q)
        }),
{
    if cpio::cpio_ok(initrd) {
        Some(init(initrd, now_ms))
    } else {
        None
    }
}

/// Opens `path` on the root file system.
pub fn open(fs: &mut TmpFs, path: &[u8], flags: i32, mode: u32, now_ms: u64) -> (r: Option<Opened>)
    requires old(fs).wf(),
    ensures
        final(fs).wf(),
        rel_path(path@).is_none() ==> r.is_none() && *final(fs) == *old(fs),
        rel_path(path@) matches Some(rel) ==> tmpfs::open_post(*old(fs), *final(fs), rel, flags, mode, now_ms, r),
{
    match rel_of(path) {
        Some(rel) => fs.open(rel.as_slice(), flags, mode, now_ms),
        None => None,
    }
}

/// Lists the directory at `path` on the root file system.
pub fn readdir(fs: &TmpFs, path: &[u8]) -> (r: Option<Vec<DirEntry>>)
    requires fs.wf(),
    ensures
        rel_path(path@).is_none() ==> r.is_none(),
        rel_path(path@) matches Some(rel) ==> tmpfs::readdir_post(*fs, rel, r),
{
    match rel_of(path) {
        Some(rel) => fs.readdir(rel.as_slice()),
        None => None,
    }
}

/// The attributes of the node at `path` on the root file system.
pub fn stat(fs: &TmpFs, path: &[u8], now_ms: u64) -> (r: Option<FileStat>)
    requires fs.wf(),
    ensures
        rel_path(path@).is_none() ==> r.is_none(),
        rel_path(path@) matches Some(rel) ==> r == tmpfs::stat_spec(*fs, rel, now_ms),
{
    match rel_of(path) {
        Some(rel) => fs.stat(rel.as_slice(), now_ms),
        None => None,
    }
}

/// The target of the symbolic link at `path` on the root file system.
pub fn readlink(fs: &TmpFs, path: &[u8]) -> (r: Option<Vec<u8>>)
    requires fs.wf(),
    ensures
        rel_path(path@).is_none() ==> r.is_none(),
        rel_path(path@) matches Some(rel) ==> (match fs.node_at(path::normalized(rel)) {
            Some(NodeV::Symlink(t)) => r matches Some(v) && v@ == t,
            _ => r.is_none(),
        }),
{
    match rel_of(path) {
        Some(rel) => fs.readlink(rel.as_slice()),
        None => None,
    }
}

} // verus!
pub mod eventfd;
pub mod file;
