//! Socket system calls.
use vstd::prelude::*;
use super::{Kernel, OpenFile, table_ok, files_except};
use super::errno::{EBADF, ENOTSOCK, EINVAL, EAGAIN, ECONNREFUSED};
use crate::fs::file::{FileObject, read_post, write_post};
use crate::fs::socket::{Socket, SocketInner, SockAddr};
use crate::net::{parse_sockaddr, spec_parse_sockaddr};
use crate::task::task::first_free;
use crate::syscall::file::{read_step, write_step, vec_bytes, sum_written, sum_counts, piece_bytes, readv_result};

verus! {

/// A socket of `domain` and type `sock_type` (its SOCK_NONBLOCK and SOCK_CLOEXEC bits
/// dropped), under the lowest free descriptor.
pub fn sys_socket(k: &mut Kernel, domain: i32, sock_type: i32, protocol: i32) -> (r: i64)
    requires old(k).running(), old(k).fd_room(1),
    ensures
        final(k).running(),
        r == first_free(old(k).cur_task().fd_table@) as i64,
        final(k).files@.len() == old(k).files@.len() + 1,
        final(k).files@.last().refs == 1,
        final(k).files@.last().obj matches FileObject::Socket(s) && s.inner.domain == domain
            && s.inner.sock_type == sock_type & !0x880000i32 && s.inner.protocol == protocol
            && !s.inner.bound && !s.inner.listening && !s.inner.connected && !s.inner.nonblock
            && s.inner.recv_buf@.len() == 0 && s.inner.send_buf@.len() == 0,
        final(k).ctx == old(k).ctx,
        final(k).fds_set(*old(k), crate::syscall::file::table_with(old(k).cur_task().fd_table@, r as int, old(k).files@.len() as usize)),
{
    let actual_type = sock_type & !0x880000i32;
    let s = Socket::new(domain, actual_type, protocol);
    let fd = k.install(FileObject::Socket(s));
    proof { crate::task::task::lemma_first_free(old(k).cur_task().fd_table@, fd as int); }
    fd as i64
}

proof fn lemma_sock_ok(k0: Kernel, k1: Kernel, id: int)
    requires
        k0.wf(),
        k1.current == k0.current,
        k1.manager == k0.manager,
        files_except(k0.files@, k1.files@, id),
        0 <= id < k0.files@.len(),
        k1.files@[id].obj matches FileObject::Socket(_),
        k1.ctx == k0.ctx,
    ensures k1.wf(),
{
    assert forall|i: int| 0 <= i < k1.manager.tasks@.len()
        implies table_ok(#[trigger] k1.manager.tasks@[i].fd_table@, k1.files@.len() as int) by {
        assert(table_ok(k0.manager.tasks@[i].fd_table@, k0.files@.len() as int));
    }
    assert forall|q: int| 0 <= q < k1.files@.len()
        implies (#[trigger] k1.files@[q]).obj.obj_wf(k1.ctx.pipes@.len() as int) by {
        if q != id { assert(k0.files@[q] == k1.files@[q]); }
    }
}

/// Binds the socket under `fd` to the address `addr`: an IPv4 address is kept as its local
/// address; any other address of at least two bytes binds it without one; EINVAL (-22) for
/// a shorter one, ENOTSOCK (-88) for another kind of file, EBADF (-9) when `fd` is not open.
pub fn sys_bind(k: &mut Kernel, fd: usize, addr: &[u8]) -> (r: i64)
    requires old(k).running(),
    ensures
        final(k).running(),
        old(k).fd_obj(fd as int).is_none() ==> r == EBADF && *final(k) == *old(k),
        old(k).fd_obj(fd as int) matches Some(id) ==> match old(k).files@[id as int].obj {
            FileObject::Socket(s0) => {
                if spec_parse_sockaddr(addr@).is_none() && addr@.len() < 2 {
                    r == EINVAL && *final(k) == *old(k)
                } else {
                    &&& r == 0
                    &&& final(k).file_changed(*old(k), id as int) && final(k).ctx == old(k).ctx
                    &&& final(k).files@[id as int].obj matches FileObject::Socket(s1)
                        && s1.inner.bound
                        && (spec_parse_sockaddr(addr@) matches Some(pa) ==> (s1.inner.local_addr matches Some(a) && (a.port, a.ip@) == pa))
                        && (spec_parse_sockaddr(addr@).is_none() ==> s1.inner.local_addr == s0.inner.local_addr)
                        && s1.inner.recv_buf@ == s0.inner.recv_buf@ && s1.inner.send_buf@ == s0.inner.send_buf@
                        && s1.inner.connected == s0.inner.connected && s1.inner.listening == s0.inner.listening
                        && s1.inner.nonblock == s0.inner.nonblock && s1.inner.handle == s0.inner.handle
                }
            },
            _ => r == ENOTSOCK && *final(k) == *old(k),
        },
{
    let id = match k.lookup(fd) {
        Some(id) => id,
        None => return EBADF,
    };
    let is_sock = match &k.files[id].obj {
        FileObject::Socket(_) => true,
        _ => false,
    };
    if !is_sock {
        return ENOTSOCK;
    }
    let parsed = parse_sockaddr(addr);
    if parsed.is_none() && addr.len() < 2 {
        return EINVAL;
    }
    match &mut k.files[id].obj {
        FileObject::Socket(s) => {
            match parsed {
                Some(sa) => { s.inner.local_addr = Some(sa); },
                None => {},
            }
            s.inner.bound = true;
        },
        _ => {},
    }
    proof { lemma_sock_ok(*old(k), *k, id as int); }
    0
}

/// What `sys_listen` does to the kernel and returns.
pub open spec fn listen_post(k0: Kernel, k1: Kernel, fd: usize, backlog: i32, r: i64) -> bool {
    &&& k1.running()
    &&& k0.fd_obj(fd as int).is_none() ==> r == EBADF && k1 == k0
    &&& (k0.fd_obj(fd as int) matches Some(id) ==> r == 0 && match k0.files@[id as int].obj {
        FileObject::Socket(s0) => {
            &&& k1.file_changed(k0, id as int) && k1.ctx == k0.ctx
            &&& k1.files@[id as int].obj matches FileObject::Socket(s1)
                && s1.inner == (SocketInner { listening: true, ..s0.inner })
        },
        _ => k1 == k0,
    })
}

/// Marks the socket under `fd` as listening (other kinds of file are left alone); EBADF (-9)
/// when `fd` is not open.
pub fn sys_listen(k: &mut Kernel, fd: usize, backlog: i32) -> (r: i64)
    requires old(k).running(),
    ensures listen_post(*old(k), *final(k), fd, backlog, r),

{
    let id = match k.lookup(fd) {
        Some(id) => id,
        None => return EBADF,
    };
    let is_sock = match &k.files[id].obj {
        FileObject::Socket(_) => true,
        _ => false,
    };
    if is_sock {
        match &mut k.files[id].obj {
            FileObject::Socket(s) => { s.inner.listening = true; },
            _ => {},
        }
        proof { lemma_sock_ok(*old(k), *k, id as int); }
    }
    0
}

/// What `accept` does in one step.
pub enum Accept {
    /// It finished with this result.
    Done(i64),
    /// Nothing to accept yet: the caller gives the processor up and tries again.
    Wait,
}

/// Accepts a connection on the socket under `fd`: EBADF (-9) when `fd` is not open, EAGAIN
/// (-11) in non-blocking mode, ENOTSOCK (-88) for another kind of file; else, once data is
/// waiting on the listening socket, a fresh connected socket of the same domain and type
/// under the lowest free descriptor (before that, the caller waits).
pub fn sys_accept(k: &mut Kernel, fd: usize) -> (r: Accept)
    requires old(k).running(), old(k).fd_room(1),
    ensures
        final(k).running(),
        old(k).fd_obj(fd as int).is_none() ==> r == Accept::Done(EBADF) && *final(k) == *old(k),
        old(k).fd_obj(fd as int) matches Some(id) ==> {
            let o = old(k).files@[id as int].obj;
            &&& crate::fs::file::nonblock_spec(o, old(k).ctx.pipes@) ==> r == Accept::Done(EAGAIN) && *final(k) == *old(k)
            &&& !crate::fs::file::nonblock_spec(o, old(k).ctx.pipes@) && !(o matches FileObject::Socket(_))
                ==> r == Accept::Done(ENOTSOCK) && *final(k) == *old(k)
            &&& (!crate::fs::file::nonblock_spec(o, old(k).ctx.pipes@) && (o matches FileObject::Socket(_))) ==> {
                let s0 = o->Socket_0;
                if s0.inner.recv_buf@.len() == 0 {
                    r == Accept::Wait && *final(k) == *old(k)
                } else {
                    &&& r == Accept::Done(first_free(old(k).cur_task().fd_table@) as i64)
                    &&& final(k).files@.len() == old(k).files@.len() + 1
                    &&& final(k).files@.last().obj matches FileObject::Socket(s1) && s1.inner.connected
                        && s1.inner.domain == s0.inner.domain && s1.inner.sock_type == s0.inner.sock_type
                        && s1.inner.protocol == 0 && !s1.inner.listening && s1.inner.recv_buf@.len() == 0
                    &&& final(k).fds_set(*old(k), crate::syscall::file::table_with(old(k).cur_task().fd_table@,
                        first_free(old(k).cur_task().fd_table@), old(k).files@.len() as usize))
                }
            }
        },
{
    let id = match k.lookup(fd) {
        Some(id) => id,
        None => return Accept::Done(EBADF),
    };
    if k.files[id].obj.is_nonblock(&k.ctx) {
        return Accept::Done(EAGAIN);
    }
    let (domain, sock_type, waiting) = match &k.files[id].obj {
        FileObject::Socket(s) => (s.inner.domain, s.inner.sock_type, s.inner.recv_buf.len()),
        _ => return Accept::Done(ENOTSOCK),
    };
    if waiting == 0 {
        return Accept::Wait;
    }
    let mut ns = Socket::new(domain, sock_type, 0);
    ns.inner.connected = true;
    let nfd = k.install(FileObject::Socket(ns));
    proof { crate::task::task::lemma_first_free(old(k).cur_task().fd_table@, nfd as int); }
    Accept::Done(nfd as i64)
}

/// Connects the socket under `fd` to the IPv4 address `addr` (another kind of file is left
/// alone): ECONNREFUSED (-111) for an address that is not IPv4, EBADF (-9) when `fd` is not
/// open.
pub fn sys_connect(k: &mut Kernel, fd: usize, addr: &[u8]) -> (r: i64)
    requires old(k).running(),
    ensures
        final(k).running(),
        old(k).fd_obj(fd as int).is_none() ==> r == EBADF && *final(k) == *old(k),
        old(k).fd_obj(fd as int) matches Some(id) ==> {
            &&& spec_parse_sockaddr(addr@).is_none() ==> r == ECONNREFUSED && *final(k) == *old(k)
            &&& spec_parse_sockaddr(addr@) matches Some(pa) ==> r == 0 && match old(k).files@[id as int].obj {
                FileObject::Socket(s0) => {
                    &&& final(k).file_changed(*old(k), id as int) && final(k).ctx == old(k).ctx
                    &&& final(k).files@[id as int].obj matches FileObject::Socket(s1) && s1.inner.connected
                        && (s1.inner.peer_addr matches Some(a) && (a.port, a.ip@) == pa)
                        && s1.inner.recv_buf@ == s0.inner.recv_buf@ && s1.inner.send_buf@ == s0.inner.send_buf@
                        && s1.inner.listening == s0.inner.listening && s1.inner.nonblock == s0.inner.nonblock
                        && s1.inner.handle == s0.inner.handle && s1.inner.local_addr == s0.inner.local_addr
                },
                _ => *final(k) == *old(k),
            }
        },
{
    let id = match k.lookup(fd) {
        Some(id) => id,
        None => return EBADF,
    };
    match parse_sockaddr(addr) {
        Some(sa) => {
            let is_sock = match &k.files[id].obj {
                FileObject::Socket(_) => true,
                _ => false,
            };
            if is_sock {
                match &mut k.files[id].obj {
                    FileObject::Socket(s) => {
                        s.inner.peer_addr = Some(sa);
                        s.inner.connected = true;
                    },
                    _ => {},
                }
                proof { lemma_sock_ok(*old(k), *k, id as int); }
            }
            0
        },
        None => ECONNREFUSED,
    }
}

/// No address is reported: the length to store is 0; EBADF (-9) when `fd` is not open.
pub fn sys_getsockname(k: &Kernel, fd: usize) -> (r: (i64, u32))
    requires k.running(),
    ensures r == (if k.fd_obj(fd as int).is_none() { (EBADF, 0u32) } else { (0i64, 0u32) }),
{
    match k.lookup(fd) {
        Some(_) => (0, 0),
        None => (EBADF, 0),
    }
}

/// As `getsockname`.
pub fn sys_getpeername(k: &Kernel, fd: usize) -> (r: (i64, u32))
    requires k.running(),
    ensures r == (if k.fd_obj(fd as int).is_none() { (EBADF, 0u32) } else { (0i64, 0u32) }),
{
    sys_getsockname(k, fd)
}

/// Sends `buf` as a write of `fd` (the destination is ignored).
pub fn sys_sendto(k: &mut Kernel, fd: usize, buf: &[u8], flags: i32) -> (r: i64)
    requires old(k).running(), buf@.len() <= isize::MAX, crate::syscall::file::write_fits(*old(k), fd as int, buf@.len() as int),
    ensures
        final(k).running(),
        isize::MIN <= r <= isize::MAX,
        old(k).fd_obj(fd as int).is_none() ==> r == EBADF && *final(k) == *old(k),
        old(k).fd_obj(fd as int) matches Some(id) ==> {
            &&& final(k).file_changed(*old(k), id as int)
            &&& write_post(old(k).files@[id as int].obj, final(k).files@[id as int].obj, old(k).ctx, final(k).ctx, buf@, r as isize)
        },
{
    crate::syscall::file::sys_write(k, fd, buf)
}

/// Receives up to `len` bytes as a read of `fd`; the source address length to store is 0.
pub fn sys_recvfrom(k: &mut Kernel, fd: usize, len: usize, flags: i32) -> (r: (i64, Vec<u8>))
    requires old(k).running(), len <= isize::MAX,
    ensures
        final(k).running(),
        isize::MIN <= r.0 <= isize::MAX,
        old(k).fd_obj(fd as int).is_none() ==> r.0 == EBADF && r.1@.len() == 0 && *final(k) == *old(k),
        old(k).fd_obj(fd as int) matches Some(id) ==> {
            &&& final(k).file_changed(*old(k), id as int)
            &&& read_post(old(k).files@[id as int].obj, final(k).files@[id as int].obj, old(k).ctx, final(k).ctx, len, (r.0 as isize, r.1@))
        },
{
    crate::syscall::file::sys_read(k, fd, len)
}

/// SO_REUSEADDR (level 1, option 2) and TCP_NODELAY (level 6, option 1) are switched on
/// for a socket; everything else is accepted and ignored. EBADF (-9) when `fd` is not open.
pub fn sys_setsockopt(k: &mut Kernel, fd: usize, level: i32, optname: i32) -> (r: i64)
    requires old(k).running(),
    ensures
        final(k).running(),
        old(k).fd_obj(fd as int).is_none() ==> r == EBADF && *final(k) == *old(k),
        old(k).fd_obj(fd as int) matches Some(id) ==> r == 0 && match old(k).files@[id as int].obj {
            FileObject::Socket(s0) => {
                if level == 1 && optname == 2 {
                    final(k).file_changed(*old(k), id as int) && final(k).ctx == old(k).ctx
                        && (final(k).files@[id as int].obj matches FileObject::Socket(s1)
                            && s1.inner == (SocketInner { reuse_addr: true, ..s0.inner }))
                } else if level == 6 && optname == 1 {
                    final(k).file_changed(*old(k), id as int) && final(k).ctx == old(k).ctx
                        && (final(k).files@[id as int].obj matches FileObject::Socket(s1)
                            && s1.inner == (SocketInner { tcp_nodelay: true, ..s0.inner }))
                } else {
                    *final(k) == *old(k)
                }
            },
            _ => *final(k) == *old(k),
        },
{
    let id = match k.lookup(fd) {
        Some(id) => id,
        None => return EBADF,
    };
    let is_sock = match &k.files[id].obj {
        FileObject::Socket(_) => true,
        _ => false,
    };
    if is_sock && ((level == 1 && optname == 2) || (level == 6 && optname == 1)) {
        match &mut k.files[id].obj {
            FileObject::Socket(s) => {
                if level == 1 {
                    s.inner.reuse_addr = true;
                } else {
                    s.inner.tcp_nodelay = true;
                }
            },
            _ => {},
        }
        proof { lemma_sock_ok(*old(k), *k, id as int); }
    }
    0
}

/// Every option reads as 0: the int and the length (4) to store when both pointers are given.
pub fn sys_getsockopt(fd: usize, level: i32, optname: i32, optval: usize, optlen: usize) -> (r: (i64, Option<(i32, u32)>))
    ensures r.0 == 0, r.1 == (if optval != 0 && optlen != 0 { Some((0i32, 4u32)) } else { None }),
{
    if optval != 0 && optlen != 0 {
        (0, Some((0, 4)))
    } else {
        (0, None)
    }
}

/// Accepted and ignored.
pub fn sys_shutdown(fd: usize, how: i32) -> (r: i64)
    ensures r == 0,
{
    0
}

/// Sending the buffers `iovs` one after the other from `k0`: `ks` are the kernels between
/// the sends (the first is `k0`), `rs` what each send gave.
pub open spec fn sendmsg_trace(k0: Kernel, fd: int, iovs: Seq<Seq<u8>>, ks: Seq<Kernel>, rs: Seq<i64>) -> bool {
    &&& ks.len() == iovs.len() + 1 && rs.len() == iovs.len() && ks[0] == k0
    &&& forall|j: int| 0 <= j < rs.len() ==> #[trigger] write_step(ks[j], ks[j + 1], fd, iovs[j], rs[j])
}

/// Sends each buffer of `iovs` in turn (as `sendto`, see `sendmsg_trace`); the sum of what
/// each send returned.
pub fn sys_sendmsg(k: &mut Kernel, fd: usize, iovs: &Vec<Vec<u8>>, flags: i32) -> (r: i64)
    requires
        old(k).running(),
        iovs@.len() <= 1024,
        forall|i: int| 0 <= i < iovs@.len() ==> (#[trigger] iovs@[i])@.len() <= 0x1000_0000,
        old(k).fd_obj(fd as int) matches Some(id) ==> !(old(k).files@[id as int].obj matches FileObject::Tmp(_)),
    ensures
        final(k).running(),
        old(k).fd_obj(fd as int).is_none() ==> r == EBADF * iovs@.len() && *final(k) == *old(k),
        exists|ks: Seq<Kernel>, rs: Seq<i64>| sendmsg_trace(*old(k), fd as int, vec_bytes(iovs@), ks, rs)
            && ks.last() == *final(k) && r == sum_written(rs),
{
    let ghost bs = vec_bytes(iovs@);
    let mut total: i64 = 0;
    let mut i: usize = 0;
    let ghost mut ks: Seq<Kernel> = seq![*k];
    let ghost mut rs: Seq<i64> = Seq::empty();
    while i < iovs.len()
        invariant
            i <= iovs@.len(),
            iovs@.len() <= 1024,
            forall|j: int| 0 <= j < iovs@.len() ==> (#[trigger] iovs@[j])@.len() <= 0x1000_0000,
            k.running(),
            k.fd_obj(fd as int) == old(k).fd_obj(fd as int),
            k.fd_obj(fd as int) matches Some(id) ==> !(k.files@[id as int].obj matches FileObject::Tmp(_)),
            old(k).fd_obj(fd as int).is_none() ==> *k == *old(k) && total == EBADF * i,
            -111 * i <= total <= 0x1000_0000 * i,
            bs == vec_bytes(iovs@),
            rs.len() == i, ks.len() == i + 1, ks[0] == *old(k), ks[i as int] == *k,
            forall|j: int| 0 <= j < i ==> #[trigger] write_step(ks[j], ks[j + 1], fd as int, bs[j], rs[j]),
            total == sum_written(rs),
        decreases iovs@.len() - i,
    {
        let ghost before = *k;
        let ghost rs0 = rs;
        let n = sys_sendto(k, fd, iovs[i].as_slice(), flags);
        proof {
            if let Some(id) = before.fd_obj(fd as int) {
                lemma_write_bound(before.files@[id as int].obj, k.files@[id as int].obj, before.ctx, k.ctx, iovs@[i as int]@, n as isize);
            }
            ks = ks.push(*k);
            rs = rs.push(n);
            assert(bs[i as int] == iovs@[i as int]@);
            assert(write_step(ks[i as int], ks[i + 1], fd as int, bs[i as int], rs[i as int]));
            assert(rs.drop_last() == rs0);
        }
        total = total + n;
        i = i + 1;
    }
    proof { assert(sendmsg_trace(*old(k), fd as int, bs, ks, rs)); }
    total
}

proof fn lemma_write_bound(o0: FileObject, o1: FileObject, c0: crate::fs::file::FileCtx, c1: crate::fs::file::FileCtx, buf: Seq<u8>, r: isize)
    requires write_post(o0, o1, c0, c1, buf, r), !(o0 matches FileObject::Tmp(_)),
    ensures -111 <= r <= buf.len(), !(o1 matches FileObject::Tmp(_)),
{
}

/// Receiving into buffers of the lengths `lens` one after the other from `k0`: `ks` are
/// the kernels between the receives (the first is `k0`), `rs` what each gave; every
/// receive but the last succeeded and filled its buffer, and the receiving stopped before
/// the end only at a failure or a short receive.
pub open spec fn recvmsg_trace(k0: Kernel, fd: int, lens: Seq<usize>, ks: Seq<Kernel>, rs: Seq<(i64, Seq<u8>)>) -> bool {
    &&& ks.len() == rs.len() + 1 && ks[0] == k0 && rs.len() <= lens.len()
    &&& forall|j: int| 0 <= j < rs.len() ==> #[trigger] read_step(ks[j], ks[j + 1], fd, lens[j], rs[j])
    &&& forall|j: int| 0 <= j < rs.len() - 1 ==> (#[trigger] rs[j]).0 == lens[j]
    &&& rs.len() < lens.len() ==> rs.len() > 0 && (rs.last().0 < 0 || rs.last().0 < lens[rs.len() - 1])
}

/// Receives into buffers of the lengths `lens` in turn (as `recvfrom`, see
/// `recvmsg_trace`), stopping at an error (which is the result) or a short read; the byte
/// count and the bytes of each buffer, up to a failing receive.
pub fn sys_recvmsg(k: &mut Kernel, fd: usize, lens: &Vec<usize>, flags: i32) -> (r: (i64, Vec<Vec<u8>>))
    requires
        old(k).running(),
        lens@.len() <= 1024,
        forall|i: int| 0 <= i < lens@.len() ==> #[trigger] lens@[i] <= 0x1000_0000,
    ensures
        final(k).running(),
        old(k).fd_obj(fd as int).is_none() && lens@.len() > 0 ==> r.0 == EBADF && *final(k) == *old(k),
        lens@.len() == 0 ==> r.0 == 0 && *final(k) == *old(k),
        exists|ks: Seq<Kernel>, rs: Seq<(i64, Seq<u8>)>| recvmsg_trace(*old(k), fd as int, lens@, ks, rs)
            && ks.last() == *final(k) && readv_result(rs) == (r.0, vec_bytes(r.1@)),
{
    let mut total: i64 = 0;
    let mut out: Vec<Vec<u8>> = Vec::new();
    let mut i: usize = 0;
    let ghost mut ks: Seq<Kernel> = seq![*k];
    let ghost mut rs: Seq<(i64, Seq<u8>)> = Seq::empty();
    while i < lens.len()
        invariant
            i <= lens@.len(),
            lens@.len() <= 1024,
            forall|j: int| 0 <= j < lens@.len() ==> #[trigger] lens@[j] <= 0x1000_0000,
            k.running(),
            old(k).fd_obj(fd as int).is_none() ==> *k == *old(k) && i == 0,
            0 <= total <= 0x1000_0000 * i,
            i == 0 ==> *k == *old(k) && total == 0,
            rs.len() == i, ks.len() == i + 1, ks[0] == *old(k), ks[i as int] == *k,
            forall|j: int| 0 <= j < i ==> #[trigger] read_step(ks[j], ks[j + 1], fd as int, lens@[j], rs[j]),
            forall|j: int| 0 <= j < i ==> (#[trigger] rs[j]).0 == lens@[j],
            total == sum_counts(rs),
            vec_bytes(out@) == piece_bytes(rs),
        decreases lens@.len() - i,
    {
        let ghost before = *k;
        let ghost rs0 = rs;
        let (n, data) = sys_recvfrom(k, fd, lens[i], flags);
        proof {
            ks = ks.push(*k);
            rs = rs.push((n, data@));
            assert(read_step(ks[i as int], ks[i + 1], fd as int, lens@[i as int], rs[i as int]));
            assert(rs.drop_last() == rs0);
        }
        if n < 0 {
            proof { assert(recvmsg_trace(*old(k), fd as int, lens@, ks, rs)); }
            return (n, out);
        }
        let short = (n as usize) < lens[i];
        proof {
            if let Some(id) = before.fd_obj(fd as int) {
                crate::syscall::file::lemma_read_len(before.files@[id as int].obj, k.files@[id as int].obj, before.ctx, k.ctx, lens@[i as int], (n as isize, data@));
            }
        }
        let ghost o0 = out@;
        proof { crate::syscall::file::lemma_bytes_push(o0, rs0, data, (n, data@)); }
        out.push(data);
        total = total + n;
        if short {
            proof { assert(recvmsg_trace(*old(k), fd as int, lens@, ks, rs)); }
            return (total, out);
        }
        i = i + 1;
    }
    proof { assert(recvmsg_trace(*old(k), fd as int, lens@, ks, rs)); }
    (total, out)
}

/// A connected pair is a pipe: its read end and then its write end take the two lowest
/// free descriptors, as `pipe2` gives them; the result and the two descriptors.
pub fn sys_socketpair(k: &mut Kernel, domain: i32, sock_type: i32, protocol: i32) -> (r: (i64, i32, i32))
    requires old(k).running(), old(k).fd_room(2), old(k).cur_task().fd_table@.len() + 2 <= i32::MAX,
    ensures
        final(k).running(),
        r.0 == 0,
        final(k).ctx.pipes@.len() == old(k).ctx.pipes@.len() + 1,
        final(k).files@.len() == old(k).files@.len() + 2,
        final(k).files@[old(k).files@.len() as int] == (OpenFile { obj: FileObject::Pipe(crate::fs::pipe::Pipe { inner: old(k).ctx.pipes@.len() as usize, is_read_end: true }), refs: 1 }),
        final(k).files@[old(k).files@.len() + 1int] == (OpenFile { obj: FileObject::Pipe(crate::fs::pipe::Pipe { inner: old(k).ctx.pipes@.len() as usize, is_read_end: false }), refs: 1 }),
        final(k).cur_task().fd_table@[r.1 as int] == Some(old(k).files@.len() as usize),
        final(k).cur_task().fd_table@[r.2 as int] == Some((old(k).files@.len() + 1) as usize),
        r.1 as int == first_free(old(k).cur_task().fd_table@),
        r.2 as int == first_free(crate::syscall::file::table_with(old(k).cur_task().fd_table@, r.1 as int, old(k).files@.len() as usize)),
        0 <= r.1 < r.2,
{
    crate::syscall::file::sys_pipe2(k, 0)
}

} // verus!
