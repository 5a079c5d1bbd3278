//! epoll, select and poll: which open files are ready, over the running task's descriptors.
use vstd::prelude::*;
use super::{Kernel, EpollEntry, EpollInstance};
use super::errno::{EBADF, EINVAL};
use crate::fs::file::{FileObject, can_read_spec, can_write_spec};
use crate::fs::stat::{FileStat, zero_stat};
use crate::fs::tmpfile::{le_bytes, push_le};

verus! {

pub const EPOLLIN: u32 = 1;
pub const EPOLLOUT: u32 = 4;
pub const EPOLL_CTL_ADD: i32 = 1;
pub const EPOLL_CTL_DEL: i32 = 2;
pub const EPOLL_CTL_MOD: i32 = 3;

/// An event as user space passes and receives it: the event bits and the user's tag.
#[derive(Debug, Clone, Copy)]
pub struct EpollEvent {
    pub events: u32,
    pub data: u64,
}

/// The open file that stands for an epoll instance.
#[derive(Debug, Clone, Copy)]
pub struct EpollFd {
    pub id: usize,
}

impl EpollFd {
    /// Reading an epoll file fails.
    pub fn read(&self, len: usize) -> (r: isize)
        ensures r == -1,
    {
        -1
    }

    /// Writing an epoll file fails.
    pub fn write(&self, buf: &[u8]) -> (r: isize)
        ensures r == -1,
    {
        -1
    }

    pub fn stat(&self) -> (st: FileStat)
        ensures st == (FileStat { st_mode: 0o100600u32, ..zero_stat() }),
    {
        FileStat::with_mode(0o100600u32)
    }

    pub fn is_readable(&self) -> (r: bool)
        ensures !r,
    {
        false
    }

    pub fn is_writable(&self) -> (r: bool)
        ensures !r,
    {
        false
    }

    pub fn epoll_id(&self) -> (r: Option<usize>)
        ensures r == Some(self.id),
    {
        Some(self.id)
    }
}

/// `i` is the place of the instance `id` in `s`: the first instance with that id, or the
/// end when there is none.
pub open spec fn instance_at(s: Seq<EpollInstance>, id: usize, i: int) -> bool {
    &&& 0 <= i <= s.len()
    &&& forall|j: int| 0 <= j < i ==> #[trigger] s[j].id != id
    &&& i < s.len() ==> s[i].id == id
}

/// The place of the instance `id` in `s` (`s.len()` when there is none).
pub open spec fn instance_pos(s: Seq<EpollInstance>, id: usize) -> int {
    choose|i: int| instance_at(s, id, i)
}

pub proof fn lemma_instance_pos(s: Seq<EpollInstance>, id: usize, i: int)
    requires instance_at(s, id, i),
    ensures instance_pos(s, id) == i,
{
    let c = instance_pos(s, id);
    assert(instance_at(s, id, c));
    if c < i {
        assert(s[c].id != id);
    } else if c > i {
        assert(s[i].id != id);
    }
}

/// Every table has a place for every id.
pub proof fn lemma_instance_exists(s: Seq<EpollInstance>, id: usize) -> (i: int)
    ensures instance_at(s, id, i), instance_pos(s, id) == i,
    decreases s.len(),
{
    if s.len() == 0 {
        lemma_instance_pos(s, id, 0);
        0
    } else {
        let d = s.drop_last();
        let j = lemma_instance_exists(d, id);
        let i = if j == d.len() && s.last().id != id { s.len() as int } else { j };
        assert(forall|q: int| 0 <= q < d.len() ==> d[q] == s[q]);
        lemma_instance_pos(s, id, i);
        i
    }
}

/// `i` is where the entry for `fd` stands, or would stand, in `s`: after the entries with a
/// smaller descriptor.
pub open spec fn entry_at(s: Seq<EpollEntry>, fd: usize, i: int) -> bool {
    &&& 0 <= i <= s.len()
    &&& forall|j: int| 0 <= j < i ==> #[trigger] s[j].fd < fd
    &&& i < s.len() ==> s[i].fd >= fd
}

pub open spec fn entry_pos(s: Seq<EpollEntry>, fd: usize) -> int {
    choose|i: int| entry_at(s, fd, i)
}

/// `s` has an entry for `fd`.
pub open spec fn has_entry(s: Seq<EpollEntry>, fd: usize) -> bool {
    let i = entry_pos(s, fd);
    i < s.len() && s[i].fd == fd
}

pub proof fn lemma_entry_pos(s: Seq<EpollEntry>, fd: usize, i: int)
    requires entry_at(s, fd, i),
    ensures entry_pos(s, fd) == i,
{
    let c = entry_pos(s, fd);
    assert(entry_at(s, fd, c));
    if c < i {
        assert(s[c].fd < fd);
    } else if c > i {
        assert(s[i].fd < fd);
    }
}

/// Every list has a place for every descriptor.
pub proof fn lemma_entry_exists(s: Seq<EpollEntry>, fd: usize) -> (i: int)
    ensures entry_at(s, fd, i), entry_pos(s, fd) == i,
    decreases s.len(),
{
    if s.len() == 0 {
        lemma_entry_pos(s, fd, 0);
        0
    } else {
        let d = s.drop_last();
        let j = lemma_entry_exists(d, fd);
        let i = if j == d.len() && s.last().fd < fd { s.len() as int } else { j };
        assert(forall|q: int| 0 <= q < d.len() ==> d[q] == s[q]);
        lemma_entry_pos(s, fd, i);
        i
    }
}

/// The entries are ordered by strictly increasing descriptor: one entry per file.
pub open spec fn entries_sorted(s: Seq<EpollEntry>) -> bool {
    forall|i: int, j: int| 0 <= i < j < s.len() ==> #[trigger] s[i].fd < #[trigger] s[j].fd
}

/// Every epoll instance holds at most one entry per descriptor, in order.
pub open spec fn epolls_ok(s: Seq<EpollInstance>) -> bool {
    forall|i: int| 0 <= i < s.len() ==> entries_sorted(#[trigger] s[i].entries@)
}

/// `e` put in place of the entry for its descriptor, or added in order.
pub open spec fn entries_added(s: Seq<EpollEntry>, e: EpollEntry) -> Seq<EpollEntry> {
    let i = entry_pos(s, e.fd);
    if has_entry(s, e.fd) { s.update(i, e) } else { s.insert(i, e) }
}

/// The entry for `fd` taken out.
pub open spec fn entries_removed(s: Seq<EpollEntry>, fd: usize) -> Seq<EpollEntry> {
    if has_entry(s, fd) { s.remove(entry_pos(s, fd)) } else { s }
}

/// The entry for `fd`, if there is one, given the events and tag of `ev`.
pub open spec fn entries_modified(s: Seq<EpollEntry>, fd: usize, ev: EpollEvent) -> Seq<EpollEntry> {
    if has_entry(s, fd) {
        s.update(entry_pos(s, fd), EpollEntry { fd, events: ev.events, data: ev.data })
    } else {
        s
    }
}

/// The entries after `epoll_ctl` with a known operation.
pub open spec fn ctl_entries(s: Seq<EpollEntry>, op: i32, fd: usize, event: Option<EpollEvent>) -> Seq<EpollEntry> {
    if op == EPOLL_CTL_ADD {
        match event {
            Some(ev) => entries_added(s, EpollEntry { fd, events: ev.events, data: ev.data }),
            None => s,
        }
    } else if op == EPOLL_CTL_DEL {
        entries_removed(s, fd)
    } else if op == EPOLL_CTL_MOD {
        match event {
            Some(ev) => entries_modified(s, fd, ev),
            None => s,
        }
    } else {
        s
    }
}

impl Kernel {
    /// Only the epoll instances may differ from `k0`.
    pub open spec fn epolls_changed(&self, k0: Kernel) -> bool {
        &&& self.manager == k0.manager
        &&& self.current == k0.current
        &&& self.files == k0.files
        &&& self.ctx == k0.ctx
        &&& self.next_epoll_id == k0.next_epoll_id
        &&& self.pid_alloc == k0.pid_alloc
        &&& self.rand_seed == k0.rand_seed
        &&& self.ticks == k0.ticks
    }
}

/// `e1` is `e0` with the entries of the instance at `p` replaced by `entries`.
pub open spec fn instance_set(e0: Seq<EpollInstance>, e1: Seq<EpollInstance>, p: int, entries: Seq<EpollEntry>) -> bool {
    &&& e1.len() == e0.len()
    &&& forall|j: int| 0 <= j < e0.len() && j != p ==> #[trigger] e1[j] == e0[j]
    &&& e1[p].id == e0[p].id
    &&& e1[p].entries@ == entries
}

/// The place of instance `id` in the table.
fn find_instance(epolls: &Vec<EpollInstance>, id: usize) -> (r: usize)
    ensures instance_at(epolls@, id, r as int), r == instance_pos(epolls@, id),
{
    let mut i: usize = 0;
    while i < epolls.len()
        invariant
            i <= epolls@.len(),
            forall|j: int| 0 <= j < i ==> #[trigger] epolls@[j].id != id,
        decreases epolls@.len() - i,
    {
        if epolls[i].id == id {
            proof { lemma_instance_pos(epolls@, id, i as int); }
            return i;
        }
        i = i + 1;
    }
    proof { lemma_instance_pos(epolls@, id, i as int); }
    i
}

/// Where the entry for `fd` stands or would stand.
fn find_entry(entries: &Vec<EpollEntry>, fd: usize) -> (r: usize)
    ensures entry_at(entries@, fd, r as int), r == entry_pos(entries@, fd),
{
    let mut i: usize = 0;
    while i < entries.len() && entries[i].fd < fd
        invariant
            i <= entries@.len(),
            forall|j: int| 0 <= j < i ==> #[trigger] entries@[j].fd < fd,
        decreases entries@.len() - i,
    {
        i = i + 1;
    }
    proof { lemma_entry_pos(entries@, fd, i as int); }
    i
}

/// What each operation does to an ordered entry list keeps it ordered.
pub proof fn lemma_ctl_sorted(s: Seq<EpollEntry>, op: i32, fd: usize, event: Option<EpollEvent>)
    requires entries_sorted(s),
    ensures entries_sorted(ctl_entries(s, op, fd, event)),
{
    let i = lemma_entry_exists(s, fd);
    if op == EPOLL_CTL_ADD && event.is_some() {
        let e = EpollEntry { fd, events: event.unwrap().events, data: event.unwrap().data };
        let t = entries_added(s, e);
        if !has_entry(s, fd) {
            assert forall|a: int, b: int| 0 <= a < b < t.len() implies #[trigger] t[a].fd < #[trigger] t[b].fd by {
                if b < i {
                } else if b == i {
                    assert(t[a] == s[a]);
                } else if a < i {
                    assert(s[a].fd < fd);
                    assert(s[i].fd >= fd);
                    assert(s[i].fd <= s[b - 1].fd);
                } else if a == i {
                    assert(s[i].fd != fd);
                    assert(s[i].fd <= s[b - 1].fd);
                } else {
                    assert(s[a - 1].fd < s[b - 1].fd);
                }
            }
        }
    } else if op == EPOLL_CTL_DEL && has_entry(s, fd) {
        let t = entries_removed(s, fd);
        assert forall|a: int, b: int| 0 <= a < b < t.len() implies #[trigger] t[a].fd < #[trigger] t[b].fd by {
            if b < i {
            } else if a < i {
                assert(s[a].fd < s[b + 1].fd);
            } else {
                assert(s[a + 1].fd < s[b + 1].fd);
            }
        }
    }
}

/// Creates an epoll instance with the next id and opens it under the lowest free
/// descriptor; the descriptor.
pub fn sys_epoll_create1(k: &mut Kernel, flags: i32) -> (r: i64)
    requires old(k).running(), old(k).fd_room(1),
    ensures
        final(k).running(),
        ({
            let id = old(k).next_epoll_id;
            let p = instance_pos(old(k).epolls@, id);
            let tbl = old(k).cur_task().fd_table@;
            &&& crate::task::task::is_lowest_free(tbl, r as int)
            &&& final(k).files@ == old(k).files@.push(super::OpenFile { obj: FileObject::Epoll(EpollFd { id }), refs: 1 })
            &&& final(k).ctx == old(k).ctx
            &&& final(k).next_epoll_id == (if id == usize::MAX { 0 } else { id + 1 })
            &&& final(k).cur_task().fd_table@ == (if r < tbl.len() { tbl } else { tbl.push(None) }).update(r as int, Some(old(k).files@.len() as usize))
            &&& p < old(k).epolls@.len() ==> instance_set(old(k).epolls@, final(k).epolls@, p, Seq::empty())
            &&& p == old(k).epolls@.len() ==> {
                &&& final(k).epolls@.len() == p + 1
                &&& forall|j: int| 0 <= j < p ==> #[trigger] final(k).epolls@[j] == old(k).epolls@[j]
                &&& final(k).epolls@[p].id == id
                &&& final(k).epolls@[p].entries@ == Seq::<EpollEntry>::empty()
            }
        }),
        epolls_ok(old(k).epolls@) ==> epolls_ok(final(k).epolls@),
        final(k).current == old(k).current,
        super::tasks_except(old(k).manager.tasks@, final(k).manager.tasks@, old(k).cur()),
        crate::task::task::same_but_fds(old(k).cur_task(), final(k).cur_task()),
{
    let id = k.next_epoll_id;
    k.next_epoll_id = if id == usize::MAX { 0 } else { id + 1 };
    let p = find_instance(&k.epolls, id);
    if p < k.epolls.len() {
        k.epolls[p].entries = Vec::new();
    } else {
        k.epolls.push(EpollInstance { id, entries: Vec::new() });
    }
    let ghost mid = *k;
    proof {
        assert(mid.running());
        if epolls_ok(old(k).epolls@) {
            assert forall|i: int| 0 <= i < mid.epolls@.len() implies entries_sorted(#[trigger] mid.epolls@[i].entries@) by {
                if i != p {
                    assert(mid.epolls@[i] == old(k).epolls@[i]);
                }
            }
        }
    }
    let fd = k.install(FileObject::Epoll(EpollFd { id }));
    proof {
        crate::task::task::lemma_first_free(old(k).cur_task().fd_table@, fd as int);
    }
    fd as i64
}

/// Changes the watch list of the epoll instance behind `epfd`: add (or replace) the entry
/// for `fd`, delete it, or change its events and tag. `event` is what user space passed, if
/// it passed one.
pub fn sys_epoll_ctl(k: &mut Kernel, epfd: usize, op: i32, fd: usize, event: Option<EpollEvent>) -> (r: i64)
    requires old(k).running(),
    ensures
        final(k).running(),
        old(k).fd_obj(epfd as int).is_none() ==> r == EBADF && *final(k) == *old(k),
        old(k).fd_obj(epfd as int) matches Some(id) ==> {
            let o = old(k).files@[id as int].obj;
            &&& !(o is Epoll) ==> r == EINVAL && *final(k) == *old(k)
            &&& o is Epoll ==> {
                let p = instance_pos(old(k).epolls@, o->Epoll_0.id);
                &&& p == old(k).epolls@.len() ==> r == 0 && *final(k) == *old(k)
                &&& p < old(k).epolls@.len() && !(1 <= op <= 3) ==> r == EINVAL && *final(k) == *old(k)
                &&& p < old(k).epolls@.len() && 1 <= op <= 3 ==> {
                    &&& r == 0
                    &&& final(k).epolls_changed(*old(k))
                    &&& instance_set(old(k).epolls@, final(k).epolls@, p,
                            ctl_entries(old(k).epolls@[p].entries@, op, fd, event))
                }
            }
        },
        epolls_ok(old(k).epolls@) ==> epolls_ok(final(k).epolls@),
{
    let id = match k.lookup(epfd) {
        Some(id) => id,
        None => return EBADF,
    };
    let eid = match k.files[id].obj.epoll_id() {
        Some(e) => e,
        None => return EINVAL,
    };
    let p = find_instance(&k.epolls, eid);
    if p == k.epolls.len() {
        return 0;
    }
    if op < 1 || op > 3 {
        return EINVAL;
    }
    let i = find_entry(&k.epolls[p].entries, fd);
    let ghost s = old(k).epolls@[p as int].entries@;
    let found = i < k.epolls[p].entries.len() && k.epolls[p].entries[i].fd == fd;
    if op == EPOLL_CTL_ADD {
        if let Some(ev) = event {
            let e = EpollEntry { fd, events: ev.events, data: ev.data };
            if found {
                k.epolls[p].entries.set(i, e);
            } else {
                k.epolls[p].entries.insert(i, e);
            }
        }
    } else if op == EPOLL_CTL_DEL {
        if found {
            k.epolls[p].entries.remove(i);
        }
    } else {
        if let Some(ev) = event {
            if found {
                k.epolls[p].entries.set(i, EpollEntry { fd, events: ev.events, data: ev.data });
            }
        }
    }
    proof {
        assert(k.epolls@[p as int].entries@ =~= ctl_entries(s, op, fd, event));
        if epolls_ok(old(k).epolls@) {
            lemma_ctl_sorted(s, op, fd, event);
            assert forall|j: int| 0 <= j < k.epolls@.len() implies entries_sorted(#[trigger] k.epolls@[j].entries@) by {
                if j != p {
                    assert(k.epolls@[j] == old(k).epolls@[j]);
                }
            }
        }
    }
    0
}

/// The events an entry reports now: `EPOLLIN` if it asks for it and its file (a descriptor
/// of the running task) can be read, `EPOLLOUT` likewise for writing; 0 when the
/// descriptor is closed.
pub open spec fn entry_ready(k: Kernel, e: EpollEntry) -> u32 {
    match k.fd_obj(e.fd as int) {
        Some(id) => {
            let o = k.files@[id as int].obj;
            let r: u32 = if e.events & EPOLLIN != 0 && can_read_spec(o, k.ctx.pipes@) { EPOLLIN } else { 0 };
            if e.events & EPOLLOUT != 0 && can_write_spec(o, k.ctx.pipes@) { (r + EPOLLOUT) as u32 } else { r }
        },
        None => 0,
    }
}

/// The ready events of the entries `s`, in their order: one per entry that reports any.
pub open spec fn ready_events(k: Kernel, s: Seq<EpollEntry>) -> Seq<EpollEvent>
    decreases s.len(),
{
    if s.len() == 0 {
        Seq::empty()
    } else {
        let r = ready_events(k, s.drop_last());
        let e = s.last();
        if entry_ready(k, e) != 0 { r.push(EpollEvent { events: entry_ready(k, e), data: e.data }) } else { r }
    }
}

proof fn lemma_ready_len(k: Kernel, s: Seq<EpollEntry>)
    ensures ready_events(k, s).len() <= s.len(),
    decreases s.len(),
{
    if s.len() > 0 {
        lemma_ready_len(k, s.drop_last());
    }
}

/// No epoll instance holds more entries than a vector of events can.
pub open spec fn epolls_small(k: Kernel) -> bool {
    forall|i: int| 0 <= i < k.epolls@.len() ==> (#[trigger] k.epolls@[i]).entries@.len() <= isize::MAX
}

/// The ready events of instance `id` (none when there is no such instance).
pub open spec fn instance_ready(k: Kernel, id: usize) -> Seq<EpollEvent> {
    let p = instance_pos(k.epolls@, id);
    if p < k.epolls@.len() { ready_events(k, k.epolls@[p].entries@) } else { Seq::empty() }
}

/// One scan of the entries of instance `id`.
pub fn epoll_ready(k: &Kernel, id: usize) -> (r: Vec<EpollEvent>)
    requires k.running(),
    ensures r@ == instance_ready(*k, id),
{
    let mut out: Vec<EpollEvent> = Vec::new();
    let p = find_instance(&k.epolls, id);
    if p == k.epolls.len() {
        return out;
    }
    let entries = &k.epolls[p].entries;
    let mut i: usize = 0;
    while i < entries.len()
        invariant
            k.running(),
            p < k.epolls@.len(),
            *entries == k.epolls@[p as int].entries,
            i <= entries@.len(),
            out@ == ready_events(*k, entries@.take(i as int)),
        decreases entries@.len() - i,
    {
        let e = entries[i];
        let mut ready: u32 = 0;
        match k.lookup(e.fd) {
            Some(fid) => {
                proof { assert(k.files_ok()); let _ = k.files@[fid as int]; }
                if e.events & EPOLLIN != 0 && k.files[fid].obj.can_read(&k.ctx) {
                    ready = EPOLLIN;
                }
                if e.events & EPOLLOUT != 0 && k.files[fid].obj.can_write(&k.ctx) {
                    ready = ready + EPOLLOUT;
                }
            },
            None => {},
        }
        proof {
            assert(ready == entry_ready(*k, e));
            assert(entries@.take(i as int + 1).drop_last() =~= entries@.take(i as int));
        }
        if ready != 0 {
            out.push(EpollEvent { events: ready, data: e.data });
        }
        i = i + 1;
    }
    proof { assert(entries@.take(i as int) =~= entries@); }
    out
}

/// An event as user space reads it: the event bits, then the tag, little-endian, 12 bytes.
pub open spec fn event_bytes(e: EpollEvent) -> Seq<u8> {
    le_bytes(e.events as int, 4) + le_bytes(e.data as int, 8)
}

pub open spec fn events_bytes(s: Seq<EpollEvent>) -> Seq<u8>
    decreases s.len(),
{
    if s.len() == 0 { Seq::empty() } else { events_bytes(s.drop_last()) + event_bytes(s.last()) }
}

/// How many of `n` ready events a call with room for `maxevents` reports (a negative
/// `maxevents` bounds nothing).
pub open spec fn reported(n: int, maxevents: i32) -> int {
    if maxevents < 0 || n <= maxevents { n } else { maxevents as int }
}

/// The result of an `epoll_pwait` that found `evs`: how many it reports and their bytes.
pub fn epoll_result(evs: &Vec<EpollEvent>, maxevents: i32) -> (r: (i64, Vec<u8>))
    requires evs@.len() <= isize::MAX,
    ensures
        r.0 == reported(evs@.len() as int, maxevents),
        r.1@ == events_bytes(evs@.take(r.0 as int)),
{
    let n: usize = if maxevents < 0 || evs.len() <= maxevents as usize { evs.len() } else { maxevents as usize };
    let mut out: Vec<u8> = Vec::new();
    let mut i: usize = 0;
    while i < n
        invariant
            n <= evs@.len(),
            i <= n,
            out@ == events_bytes(evs@.take(i as int)),
        decreases n - i,
    {
        push_le(&mut out, evs[i].events as u64, 4);
        push_le(&mut out, evs[i].data, 8);
        proof {
            assert(evs@.take(i as int + 1).drop_last() =~= evs@.take(i as int));
            assert(out@ =~= events_bytes(evs@.take(i as int)) + event_bytes(evs@[i as int]));
        }
        i = i + 1;
    }
    (n as i64, out)
}

/// What `epoll_pwait` does next: report a result (its value and the event bytes for user
/// space), or wait up to the given milliseconds for instance `id`, scanning it again.
pub enum EpollWait {
    Done(i64, Vec<u8>),
    Wait(usize, u64),
}

/// How long one `epoll_pwait` with `timeout` waits at most, in milliseconds.
pub open spec fn wait_ms(timeout: i32) -> u64 {
    if timeout < 0 { 100 } else if timeout < 100 { timeout as u64 } else { 100 }
}

/// The first scan of `epoll_pwait`: EBADF unless `epfd` is an epoll file; with ready events,
/// the result; with none, 0 for a zero timeout, else a wait.
pub fn sys_epoll_pwait(k: &Kernel, epfd: usize, maxevents: i32, timeout: i32) -> (r: EpollWait)
    requires k.running(), epolls_small(*k),
    ensures
        (match k.fd_obj(epfd as int) {
            Some(id) => k.files@[id as int].obj is Epoll,
            None => false,
        }) ==> {
            let id = k.files@[k.fd_obj(epfd as int).unwrap() as int].obj->Epoll_0.id;
            let evs = instance_ready(*k, id);
            &&& evs.len() == 0 && timeout == 0 ==> (r is Done && r->Done_0 == 0 && r->Done_1@.len() == 0)
            &&& evs.len() == 0 && timeout != 0 ==> (r is Wait && r->Wait_0 == id && r->Wait_1 == wait_ms(timeout))
            &&& evs.len() > 0 ==> (r is Done && r->Done_0 == reported(evs.len() as int, maxevents)
                && r->Done_1@ == events_bytes(evs.take(r->Done_0 as int)))
        },
        !(match k.fd_obj(epfd as int) {
            Some(id) => k.files@[id as int].obj is Epoll,
            None => false,
        }) ==> (r is Done && r->Done_0 == EBADF && r->Done_1@.len() == 0),
{
    let eid = match k.lookup(epfd) {
        Some(fid) => match k.files[fid].obj.epoll_id() {
            Some(e) => e,
            None => return EpollWait::Done(EBADF, Vec::new()),
        },
        None => return EpollWait::Done(EBADF, Vec::new()),
    };
    let evs = epoll_ready(k, eid);
    if evs.len() == 0 {
        if timeout == 0 {
            return EpollWait::Done(0, Vec::new());
        }
        let ms: u64 = if timeout < 0 { 100 } else if timeout < 100 { timeout as u64 } else { 100 };
        return EpollWait::Wait(eid, ms);
    }
    proof {
        let p = lemma_instance_exists(k.epolls@, eid);
        if p < k.epolls@.len() {
            assert(k.epolls@[p].entries@.len() <= isize::MAX);
            lemma_ready_len(*k, k.epolls@[p].entries@);
        }
    }
    let (n, b) = epoll_result(&evs, maxevents);
    EpollWait::Done(n, b)
}

/// Bit `fd` of a descriptor set: bit `fd % 8` of byte `fd / 8`.
pub open spec fn fd_bit(s: Seq<u8>, fd: int) -> bool {
    (s[fd / 8] >> ((fd % 8) as u8)) & 1u8 == 1u8
}

/// Descriptor `fd` of the running task is open and can be read right away.
pub open spec fn fd_readable(k: Kernel, fd: int) -> bool {
    match k.fd_obj(fd) {
        Some(id) => can_read_spec(k.files@[id as int].obj, k.ctx.pipes@),
        None => false,
    }
}

/// Descriptor `fd` of the running task is open and can be written right away.
pub open spec fn fd_writable(k: Kernel, fd: int) -> bool {
    match k.fd_obj(fd) {
        Some(id) => can_write_spec(k.files@[id as int].obj, k.ctx.pipes@),
        None => false,
    }
}

/// How many of the first `n` descriptors are asked for and ready, counting reading and
/// writing apart.
pub open spec fn select_count(k: Kernel, rs: Seq<u8>, ws: Seq<u8>, n: int) -> int
    decreases n,
{
    if n <= 0 {
        0
    } else {
        select_count(k, rs, ws, n - 1)
            + (if fd_bit(rs, n - 1) && fd_readable(k, n - 1) { 1int } else { 0 })
            + (if fd_bit(ws, n - 1) && fd_writable(k, n - 1) { 1int } else { 0 })
    }
}

proof fn lemma_set_bit(b: u8, k: u8, j: u8)
    by (bit_vector)
    requires k < 8, j < 8,
    ensures ((b | (1u8 << k)) >> j) & 1u8 == (if j == k { 1u8 } else { (b >> j) & 1u8 }),
{
}

proof fn lemma_test_bit(b: u8, k: u8)
    by (bit_vector)
    requires k < 8,
    ensures (b & (1u8 << k) != 0u8) == ((b >> k) & 1u8 == 1u8),
{
}

proof fn lemma_zero_bit(j: u8)
    by (bit_vector)
    requires j < 8,
    ensures (0u8 >> j) & 1u8 == 0u8,
{
}

/// 128 zero bytes: an empty descriptor set.
fn empty_set() -> (r: Vec<u8>)
    ensures r@.len() == 128, forall|fd: int| 0 <= fd < 1024 ==> !fd_bit(r@, fd),
{
    let mut r: Vec<u8> = Vec::new();
    while r.len() < 128
        invariant r@.len() <= 128, forall|j: int| 0 <= j < r@.len() ==> r@[j] == 0,
        decreases 128 - r@.len(),
    {
        r.push(0);
    }
    proof {
        assert forall|fd: int| 0 <= fd < 1024 implies !fd_bit(r@, fd) by {
            lemma_zero_bit((fd % 8) as u8);
        }
    }
    r
}

/// Sets bit `fd` of a descriptor set.
fn set_bit(s: &mut Vec<u8>, fd: usize)
    requires old(s)@.len() == 128, fd < 1024,
    ensures
        final(s)@.len() == 128,
        forall|g: int| 0 <= g < 1024 ==> #[trigger] fd_bit(final(s)@, g) == (g == fd || fd_bit(old(s)@, g)),
{
    let byte = fd / 8;
    let bit = (fd % 8) as u8;
    let b = s[byte];
    s.set(byte, b | (1u8 << bit));
    proof {
        assert forall|g: int| 0 <= g < 1024 implies fd_bit(s@, g) == (g == fd || fd_bit(old(s)@, g)) by {
            lemma_set_bit(b, bit, (g % 8) as u8);
            if g / 8 == byte as int && g != fd {
                assert(g % 8 != fd as int % 8);
            }
        }
    }
}

/// `select` over the first `nfds` descriptors: the read and write sets as given (128 bytes
/// each, zero for a set not given), and the result: how many asked-for readiness conditions
/// hold, and the sets of the descriptors for which they hold.
pub fn sys_pselect6(k: &Kernel, nfds: i32, readfds: &Vec<u8>, writefds: &Vec<u8>) -> (r: (i64, Vec<u8>, Vec<u8>))
    requires
        k.running(),
        0 <= nfds <= 1024,
        readfds@.len() == 128,
        writefds@.len() == 128,
    ensures
        r.0 == select_count(*k, readfds@, writefds@, nfds as int),
        r.1@.len() == 128,
        r.2@.len() == 128,
        forall|fd: int| 0 <= fd < 1024 ==>
            #[trigger] fd_bit(r.1@, fd) == (fd < nfds && fd_bit(readfds@, fd) && fd_readable(*k, fd)),
        forall|fd: int| 0 <= fd < 1024 ==>
            #[trigger] fd_bit(r.2@, fd) == (fd < nfds && fd_bit(writefds@, fd) && fd_writable(*k, fd)),
{
    let mut ready_read = empty_set();
    let mut ready_write = empty_set();
    let mut count: i64 = 0;
    let n = nfds as usize;
    let mut fd: usize = 0;
    while fd < n
        invariant
            k.running(),
            n == nfds, n <= 1024, fd <= n,
            readfds@.len() == 128, writefds@.len() == 128,
            ready_read@.len() == 128, ready_write@.len() == 128,
            0 <= count <= 2 * fd,
            count == select_count(*k, readfds@, writefds@, fd as int),
            forall|g: int| 0 <= g < 1024 ==>
                #[trigger] fd_bit(ready_read@, g) == (g < fd && fd_bit(readfds@, g) && fd_readable(*k, g)),
            forall|g: int| 0 <= g < 1024 ==>
                #[trigger] fd_bit(ready_write@, g) == (g < fd && fd_bit(writefds@, g) && fd_writable(*k, g)),
        decreases n - fd,
    {
        let byte = fd / 8;
        let bit = (fd % 8) as u8;
        proof {
            lemma_test_bit(readfds@[byte as int], bit);
            lemma_test_bit(writefds@[byte as int], bit);
        }
        let file = k.lookup(fd);
        proof {
            if let Some(id) = file {
                assert(k.files_ok());
                let _ = k.files@[id as int];
            }
        }
        let can_r = match file {
            Some(id) => readfds[byte] & (1u8 << bit) != 0 && k.files[id].obj.can_read(&k.ctx),
            None => false,
        };
        let can_w = match file {
            Some(id) => writefds[byte] & (1u8 << bit) != 0 && k.files[id].obj.can_write(&k.ctx),
            None => false,
        };
        assert(can_r == (fd_bit(readfds@, fd as int) && fd_readable(*k, fd as int)));
        assert(can_w == (fd_bit(writefds@, fd as int) && fd_writable(*k, fd as int)));
        if can_r {
            set_bit(&mut ready_read, fd);
            count = count + 1;
        }
        if can_w {
            set_bit(&mut ready_write, fd);
            count = count + 1;
        }
        fd = fd + 1;
    }
    (count, ready_read, ready_write)
}

/// The descriptor of poll record `i` (a little-endian `i32` at its start), when it is not
/// negative.
pub open spec fn poll_fd(b: Seq<u8>, i: int) -> Option<int> {
    let base = 8 * i;
    if b[base + 3] < 128 {
        Some(b[base] as int + 256 * b[base + 1] + 65536 * b[base + 2] + 16777216 * b[base + 3])
    } else {
        None
    }
}

/// The `revents` of poll record `i`: `POLLIN` (1) if it asks for it and its descriptor can
/// be read, `POLLOUT` (4) likewise for writing; 0 for a negative or closed descriptor.
pub open spec fn poll_revents(k: Kernel, b: Seq<u8>, i: int) -> u8 {
    let ev = b[8 * i + 4];
    match poll_fd(b, i) {
        Some(fd) => match k.fd_obj(fd) {
            Some(id) => {
                let o = k.files@[id as int].obj;
                let r: u8 = if ev & 1u8 != 0 && can_read_spec(o, k.ctx.pipes@) { 1 } else { 0 };
                if ev & 4u8 != 0 && can_write_spec(o, k.ctx.pipes@) { (r + 4) as u8 } else { r }
            },
            None => 0,
        },
        None => 0,
    }
}

/// How many of the first `n` poll records report something.
pub open spec fn poll_count(k: Kernel, b: Seq<u8>, n: int) -> int
    decreases n,
{
    if n <= 0 { 0 } else { poll_count(k, b, n - 1) + (if poll_revents(k, b, n - 1) != 0 { 1int } else { 0 }) }
}

/// `poll` over `nfds` records of 8 bytes (descriptor, asked events, returned events): fills
/// in each record's returned events (little-endian `i16`) and gives how many are not zero.
pub fn sys_ppoll(k: &Kernel, fds: &mut Vec<u8>, nfds: usize) -> (r: i64)
    requires k.running(), old(fds)@.len() == 8 * nfds,
    ensures
        final(fds)@.len() == old(fds)@.len(),
        r == poll_count(*k, old(fds)@, nfds as int),
        forall|i: int| 0 <= i < nfds ==> {
            &&& #[trigger] final(fds)@[8 * i + 6] == poll_revents(*k, old(fds)@, i)
            &&& final(fds)@[8 * i + 7] == 0
        },
        forall|j: int| 0 <= j < old(fds)@.len() && j % 8 < 6 ==> #[trigger] final(fds)@[j] == old(fds)@[j],
{
    let ghost b0 = fds@;
    let _len = fds.len();
    assert(8 * nfds <= usize::MAX);
    let mut count: i64 = 0;
    let mut i: usize = 0;
    while i < nfds
        invariant
            k.running(),
            b0.len() == 8 * nfds,
            8 * nfds <= usize::MAX,
            fds@.len() == b0.len(),
            i <= nfds,
            0 <= count <= i,
            count == poll_count(*k, b0, i as int),
            forall|q: int| 0 <= q < i ==> {
                &&& #[trigger] fds@[8 * q + 6] == poll_revents(*k, b0, q)
                &&& fds@[8 * q + 7] == 0
            },
            forall|j: int| 0 <= j < b0.len() && (j % 8 < 6 || j >= 8 * i) ==> #[trigger] fds@[j] == b0[j],
        decreases nfds - i,
    {
        let base = 8 * i;
        let lo = fds[base] as u32 + 256 * fds[base + 1] as u32 + 65536 * fds[base + 2] as u32;
        let hi = fds[base + 3];
        let ev = fds[base + 4];
        let mut revents: u8 = 0;
        if hi < 128 {
            let fd = (lo + 16777216 * hi as u32) as usize;
            match k.lookup(fd) {
                Some(id) => {
                    proof { assert(k.files_ok()); let _ = k.files@[id as int]; }
                    let f = &k.files[id].obj;
                    if ev & 1 != 0 && f.can_read(&k.ctx) {
                        revents = 1;
                    }
                    if ev & 4 != 0 && f.can_write(&k.ctx) {
                        revents = revents + 4;
                    }
                    if f.has_error() {
                        revents = revents + 8;
                    }
                },
                None => {},
            }
        }
        proof {
            assert(b0[base + 3 as int] == hi && b0[base + 4 as int] == ev);
            assert(revents == poll_revents(*k, b0, i as int));
        }
        let ghost before = fds@;
        fds.set(base + 6, revents);
        fds.set(base + 7, 0);
        proof {
            assert forall|q: int| 0 <= q < i + 1 implies {
                &&& #[trigger] fds@[8 * q + 6] == poll_revents(*k, b0, q)
                &&& fds@[8 * q + 7] == 0
            } by {
                if q < i {
                    assert(fds@[8 * q + 6] == before[8 * q + 6]);
                    assert(fds@[8 * q + 7] == before[8 * q + 7]);
                }
            }
        }
        if revents != 0 {
            count = count + 1;
        }
        i = i + 1;
    }
    count
}

} // verus!
