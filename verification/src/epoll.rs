//! A watch list kept in the order items were added.
use vstd::prelude::*;

verus! {

/// A watched descriptor, the events asked for and the user's tag.
#[derive(Clone, Copy, Debug)]
pub struct EpollItem {
    pub fd: i32,
    pub events: u32,
    pub data: u64,
}

pub struct Epoll {
    pub items: Vec<EpollItem>,
}

/// `i` is the first item for `fd` in `s`, or the end when there is none.
pub open spec fn item_at(s: Seq<EpollItem>, fd: i32, i: int) -> bool {
    &&& 0 <= i <= s.len()
    &&& forall|j: int| 0 <= j < i ==> #[trigger] s[j].fd != fd
    &&& i < s.len() ==> s[i].fd == fd
}

pub open spec fn item_pos(s: Seq<EpollItem>, fd: i32) -> int {
    choose|i: int| item_at(s, fd, i)
}

proof fn lemma_item_pos(s: Seq<EpollItem>, fd: i32, i: int)
    requires item_at(s, fd, i),
    ensures item_pos(s, fd) == i,
{
    let c = item_pos(s, fd);
    assert(item_at(s, fd, c));
    if c < i {
        assert(s[c].fd != fd);
    } else if c > i {
        assert(s[i].fd != fd);
    }
}

/// The items of `s` whose descriptor is not `fd`, in order.
pub open spec fn items_without(s: Seq<EpollItem>, fd: i32) -> Seq<EpollItem>
    decreases s.len(),
{
    if s.len() == 0 {
        s
    } else if s.last().fd == fd {
        items_without(s.drop_last(), fd)
    } else {
        items_without(s.drop_last(), fd).push(s.last())
    }
}

impl Epoll {
    pub fn new() -> (e: Epoll)
        ensures e.items@ == Seq::<EpollItem>::empty(),
    {
        Epoll { items: Vec::new() }
    }

    /// Watches `ep` (after what is already watched).
    pub fn add(&mut self, ep: EpollItem)
        ensures final(self).items@ == old(self).items@.push(ep),
    {
        self.items.push(ep);
    }

    /// Replaces the first item for the descriptor of `ep`, or adds `ep` when there is none.
    pub fn modify(&mut self, ep: EpollItem)
        ensures
            ({
                let s = old(self).items@;
                let i = item_pos(s, ep.fd);
                final(self).items@ == (if i < s.len() { s.update(i, ep) } else { s.push(ep) })
            }),
    {
        let mut i: usize = 0;
        while i < self.items.len()
            invariant
                i <= self.items@.len(),
                *self == *old(self),
                forall|j: int| 0 <= j < i ==> #[trigger] self.items@[j].fd != ep.fd,
            decreases self.items@.len() - i,
        {
            if self.items[i].fd == ep.fd {
                proof { lemma_item_pos(self.items@, ep.fd, i as int); }
                self.items.set(i, ep);
                return;
            }
            i = i + 1;
        }
        proof { lemma_item_pos(self.items@, ep.fd, i as int); }
        self.items.push(ep);
    }

    /// Stops watching `fd`: every item for it goes.
    pub fn remove(&mut self, fd: i32)
        ensures final(self).items@ == items_without(old(self).items@, fd),
    {
        let mut kept: Vec<EpollItem> = Vec::new();
        let mut i: usize = 0;
        while i < self.items.len()
            invariant
                i <= self.items@.len(),
                *self == *old(self),
                kept@ == items_without(self.items@.take(i as int), fd),
            decreases self.items@.len() - i,
        {
            proof { assert(self.items@.take(i as int + 1).drop_last() =~= self.items@.take(i as int)); }
            if self.items[i].fd != fd {
                kept.push(self.items[i]);
            }
            i = i + 1;
        }
        proof { assert(self.items@.take(i as int) =~= self.items@); }
        self.items = kept;
    }

    /// A copy of the items, in order.
    pub fn snapshot(&self) -> (r: Vec<EpollItem>)
        ensures r@ == self.items@,
    {
        crate::task::task::copy_vec(&self.items)
    }
}

/// After `remove`, nothing watches the descriptor, and every other item is still there.
pub proof fn lemma_remove_gone(s: Seq<EpollItem>, fd: i32)
    ensures
        forall|j: int| 0 <= j < items_without(s, fd).len() ==> #[trigger] items_without(s, fd)[j].fd != fd,
        forall|j: int| 0 <= j < s.len() && s[j].fd != fd ==> items_without(s, fd).contains(#[trigger] s[j]),
    decreases s.len(),
{
    if s.len() > 0 {
        let d = s.drop_last();
        lemma_remove_gone(d, fd);
        let w = items_without(d, fd);
        assert forall|j: int| 0 <= j < items_without(s, fd).len() implies #[trigger] items_without(s, fd)[j].fd != fd by {
            if j < w.len() {
                assert(items_without(s, fd)[j] == w[j]);
            }
        }
        assert forall|j: int| 0 <= j < s.len() && s[j].fd != fd implies items_without(s, fd).contains(#[trigger] s[j]) by {
            if j < d.len() {
                assert(d[j] == s[j]);
                let w = items_without(d, fd);
                let k = choose|k: int| 0 <= k < w.len() && w[k] == d[j];
                if s.last().fd != fd {
                    assert(items_without(s, fd)[k] == s[j]);
                }
            } else {
                assert(items_without(s, fd).last() == s[j]);
            }
        }
    }
}

} // verus!
