//! Physical memory as seen by the kernel through its identity mapping: a run of
//! frames starting at `base_ppn`, addressed by byte.
use vstd::prelude::*;
use super::address::{PhysPageNum, PAGE_SIZE};

verus! {

/// Little-endian composition of eight bytes into a machine word.
pub open spec fn le_word(b0: u8, b1: u8, b2: u8, b3: u8, b4: u8, b5: u8, b6: u8, b7: u8) -> u64 {
    (b0 as u64) | ((b1 as u64) << 8u64) | ((b2 as u64) << 16u64) | ((b3 as u64) << 24u64)
        | ((b4 as u64) << 32u64) | ((b5 as u64) << 40u64) | ((b6 as u64) << 48u64)
        | ((b7 as u64) << 56u64)
}

/// The `k`-th byte (least significant first) of a word.
pub open spec fn word_byte(v: u64, k: int) -> u8 {
    ((v >> ((8 * k) as u64)) & 0xff) as u8
}

proof fn lemma_le_word_roundtrip(v: u64)
    ensures
        le_word(
            ((v >> 0u64) & 0xff) as u8, ((v >> 8u64) & 0xff) as u8, ((v >> 16u64) & 0xff) as u8,
            ((v >> 24u64) & 0xff) as u8, ((v >> 32u64) & 0xff) as u8, ((v >> 40u64) & 0xff) as u8,
            ((v >> 48u64) & 0xff) as u8, ((v >> 56u64) & 0xff) as u8,
        ) == v,
{
    assert(((((v >> 0u64) & 0xff) as u8) as u64) | (((((v >> 8u64) & 0xff) as u8) as u64) << 8u64)
        | (((((v >> 16u64) & 0xff) as u8) as u64) << 16u64) | (((((v >> 24u64) & 0xff) as u8) as u64) << 24u64)
        | (((((v >> 32u64) & 0xff) as u8) as u64) << 32u64) | (((((v >> 40u64) & 0xff) as u8) as u64) << 40u64)
        | (((((v >> 48u64) & 0xff) as u8) as u64) << 48u64) | (((((v >> 56u64) & 0xff) as u8) as u64) << 56u64)
        == v) by (bit_vector);
}

pub proof fn lemma_le_word_zero()
    ensures le_word(0u8, 0u8, 0u8, 0u8, 0u8, 0u8, 0u8, 0u8) == 0,
{
    assert((0u8 as u64) | ((0u8 as u64) << 8u64) | ((0u8 as u64) << 16u64) | ((0u8 as u64) << 24u64)
        | ((0u8 as u64) << 32u64) | ((0u8 as u64) << 40u64) | ((0u8 as u64) << 48u64)
        | ((0u8 as u64) << 56u64) == 0) by (bit_vector);
}

/// The frame that holds address `a`.
pub proof fn lemma_page_of(a: int, t: int)
    requires a >= 0, t >= 0,
    ensures (a / PAGE_SIZE as int == t) <==> (t * PAGE_SIZE <= a < t * PAGE_SIZE + PAGE_SIZE),
{
    assert((a / 4096 == t) <==> (t * 4096 <= a < t * 4096 + 4096)) by (nonlinear_arith)
        requires a >= 0, t >= 0;
}

/// An aligned word lies inside one frame.
pub proof fn lemma_word_in_frame(x: int, a: int)
    requires x >= 0, x % 8 == 0, x <= a < x + 8,
    ensures a / PAGE_SIZE as int == x / PAGE_SIZE as int,
{
    assert(a / 4096 == x / 4096) by (nonlinear_arith)
        requires x >= 0, x % 8 == 0, x <= a < x + 8;
}

/// Equal bytes make equal words.
pub proof fn lemma_word_unchanged(m1: PhysMem, m2: PhysMem, a: int)
    requires forall|k: int| 0 <= k < 8 ==> #[trigger] m2.byte(a + k) == m1.byte(a + k),
    ensures m2.word(a) == m1.word(a),
{
    assert(m2.byte(a + 0) == m1.byte(a + 0));
    assert(m2.byte(a + 1) == m1.byte(a + 1));
    assert(m2.byte(a + 2) == m1.byte(a + 2));
    assert(m2.byte(a + 3) == m1.byte(a + 3));
    assert(m2.byte(a + 4) == m1.byte(a + 4));
    assert(m2.byte(a + 5) == m1.byte(a + 5));
    assert(m2.byte(a + 6) == m1.byte(a + 6));
    assert(m2.byte(a + 7) == m1.byte(a + 7));
}

/// Zero bytes make a zero word.
pub proof fn lemma_word_zero(m: PhysMem, a: int)
    requires forall|k: int| 0 <= k < 8 ==> #[trigger] m.byte(a + k) == 0,
    ensures m.word(a) == 0,
{
    assert(m.byte(a + 0) == 0 && m.byte(a + 1) == 0 && m.byte(a + 2) == 0 && m.byte(a + 3) == 0);
    assert(m.byte(a + 4) == 0 && m.byte(a + 5) == 0 && m.byte(a + 6) == 0 && m.byte(a + 7) == 0);
    lemma_le_word_zero();
}

pub struct PhysMem {
    /// The first frame of physical memory.
    pub base_ppn: usize,
    /// The content of the frames, `PAGE_SIZE` bytes each.
    pub bytes: Vec<u8>,
}

impl PhysMem {
    /// The address of the first byte.
    pub open spec fn start(&self) -> int {
        self.base_ppn * PAGE_SIZE
    }

    pub open spec fn wf(&self) -> bool {
        &&& self.bytes.len() % PAGE_SIZE == 0
        &&& self.start() + self.bytes.len() <= usize::MAX
        &&& self.start() + self.bytes.len() <= 0x1000_0000_0000 * PAGE_SIZE
    }

    /// Whether `len` bytes from `pa` lie in physical memory.
    pub open spec fn in_range(&self, pa: int, len: int) -> bool {
        self.start() <= pa && 0 <= len && pa + len <= self.start() + self.bytes.len()
    }

    /// Whether frame `ppn` lies in physical memory.
    pub open spec fn frame_valid(&self, ppn: int) -> bool {
        self.in_range(ppn * PAGE_SIZE, PAGE_SIZE as int)
    }

    pub open spec fn byte(&self, pa: int) -> u8 {
        self.bytes@[pa - self.start()]
    }

    /// The little-endian word stored at `pa`.
    pub open spec fn word(&self, pa: int) -> u64 {
        le_word(self.byte(pa), self.byte(pa + 1), self.byte(pa + 2), self.byte(pa + 3),
            self.byte(pa + 4), self.byte(pa + 5), self.byte(pa + 6), self.byte(pa + 7))
    }

    /// A memory of `frames` zeroed frames starting at frame `base_ppn`.
    pub fn new(base_ppn: usize, frames: usize) -> (m: Self)
        requires
            base_ppn * PAGE_SIZE + frames * PAGE_SIZE <= usize::MAX,
            base_ppn + frames <= 0x1000_0000_0000,
        ensures
            m.wf(),
            m.base_ppn == base_ppn,
            m.bytes.len() == frames * PAGE_SIZE,
            forall|i: int| 0 <= i < m.bytes.len() ==> m.bytes@[i] == 0,
    {
        let n = frames * PAGE_SIZE;
        let mut bytes: Vec<u8> = Vec::new();
        let mut i: usize = 0;
        while i < n
            invariant
                i <= n,
                bytes.len() == i,
                forall|j: int| 0 <= j < i ==> bytes@[j] == 0,
            decreases n - i,
        {
            bytes.push(0);
            i = i + 1;
        }
        assert(n % PAGE_SIZE == 0) by {
            vstd::arithmetic::div_mod::lemma_mod_multiples_basic(frames as int, PAGE_SIZE as int);
        }
        PhysMem { base_ppn, bytes }
    }

    /// Whether frame `ppn` lies in physical memory.
    pub fn frame_in_range(&self, ppn: usize) -> (r: bool)
        requires self.wf(),
        ensures r == self.frame_valid(ppn as int),
    {
        if ppn < self.base_ppn {
            return false;
        }
        let frames = self.bytes.len() / PAGE_SIZE;
        proof {
            vstd::arithmetic::div_mod::lemma_fundamental_div_mod(self.bytes.len() as int, PAGE_SIZE as int);
            assert(self.frame_valid(ppn as int) <==> ppn - self.base_ppn < frames) by (nonlinear_arith)
                requires
                    self.bytes.len() == PAGE_SIZE * frames,
                    ppn >= self.base_ppn,
                    self.start() == self.base_ppn * PAGE_SIZE,
                    self.frame_valid(ppn as int) <==> (self.start() <= ppn * PAGE_SIZE
                        && ppn * PAGE_SIZE + PAGE_SIZE <= self.start() + self.bytes.len());
        }
        ppn - self.base_ppn < frames
    }

    pub fn read_byte(&self, pa: usize) -> (b: u8)
        requires
            self.wf(),
            self.in_range(pa as int, 1),
        ensures
            b == self.byte(pa as int),
    {
        self.bytes[pa - self.base_ppn * PAGE_SIZE]
    }

    pub fn write_byte(&mut self, pa: usize, b: u8)
        requires
            old(self).wf(),
            old(self).in_range(pa as int, 1),
        ensures
            final(self).wf(),
            final(self).base_ppn == old(self).base_ppn,
            final(self).bytes@ == old(self).bytes@.update(pa - old(self).start(), b),
    {
        let off = pa - self.base_ppn * PAGE_SIZE;
        self.bytes.set(off, b);
    }

    /// Reads the little-endian word at `pa`.
    pub fn read_word(&self, pa: usize) -> (v: u64)
        requires
            self.wf(),
            self.in_range(pa as int, 8),
        ensures
            v == self.word(pa as int),
    {
        let o = pa - self.base_ppn * PAGE_SIZE;
        (self.bytes[o] as u64) | ((self.bytes[o + 1] as u64) << 8u64)
            | ((self.bytes[o + 2] as u64) << 16u64) | ((self.bytes[o + 3] as u64) << 24u64)
            | ((self.bytes[o + 4] as u64) << 32u64) | ((self.bytes[o + 5] as u64) << 40u64)
            | ((self.bytes[o + 6] as u64) << 48u64) | ((self.bytes[o + 7] as u64) << 56u64)
    }

    /// Stores `v` as a little-endian word at `pa`.
    pub fn write_word(&mut self, pa: usize, v: u64)
        requires
            old(self).wf(),
            old(self).in_range(pa as int, 8),
        ensures
            final(self).wf(),
            final(self).base_ppn == old(self).base_ppn,
            final(self).bytes.len() == old(self).bytes.len(),
            final(self).word(pa as int) == v,
            forall|a: int| old(self).in_range(a, 1) && !(pa <= a < pa + 8) ==> #[trigger] final(self).byte(a) == old(self).byte(a),
    {
        let o = pa - self.base_ppn * PAGE_SIZE;
        self.bytes.set(o, ((v >> 0u64) & 0xff) as u8);
        self.bytes.set(o + 1, ((v >> 8u64) & 0xff) as u8);
        self.bytes.set(o + 2, ((v >> 16u64) & 0xff) as u8);
        self.bytes.set(o + 3, ((v >> 24u64) & 0xff) as u8);
        self.bytes.set(o + 4, ((v >> 32u64) & 0xff) as u8);
        self.bytes.set(o + 5, ((v >> 40u64) & 0xff) as u8);
        self.bytes.set(o + 6, ((v >> 48u64) & 0xff) as u8);
        self.bytes.set(o + 7, ((v >> 56u64) & 0xff) as u8);
        proof { lemma_le_word_roundtrip(v); }
    }

    /// Fills frame `ppn` with zeros.
    pub fn zero_frame(&mut self, ppn: PhysPageNum)
        requires
            old(self).wf(),
            old(self).frame_valid(ppn.0 as int),
        ensures
            final(self).wf(),
            final(self).base_ppn == old(self).base_ppn,
            final(self).bytes.len() == old(self).bytes.len(),
            forall|a: int| ppn.0 * PAGE_SIZE <= a < ppn.0 * PAGE_SIZE + PAGE_SIZE ==> #[trigger] final(self).byte(a) == 0,
            forall|a: int| old(self).in_range(a, 1) && !(ppn.0 * PAGE_SIZE <= a < ppn.0 * PAGE_SIZE + PAGE_SIZE) ==> #[trigger] final(self).byte(a) == old(self).byte(a),
    {
        let o = ppn.0 * PAGE_SIZE - self.base_ppn * PAGE_SIZE;
        let mut i: usize = 0;
        while i < PAGE_SIZE
            invariant
                i <= PAGE_SIZE,
                o + PAGE_SIZE <= self.bytes.len(),
                o == ppn.0 * PAGE_SIZE - self.start(),
                self.base_ppn == old(self).base_ppn,
                self.bytes.len() == old(self).bytes.len(),
                forall|j: int| o <= j < o + i ==> self.bytes@[j] == 0,
                forall|j: int| 0 <= j < self.bytes.len() && !(o <= j < o + PAGE_SIZE) ==> self.bytes@[j] == old(self).bytes@[j],
                forall|j: int| o + i <= j < o + PAGE_SIZE ==> self.bytes@[j] == old(self).bytes@[j],
            decreases PAGE_SIZE - i,
        {
            self.bytes.set(o + i, 0);
            i = i + 1;
        }
    }
}

} // verus!
