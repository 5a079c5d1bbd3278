//! Physical and virtual addresses and page numbers of the Sv39 scheme.
use vstd::prelude::*;

verus! {

pub const PAGE_SIZE: usize = 4096;
pub const PAGE_SIZE_BITS: usize = 12;

/// Physical address
#[derive(Copy, Clone, Debug, PartialEq, Eq, Structural)]
pub struct PhysAddr(pub usize);

/// Virtual address
#[derive(Copy, Clone, Debug, PartialEq, Eq, Structural)]
pub struct VirtAddr(pub usize);

/// Physical page number
#[derive(Copy, Clone, Debug, PartialEq, Eq, Structural)]
pub struct PhysPageNum(pub usize);

/// Virtual page number
#[derive(Copy, Clone, Debug, PartialEq, Eq, Structural)]
pub struct VirtPageNum(pub usize);

/// The page number of the first page at or above `a`.
pub open spec fn ceil_div_page(a: int) -> int {
    (a + PAGE_SIZE - 1) / (PAGE_SIZE as int)
}

proof fn lemma_and_mask_is_mod(x: usize)
    ensures
        x & 0xfff == x % 4096,
        x & 0x1ff == x % 512,
        x >> 9usize == x / 512,
{
    assert(x & 0xfff == x % 4096) by (bit_vector);
    assert(x & 0x1ff == x % 512) by (bit_vector);
    assert(x >> 9usize == x / 512) by (bit_vector);
}

impl PhysAddr {
    /// The page that holds this address.
    pub fn floor(self) -> (r: PhysPageNum)
        ensures r.0 == self.0 / PAGE_SIZE,
    {
        PhysPageNum(self.0 / PAGE_SIZE)
    }

    /// The first page at or above this address.
    pub fn ceil(self) -> (r: PhysPageNum)
        requires self.0 + PAGE_SIZE - 1 <= usize::MAX,
        ensures r.0 == ceil_div_page(self.0 as int),
    {
        PhysPageNum((self.0 + (PAGE_SIZE - 1)) / PAGE_SIZE)
    }

    /// The offset of this address inside its page.
    pub fn page_offset(self) -> (r: usize)
        ensures r == self.0 % PAGE_SIZE,
    {
        proof { lemma_and_mask_is_mod(self.0); }
        self.0 & (PAGE_SIZE - 1)
    }

    pub fn as_usize(self) -> (r: usize)
        ensures r == self.0,
    {
        self.0
    }
}

impl VirtAddr {
    /// The page that holds this address.
    pub fn floor(self) -> (r: VirtPageNum)
        ensures r.0 == self.0 / PAGE_SIZE,
    {
        VirtPageNum(self.0 / PAGE_SIZE)
    }

    /// The first page at or above this address.
    pub fn ceil(self) -> (r: VirtPageNum)
        requires self.0 + PAGE_SIZE - 1 <= usize::MAX,
        ensures r.0 == ceil_div_page(self.0 as int),
    {
        VirtPageNum((self.0 + (PAGE_SIZE - 1)) / PAGE_SIZE)
    }

    /// The offset of this address inside its page.
    pub fn page_offset(self) -> (r: usize)
        ensures r == self.0 % PAGE_SIZE,
    {
        proof { lemma_and_mask_is_mod(self.0); }
        self.0 & (PAGE_SIZE - 1)
    }

    pub fn as_usize(self) -> (r: usize)
        ensures r == self.0,
    {
        self.0
    }
}

impl PhysPageNum {
    /// The address of the first byte of this page.
    pub fn base(self) -> (r: PhysAddr)
        requires self.0 * PAGE_SIZE <= usize::MAX,
        ensures r.0 == self.0 * PAGE_SIZE,
    {
        PhysAddr(self.0 * PAGE_SIZE)
    }
}

/// The three 9-bit indices of a virtual page number, most significant first.
pub open spec fn vpn_index(vpn: int, level: int) -> int {
    if level == 0 {
        (vpn / (512 * 512int)) % 512
    } else if level == 1 {
        (vpn / 512) % 512
    } else {
        vpn % 512
    }
}

impl VirtPageNum {
    /// The address of the first byte of this page.
    pub fn base(self) -> (r: VirtAddr)
        requires self.0 * PAGE_SIZE <= usize::MAX,
        ensures r.0 == self.0 * PAGE_SIZE,
    {
        VirtAddr(self.0 * PAGE_SIZE)
    }

    /// The three 9-bit indices for Sv39, the root level first.
    pub fn indices(self) -> (out: [usize; 3])
        ensures
            forall|i: int| 0 <= i < 3 ==> #[trigger] out@[i] == vpn_index(self.0 as int, i),
            forall|i: int| 0 <= i < 3 ==> #[trigger] out@[i] < 512,
    {
        let mut vpn = self.0;
        let mut out: [usize; 3] = [0; 3];
        proof { lemma_and_mask_is_mod(vpn); }
        out[2] = vpn & 0x1ff;
        vpn = vpn >> 9;
        proof { lemma_and_mask_is_mod(vpn); }
        out[1] = vpn & 0x1ff;
        vpn = vpn >> 9;
        proof { lemma_and_mask_is_mod(vpn); }
        out[0] = vpn & 0x1ff;
        proof {
            let v = self.0 as int;
            assert(v / 512 / 512 == v / (512 * 512int)) by {
                vstd::arithmetic::div_mod::lemma_div_denominator(v, 512, 512);
            }
            assert(out@[0] == vpn_index(v, 0));
            assert(out@[1] == vpn_index(v, 1));
            assert(out@[2] == vpn_index(v, 2));
        }
        out
    }
}

} // verus!
