//! Where the virtio devices of qemu-virt sit: eight MMIO windows of 4 KiB from
//! 0x1000_1000, device `i` raising interrupt `i + 1`. The driver itself, which talks to the
//! windows, belongs to the platform layer.
use vstd::prelude::*;

verus! {

pub const VIRTIO_MMIO_BASE: usize = 0x1000_1000;
pub const VIRTIO_MMIO_SIZE: usize = 0x1000;
pub const VIRTIO_DEVICE_COUNT: usize = 8;

/// The MMIO window of device `i`.
pub open spec fn device_base(i: int) -> int {
    VIRTIO_MMIO_BASE + i * VIRTIO_MMIO_SIZE
}

/// The windows probed at boot, in order.
pub fn probe_bases() -> (r: Vec<usize>)
    ensures
        r@.len() == VIRTIO_DEVICE_COUNT,
        forall|i: int| 0 <= i < VIRTIO_DEVICE_COUNT ==> #[trigger] r@[i] == device_base(i),
{
    let mut r: Vec<usize> = Vec::new();
    let mut i: usize = 0;
    while i < VIRTIO_DEVICE_COUNT
        invariant
            i <= VIRTIO_DEVICE_COUNT, r@.len() == i,
            forall|j: int| 0 <= j < i ==> #[trigger] r@[j] == device_base(j),
        decreases VIRTIO_DEVICE_COUNT - i,
    {
        r.push(VIRTIO_MMIO_BASE + i * VIRTIO_MMIO_SIZE);
        i = i + 1;
    }
    r
}

/// The window of the device that raised interrupt `irq` (from 1).
pub fn irq_device_base(irq: usize) -> (r: usize)
    requires 1 <= irq <= VIRTIO_DEVICE_COUNT,
    ensures r == device_base(irq - 1),
{
    VIRTIO_MMIO_BASE + (irq - 1) * VIRTIO_MMIO_SIZE
}

} // verus!
