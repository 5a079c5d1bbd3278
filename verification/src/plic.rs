//! The platform-level interrupt controller of qemu-virt: the register writes that set it
//! up, and what a claimed interrupt asks for. The platform layer performs the register
//! accesses.
use vstd::prelude::*;

verus! {

pub const PLIC_BASE: usize = 0x0c00_0000;
/// The claim and completion register of hart 0 in supervisor mode.
pub const PLIC_CLAIM: usize = 0x0c20_1004;
/// The virtio devices raise interrupts 1 to 8.
pub const VIRTIO_IRQ_COUNT: u32 = 8;

/// The writes (address, value) that set the controller up for hart 0 in supervisor mode:
/// priority 1 for sources 1 to 8, those sources enabled, threshold 0.
pub open spec fn plic_setup() -> Seq<(usize, u32)> {
    Seq::new(8, |i: int| ((PLIC_BASE + 4 * (i + 1)) as usize, 1u32))
        + seq![((PLIC_BASE + 0x2080) as usize, 0x1feu32), ((PLIC_BASE + 0x20_1000) as usize, 0u32)]
}

/// The setup writes, in the order they are made.
pub fn init_plic() -> (w: Vec<(usize, u32)>)
    ensures w@ == plic_setup(),
{
    let mut w: Vec<(usize, u32)> = Vec::new();
    let mut i: usize = 1;
    while i < 9
        invariant
            1 <= i <= 9,
            w@ == Seq::new((i - 1) as nat, |j: int| ((PLIC_BASE + 4 * (j + 1)) as usize, 1u32)),
        decreases 9 - i,
    {
        w.push((PLIC_BASE + i * 4, 1));
        assert(w@ =~= Seq::new(i as nat, |j: int| ((PLIC_BASE + 4 * (j + 1)) as usize, 1u32)));
        i = i + 1;
    }
    w.push((PLIC_BASE + 0x2080, 0x1fe));
    w.push((PLIC_BASE + 0x20_1000, 0));
    assert(w@ =~= plic_setup());
    w
}

/// Nothing is set up at boot: the controller keeps its reset state.
pub fn init() {
}

/// What a claimed interrupt asks for.
#[derive(Debug, Clone, Copy, PartialEq, Eq, Structural)]
pub enum IrqAction {
    /// No interrupt was pending: nothing to do, nothing to complete.
    Nothing,
    /// The virtio device at this index (0 to 7) interrupted; complete `irq` afterwards.
    Virtio(usize),
    /// A source nobody handles; complete it.
    Unknown(u32),
}

/// The claimed interrupt `irq` (read from `PLIC_CLAIM`): none for 0, a virtio device for 1
/// to 8, else unknown.
pub fn handle_external_interrupt(irq: u32) -> (a: IrqAction)
    ensures
        irq == 0 ==> a == IrqAction::Nothing,
        1 <= irq <= VIRTIO_IRQ_COUNT ==> a == IrqAction::Virtio((irq - 1) as usize),
        irq > VIRTIO_IRQ_COUNT ==> a == IrqAction::Unknown(irq),
{
    if irq == 0 {
        IrqAction::Nothing
    } else if irq <= VIRTIO_IRQ_COUNT {
        IrqAction::Virtio((irq - 1) as usize)
    } else {
        IrqAction::Unknown(irq)
    }
}

} // verus!
