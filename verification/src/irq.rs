//! Interrupt bookkeeping at boot: the per-interrupt state table and the
//! IRQ-control capability minted for the initial task.
use crate::cap::IrqControlCap;
use crate::consts::RootCNodeCapSlots;
use crate::cspace::{written_slot, CNode};
use crate::platform::{KERNEL_TIMER_IRQ, MAX_IRQ};
use vstd::prelude::*;

verus! {

/// An interrupt number on some core (the bootstrap core here).
#[derive(Clone, Copy, PartialEq, Eq, Structural, Debug)]
pub struct Irq(pub u64);

impl Irq {
    /// Name an interrupt; only one core boots, so the core number is
    /// dropped.
    pub fn new(_core: u64, irq: u64) -> (r: Self)
        ensures
            r.0 == irq,
    {
        Irq(irq)
    }
}

/// The state of one interrupt line.
#[derive(Clone, Copy, PartialEq, Eq, Structural, Debug)]
pub enum IrqState {
    IRQInactive,
    IRQSignal,
    IRQTimer,
    IRQReserved,
}

/// The kernel's table of interrupt states, one entry per wired interrupt
/// number.
pub struct IrqStateTable {
    pub states: Vec<IrqState>,
}

impl IrqStateTable {
    pub open spec fn wf(self) -> bool {
        self.states@.len() == MAX_IRQ + 1
    }

    /// Every interrupt inactive.
    pub fn new() -> (r: Self)
        ensures
            r.wf(),
            forall|i: int| 0 <= i <= MAX_IRQ ==> r.states@[i] == IrqState::IRQInactive,
    {
        let mut states: Vec<IrqState> = Vec::new();
        let mut i: u64 = 0;
        while i < MAX_IRQ + 1
            invariant
                i <= MAX_IRQ + 1,
                states@.len() == i,
                forall|j: int| 0 <= j < i ==> states@[j] == IrqState::IRQInactive,
            decreases MAX_IRQ + 1 - i,
        {
            states.push(IrqState::IRQInactive);
            i = i + 1;
        }
        IrqStateTable { states }
    }
}

/// Record the state of one interrupt line.
pub fn set_irq_state(table: &mut IrqStateTable, state: IrqState, irq: Irq)
    requires
        old(table).wf(),
        irq.0 <= MAX_IRQ,
    ensures
        final(table).wf(),
        final(table).states@ == old(table).states@.update(irq.0 as int, state),
{
    table.states[irq.0 as usize] = state;
}

/// Set up the boot-time interrupt states — everything inactive but the
/// kernel timer — and mint the IRQ-control capability into its well-known
/// slot.
pub fn init_irqs(root_cnode_cap: &mut CNode) -> (table: IrqStateTable)
    requires
        RootCNodeCapSlots::IRQControl.index_spec() < old(root_cnode_cap).slots@.len(),
    ensures
        table.wf(),
        forall|i: int|
            0 <= i <= MAX_IRQ ==> table.states@[i] == (if i == KERNEL_TIMER_IRQ {
                IrqState::IRQTimer
            } else {
                IrqState::IRQInactive
            }),
        final(root_cnode_cap).slots@ == old(root_cnode_cap).slots@.update(
            RootCNodeCapSlots::IRQControl.index_spec() as int,
            written_slot([crate::cap::TAG_IRQ_CONTROL, 0]),
        ),
        final(root_cnode_cap).addr == old(root_cnode_cap).addr,
{
    let mut table = IrqStateTable::new();
    let mut i: u64 = 0;
    while i < MAX_IRQ
        invariant
            i <= MAX_IRQ,
            table.wf(),
            forall|j: int| 0 <= j <= MAX_IRQ ==> table.states@[j] == IrqState::IRQInactive,
        decreases MAX_IRQ - i,
    {
        set_irq_state(&mut table, IrqState::IRQInactive, Irq::new(0, i));
        i = i + 1;
    }
    set_irq_state(&mut table, IrqState::IRQTimer, Irq::new(0, KERNEL_TIMER_IRQ));
    let cap = IrqControlCap::empty();
    let slot = RootCNodeCapSlots::IRQControl.index();
    root_cnode_cap.write(slot, &cap);
    table
}

} // verus!
