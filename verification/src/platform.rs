//! Constants of the QEMU virt board this kernel boots on: physical memory
//! layout, the user-space ceiling, and interrupt numbers.
use crate::addr::{PAddr, PhysRegion, PPTR_BASE, PPTR_TOP};
use vstd::prelude::*;

verus! {

/// First physical address of the platform.
pub const PADDR_BASE: u64 = 0;

/// Physical load address of the kernel image.
pub const PADDR_ELF_ADDR: u64 = 0x4000_0000;

/// Highest physical address visible through the kernel window.
pub const PADDR_TOP: u64 = PPTR_TOP - PPTR_BASE;

/// Ceiling of the initial task's virtual address space.
pub const USER_TOP: u64 = 0xA000_0000;

/// Highest interrupt number the platform wires up.
pub const MAX_IRQ: u64 = 159;

/// Frequency of the platform timer, in Hz.
pub const TIMER_FREQUENCY: u64 = 62_500_000;

/// Interrupt number of the kernel timer.
pub const KERNEL_TIMER_IRQ: u64 = 1;

/// The platform's available physical memory: one region of 1 GiB.
pub fn plat_mem_regions() -> (r: Vec<PhysRegion>)
    ensures
        r@.len() == 1,
        r@[0].start.0 == 0x4000_0000,
        r@[0].end.0 == 0x8000_0000,
{
    let mut v: Vec<PhysRegion> = Vec::new();
    v.push(PhysRegion { start: PAddr(0x4000_0000), end: PAddr(0x8000_0000) });
    v
}

} // verus!
