//! Architectural object sizes and boot-time configuration constants.
//! Sizes are given as bit widths: an object of size-bits `b` occupies
//! 2^b bytes and must be placed at a 2^b-aligned address.
use vstd::prelude::*;

verus! {

/// Size bits of a page (4 KiB).
pub const PAGE_BITS: u64 = 12;

/// Size bits of a large page (2 MiB).
pub const LARGE_PAGE_BITS: u64 = 21;

/// Size bits of a huge page (1 GiB).
pub const HUGE_PAGE_BITS: u64 = 30;

/// Size bits of one capability slot.
pub const SLOT_BITS: u64 = 5;

/// Size bits of a thread control block.
pub const TCB_BITS: u64 = 11;

/// Size bits of an endpoint object.
pub const ENDPOINT_BITS: u64 = 4;

/// Size bits of a notification object.
pub const NOTIFICATION_BITS: u64 = 5;

/// Size bits of a page table.
pub const PAGE_TABLE_BITS: u64 = 12;

/// Size bits of one page table entry.
pub const PAGE_TABLE_ENTRY_BITS: u64 = 3;

/// Index bits per page-table level (512 entries per table).
pub const PAGE_TABLE_INDEX_BITS: u64 = 9;

/// Bits selecting an ASID pool in the global table.
pub const NUM_ASID_POOLS_BITS: u64 = 7;

/// Size bits of one ASID pool object.
pub const ASID_POOL_BITS: u64 = 12;

/// Index bits inside one ASID pool.
pub const ASID_POOL_INDEX_BITS: u64 = 9;

/// Size bits of an I/O page table.
pub const IO_PAGE_TABLE_BITS: u64 = 12;

/// Size bits of one machine word (8 bytes).
pub const WORD_SIZE_BITS: u64 = 3;

/// Size bits of one entry of the top-level translation table.
pub const VSPACE_ENTRY_BITS: u64 = 3;

/// Size bits of the address-space root object.
pub const VSPACE_BITS: u64 = 12;

/// Index bits of the top-level translation table.
pub const VSPACE_INDEX_BITS: u64 = 9;

/// Width of a machine word in bits.
pub const WORD_BITS: u64 = 64;

/// Smallest untyped object, in size bits.
pub const MIN_UNTYPED_BITS: u64 = 4;

/// Largest untyped object, in size bits.
pub const MAX_UNTYPED_BITS: u64 = 47;

/// The ASID handed to the initial task.
pub const IT_ASID: u64 = 1;

/// Radix of the initial task's root capability node: the node holds
/// 2^ROOT_CNODE_SIZE_BITS slots.
pub const ROOT_CNODE_SIZE_BITS: u64 = 12;

/// Capacity of the reserved-region list.
pub const MAX_NUM_RESV_REG: usize = 10;

/// Capacity of the free-region list.
pub const MAX_NUM_FREEMEM_REG: usize = 10;

/// Size bits of the boot-info frame.
pub const BOOT_INFO_FRAME_BITS: u64 = 12;

/// Capacity of the untyped-descriptor list in the boot info.
pub const MAX_NUM_BOOTINFO_UNTYPED_CAPS: usize = 230;

/// Number of nodes booted (single bootstrap core).
pub const MAX_NUM_NODES: u64 = 1;

/// Number of saved user-context registers.
pub const NUM_CONTEXT_REGS: usize = 37;

/// Well-known slots of the initial task's root capability node. The fixed
/// layout starts at slot 0; dynamically minted capabilities follow from
/// `NumInitialCaps` onward.
pub enum RootCNodeCapSlots {
    Null,
    InitThreadTCB,
    InitThreadCNode,
    InitThreadVSpace,
    IRQControl,
    ASIDControl,
    InitThreadASIDPool,
    IOPortControl,
    IOSpace,
    BootInfoFrame,
    InitThreadIPCBuffer,
    Domain,
    SMMUSIDControl,
    SMMUCBControl,
    InitThreadSC,
    SMC,
    NumInitialCaps,
}

impl RootCNodeCapSlots {
    /// The slot number this name stands for.
    pub fn index(&self) -> (r: usize)
        ensures
            r == self.index_spec(),
    {
        match self {
            RootCNodeCapSlots::Null => 0,
            RootCNodeCapSlots::InitThreadTCB => 1,
            RootCNodeCapSlots::InitThreadCNode => 2,
            RootCNodeCapSlots::InitThreadVSpace => 3,
            RootCNodeCapSlots::IRQControl => 4,
            RootCNodeCapSlots::ASIDControl => 5,
            RootCNodeCapSlots::InitThreadASIDPool => 6,
            RootCNodeCapSlots::IOPortControl => 7,
            RootCNodeCapSlots::IOSpace => 8,
            RootCNodeCapSlots::BootInfoFrame => 9,
            RootCNodeCapSlots::InitThreadIPCBuffer => 10,
            RootCNodeCapSlots::Domain => 11,
            RootCNodeCapSlots::SMMUSIDControl => 12,
            RootCNodeCapSlots::SMMUCBControl => 13,
            RootCNodeCapSlots::InitThreadSC => 14,
            RootCNodeCapSlots::SMC => 15,
            RootCNodeCapSlots::NumInitialCaps => 16,
        }
    }

    pub open spec fn index_spec(&self) -> usize {
        match self {
            RootCNodeCapSlots::Null => 0usize,
            RootCNodeCapSlots::InitThreadTCB => 1usize,
            RootCNodeCapSlots::InitThreadCNode => 2usize,
            RootCNodeCapSlots::InitThreadVSpace => 3usize,
            RootCNodeCapSlots::IRQControl => 4usize,
            RootCNodeCapSlots::ASIDControl => 5usize,
            RootCNodeCapSlots::InitThreadASIDPool => 6usize,
            RootCNodeCapSlots::IOPortControl => 7usize,
            RootCNodeCapSlots::IOSpace => 8usize,
            RootCNodeCapSlots::BootInfoFrame => 9usize,
            RootCNodeCapSlots::InitThreadIPCBuffer => 10usize,
            RootCNodeCapSlots::Domain => 11usize,
            RootCNodeCapSlots::SMMUSIDControl => 12usize,
            RootCNodeCapSlots::SMMUCBControl => 13usize,
            RootCNodeCapSlots::InitThreadSC => 14usize,
            RootCNodeCapSlots::SMC => 15usize,
            RootCNodeCapSlots::NumInitialCaps => 16usize,
        }
    }
}

} // verus!
