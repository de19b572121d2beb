//! Hardware page-table entries: one machine word whose low twelve bits
//! carry the descriptor flags and whose higher bits carry an aligned
//! physical address. The flag bits never alias address bits: the address is
//! always read through the accessor mask.
use vstd::prelude::*;

verus! {

/// The descriptor is valid.
pub const PTE_VALID: u64 = 0x1;

/// The descriptor names the next translation level or a 4-KiB page, not a
/// block.
pub const PTE_NON_BLOCK: u64 = 0x2;

/// Memory-attribute index field.
pub const PTE_ATTR_INDX: u64 = 0x1C;

/// Memory-attribute index naming normal non-cacheable memory.
pub const PTE_NORMAL_NONCACHE: u64 = 0x8;

/// Non-secure bit.
pub const PTE_NS: u64 = 0x20;

/// Access permission: accessible to user mode.
pub const PTE_AP_EL0: u64 = 0x40;

/// Access permission: read-only.
pub const PTE_AP_RO: u64 = 0x80;

/// Shareability: inner shareable.
pub const PTE_INNER: u64 = 0x100;

/// Shareability: shareable at all.
pub const PTE_SHAREABLE: u64 = 0x200;

/// The access flag.
pub const PTE_AF: u64 = 0x400;

/// The not-global bit.
pub const PTE_NG: u64 = 0x800;

/// Sixteen adjacent entries map contiguous memory.
pub const PTE_CONTIGUOUS: u64 = 0x10_0000_0000_0000;

/// Privileged execute-never.
pub const PTE_PXN: u64 = 0x20_0000_0000_0000;

/// Execute-never (unprivileged).
pub const PTE_UXN: u64 = 0x40_0000_0000_0000;

/// Privileged execute-never limit for subsequent lookup levels.
pub const PTE_PXN_TABLE: u64 = 0x800_0000_0000_0000;

/// Execute-never limit for subsequent lookup levels.
pub const PTE_XN_TABLE: u64 = 0x1000_0000_0000_0000;

/// No user-mode access in subsequent lookup levels.
pub const PTE_AP_NO_EL0_TABLE: u64 = 0x2000_0000_0000_0000;

/// No write access in subsequent lookup levels.
pub const PTE_AP_NO_WRITE_TABLE: u64 = 0x4000_0000_0000_0000;

/// Security state for subsequent lookup levels.
pub const PTE_NS_TABLE: u64 = 0x8000_0000_0000_0000;

/// Every defined flag bit.
pub const PTE_ALL_FLAGS: u64 = 0xF870_0000_0000_0FFF;

/// A set of page-table-entry flags.
#[derive(Clone, Copy, PartialEq, Eq, Structural, Debug)]
pub struct PTEFlags(pub u64);

impl PTEFlags {
    pub fn empty() -> (r: Self)
        ensures
            r.0 == 0,
    {
        PTEFlags(0)
    }

    pub fn new(bits: u64) -> (r: Self)
        ensures
            r.0 == bits,
    {
        PTEFlags(bits)
    }

    pub fn bits(&self) -> (r: u64)
        ensures
            r == self.0,
    {
        self.0
    }

    /// Keep only the defined flag bits of an arbitrary word.
    pub fn from_bits_truncate(bits: u64) -> (r: Self)
        ensures
            r.0 == bits & PTE_ALL_FLAGS,
    {
        PTEFlags(bits & PTE_ALL_FLAGS)
    }

    /// Both flag sets combined.
    pub fn union(self, other: Self) -> (r: Self)
        ensures
            r.0 == self.0 | other.0,
    {
        PTEFlags(self.0 | other.0)
    }

    /// Whether every flag of `other` is set in `self`.
    pub fn contains(&self, other: Self) -> (r: bool)
        ensures
            r == (self.0 & other.0 == other.0),
    {
        self.0 & other.0 == other.0
    }
}

/// The address encoded in a descriptor word: everything above the low
/// twelve flag bits.
pub open spec fn pte_paddr_of(word: u64) -> u64 {
    word & !0xFFFu64
}

/// A table descriptor for the next-level table at physical address `paddr`.
pub open spec fn table_desc(paddr: u64) -> u64 {
    paddr | PTE_VALID | PTE_NON_BLOCK
}

/// A page or block descriptor mapping physical address `paddr` with the
/// given flags.
pub open spec fn page_desc(paddr: u64, flags: u64) -> u64 {
    paddr | flags
}

/// One page-table entry.
#[derive(Clone, Copy, PartialEq, Eq, Structural, Debug)]
pub struct PTE(pub u64);

impl PTE {
    pub fn empty() -> (r: Self)
        ensures
            r.0 == 0,
    {
        PTE(0)
    }

    /// The physical address this entry names, with the flag bits masked
    /// off.
    pub fn address(&self) -> (r: u64)
        ensures
            r == pte_paddr_of(self.0),
    {
        self.0 & !0xFFF
    }

    /// Replace the low flag bits, keeping the address bits.
    pub fn set_flags(self, flags: PTEFlags) -> (r: Self)
        ensures
            r.0 == self.0 & !0xFFFu64 | flags.0,
    {
        PTE(self.0 & !0xFFF | flags.0)
    }

    /// Replace the address bits, keeping the low flag bits.
    pub fn set_addr(self, addr: u64) -> (r: Self)
        ensures
            r.0 == self.0 & 0xFFFu64 | addr,
    {
        PTE(self.0 & 0xFFF | addr)
    }

    /// The defined flag bits of this entry.
    pub fn flags(&self) -> (r: PTEFlags)
        ensures
            r.0 == self.0 & PTE_ALL_FLAGS,
    {
        PTEFlags::from_bits_truncate(self.0)
    }

    pub fn is_valid(&self) -> (r: bool)
        ensures
            r == (self.0 & PTE_VALID == PTE_VALID),
    {
        proof {
            let w = self.0;
            assert(((w & 0xF870_0000_0000_0FFFu64) & 1u64 == 1u64) == (w & 1u64 == 1u64))
                by (bit_vector);
        }
        self.flags().contains(PTEFlags::new(PTE_VALID))
    }

    /// Whether this entry is a valid table descriptor.
    pub fn is_table(&self) -> (r: bool)
        ensures
            r == (self.0 & (PTE_VALID | PTE_NON_BLOCK) == (PTE_VALID | PTE_NON_BLOCK)),
    {
        proof {
            let w = self.0;
            assert(0x1u64 | 0x2u64 == 3u64) by (bit_vector);
            assert(((w & 0xF870_0000_0000_0FFFu64) & 3u64 == 3u64) == (w & 3u64 == 3u64))
                by (bit_vector);
        }
        self.flags().contains(PTEFlags::new(PTE_VALID | PTE_NON_BLOCK))
    }

    /// A table descriptor for the next-level table at `paddr`.
    pub fn new_table(paddr: u64) -> (r: Self)
        ensures
            r.0 == table_desc(paddr),
    {
        PTE(paddr | PTE_VALID | PTE_NON_BLOCK)
    }

    /// A page or block descriptor mapping `paddr` with the given flags.
    /// The address must be page-aligned and within the translatable range,
    /// so its bits never alias the flag bits.
    pub fn new_page(paddr: u64, flags: PTEFlags) -> (r: Self)
        requires
            paddr % 0x1000 == 0,
            paddr < 0x1_0000_0000_0000,
        ensures
            r.0 == page_desc(paddr, flags.0),
    {
        PTE(paddr | flags.0)
    }
}

} // verus!
