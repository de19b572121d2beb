//! Packed capabilities: each capability kind carries its named fields, and
//! packs into a fixed-width two-word raw payload when stored in a
//! capability slot.
//!
//! Layout of the raw payload: word 0 holds the kind tag in its low five
//! bits with the kind's small fields above it; word 1 holds the kind's
//! pointer-sized field. Mapped virtual addresses are stored as their
//! 4-KiB-frame number (bits 47..12), and the frame capability stores its
//! base pointer as the low 48 bits of a canonical address with the owning
//! ASID above it.
use crate::addr::{KAddr, VAddr};
use vstd::prelude::*;

verus! {

/// Kind tag of a capability-node capability.
pub const TAG_CNODE: u64 = 1;

/// Kind tag of an address-space-root capability.
pub const TAG_VSPACE: u64 = 2;

/// Kind tag of a page-table capability.
pub const TAG_PAGE_TABLE: u64 = 3;

/// Kind tag of a frame capability.
pub const TAG_FRAME: u64 = 4;

/// Kind tag of the ASID-control capability.
pub const TAG_ASID_CONTROL: u64 = 5;

/// Kind tag of an ASID-pool capability.
pub const TAG_ASID_POOL: u64 = 6;

/// Kind tag of the domain capability.
pub const TAG_DOMAIN: u64 = 7;

/// Kind tag of the IRQ-control capability.
pub const TAG_IRQ_CONTROL: u64 = 8;

/// The fixed-width raw payload of one capability slot: two machine words.
#[derive(Clone, Copy, Debug)]
pub struct RawCap(pub [u64; 2]);

impl RawCap {
    pub fn new(val: [u64; 2]) -> (r: Self)
        ensures
            r.0 == val,
    {
        RawCap(val)
    }
}

/// A capability kind that can be packed into a raw slot payload.
pub trait CapTrait: Sized {
    /// The raw payload this capability packs into.
    spec fn raw_spec(&self) -> [u64; 2];

    /// Pack the capability into its raw payload.
    fn raw_cap(&self) -> (r: RawCap)
        ensures
            r.0 == self.raw_spec(),
    ;
}

/// Names the initial task's root capability node: its radix, the unused
/// guard bits above it, and where the node's slots live.
#[derive(Clone, Copy, PartialEq, Eq, Structural, Debug)]
pub struct CNodeCap {
    pub radix: u64,
    pub guard_size: u64,
    pub ptr: u64,
}

impl CNodeCap {
    pub fn empty() -> (r: Self)
        ensures
            r == (CNodeCap { radix: 0, guard_size: 0, ptr: 0 }),
    {
        CNodeCap { radix: 0, guard_size: 0, ptr: 0 }
    }

    pub fn with_cnode_radix(self, radix: u64) -> (r: Self)
        ensures
            r == (CNodeCap { radix, ..self }),
    {
        CNodeCap { radix, ..self }
    }

    pub fn with_cnode_guard_size(self, guard_size: u64) -> (r: Self)
        ensures
            r == (CNodeCap { guard_size, ..self }),
    {
        CNodeCap { guard_size, ..self }
    }

    pub fn with_cnode_ptr(self, ptr: u64) -> (r: Self)
        ensures
            r == (CNodeCap { ptr, ..self }),
    {
        CNodeCap { ptr, ..self }
    }

    pub fn get_cnode_radix(&self) -> (r: u64)
        ensures
            r == self.radix,
    {
        self.radix
    }

    pub fn get_cnode_guard_size(&self) -> (r: u64)
        ensures
            r == self.guard_size,
    {
        self.guard_size
    }

    pub fn get_cnode_ptr(&self) -> (r: u64)
        ensures
            r == self.ptr,
    {
        self.ptr
    }
}

impl CapTrait for CNodeCap {
    open spec fn raw_spec(&self) -> [u64; 2] {
        [TAG_CNODE | (self.radix & 0x3F) << 5 | (self.guard_size & 0x3F) << 11, self.ptr]
    }

    fn raw_cap(&self) -> (r: RawCap)
        ensures
            r.0 == self.raw_spec(),
    {
        RawCap([TAG_CNODE | (self.radix & 0x3F) << 5 | (self.guard_size & 0x3F) << 11, self.ptr])
    }
}

/// Names an address-space root, and the ASID it is bound to once mapped.
#[derive(Clone, Copy, PartialEq, Eq, Structural, Debug)]
pub struct VSpaceCap {
    pub vs_mapped_asid: u64,
    pub vs_base_ptr: KAddr,
    pub vs_is_mapped: bool,
}

impl VSpaceCap {
    pub fn empty() -> (r: Self)
        ensures
            r == (VSpaceCap { vs_mapped_asid: 0, vs_base_ptr: KAddr(0), vs_is_mapped: false }),
    {
        VSpaceCap { vs_mapped_asid: 0, vs_base_ptr: KAddr(0), vs_is_mapped: false }
    }

    pub fn with_vs_mapped_asid(self, vs_mapped_asid: u64) -> (r: Self)
        ensures
            r == (VSpaceCap { vs_mapped_asid, ..self }),
    {
        VSpaceCap { vs_mapped_asid, ..self }
    }

    pub fn with_vs_base_ptr(self, vs_base_ptr: KAddr) -> (r: Self)
        ensures
            r == (VSpaceCap { vs_base_ptr, ..self }),
    {
        VSpaceCap { vs_base_ptr, ..self }
    }

    pub fn with_vs_is_mapped(self, vs_is_mapped: bool) -> (r: Self)
        ensures
            r == (VSpaceCap { vs_is_mapped, ..self }),
    {
        VSpaceCap { vs_is_mapped, ..self }
    }

    pub fn get_vs_base_ptr(&self) -> (r: KAddr)
        ensures
            r == self.vs_base_ptr,
    {
        self.vs_base_ptr
    }

    pub fn get_vs_mapped_asid(&self) -> (r: u64)
        ensures
            r == self.vs_mapped_asid,
    {
        self.vs_mapped_asid
    }

    pub fn get_vs_is_mapped(&self) -> (r: bool)
        ensures
            r == self.vs_is_mapped,
    {
        self.vs_is_mapped
    }
}

impl CapTrait for VSpaceCap {
    open spec fn raw_spec(&self) -> [u64; 2] {
        [
            TAG_VSPACE | (if self.vs_is_mapped {
                0x20u64
            } else {
                0u64
            }) | (self.vs_mapped_asid & 0xFFFF) << 6,
            self.vs_base_ptr.0,
        ]
    }

    fn raw_cap(&self) -> (r: RawCap)
        ensures
            r.0 == self.raw_spec(),
    {
        let m: u64 = if self.vs_is_mapped {
            0x20
        } else {
            0
        };
        RawCap([TAG_VSPACE | m | (self.vs_mapped_asid & 0xFFFF) << 6, self.vs_base_ptr.0])
    }
}

/// Names one page table, where its storage lives, and where and under
/// which ASID it has been installed.
#[derive(Clone, Copy, PartialEq, Eq, Structural, Debug)]
pub struct PageTableCap {
    pub pt_base_ptr: KAddr,
    pub pt_is_mapped: bool,
    pub pt_mapped_asid: u64,
    pub pt_mapped_address: u64,
}

impl PageTableCap {
    pub fn empty() -> (r: Self)
        ensures
            r == (PageTableCap {
                pt_base_ptr: KAddr(0),
                pt_is_mapped: false,
                pt_mapped_asid: 0,
                pt_mapped_address: 0,
            }),
    {
        PageTableCap {
            pt_base_ptr: KAddr(0),
            pt_is_mapped: false,
            pt_mapped_asid: 0,
            pt_mapped_address: 0,
        }
    }

    pub fn with_pt_base_ptr(self, pt_base_ptr: KAddr) -> (r: Self)
        ensures
            r == (PageTableCap { pt_base_ptr, ..self }),
    {
        PageTableCap { pt_base_ptr, ..self }
    }

    pub fn with_pt_is_mapped(self, pt_is_mapped: bool) -> (r: Self)
        ensures
            r == (PageTableCap { pt_is_mapped, ..self }),
    {
        PageTableCap { pt_is_mapped, ..self }
    }

    pub fn with_pt_mapped_asid(self, pt_mapped_asid: u64) -> (r: Self)
        ensures
            r == (PageTableCap { pt_mapped_asid, ..self }),
    {
        PageTableCap { pt_mapped_asid, ..self }
    }

    pub fn with_pt_mapped_address(self, pt_mapped_address: u64) -> (r: Self)
        ensures
            r == (PageTableCap { pt_mapped_address, ..self }),
    {
        PageTableCap { pt_mapped_address, ..self }
    }

    pub fn get_pt_base_ptr(&self) -> (r: KAddr)
        ensures
            r == self.pt_base_ptr,
    {
        self.pt_base_ptr
    }

    pub fn get_pt_is_mapped(&self) -> (r: bool)
        ensures
            r == self.pt_is_mapped,
    {
        self.pt_is_mapped
    }

    pub fn get_pt_mapped_asid(&self) -> (r: u64)
        ensures
            r == self.pt_mapped_asid,
    {
        self.pt_mapped_asid
    }

    pub fn get_pt_mapped_address(&self) -> (r: u64)
        ensures
            r == self.pt_mapped_address,
    {
        self.pt_mapped_address
    }
}

impl CapTrait for PageTableCap {
    open spec fn raw_spec(&self) -> [u64; 2] {
        [
            TAG_PAGE_TABLE | (if self.pt_is_mapped {
                0x20u64
            } else {
                0u64
            }) | (self.pt_mapped_asid & 0xFFFF) << 6 | ((self.pt_mapped_address
                & 0xFFFF_FFFF_F000) >> 12) << 22,
            self.pt_base_ptr.0,
        ]
    }

    fn raw_cap(&self) -> (r: RawCap)
        ensures
            r.0 == self.raw_spec(),
    {
        let m: u64 = if self.pt_is_mapped {
            0x20
        } else {
            0
        };
        RawCap(
            [
                TAG_PAGE_TABLE | m | (self.pt_mapped_asid & 0xFFFF) << 6 | ((
                self.pt_mapped_address & 0xFFFF_FFFF_F000) >> 12) << 22,
                self.pt_base_ptr.0,
            ],
        )
    }
}

/// Names one physical frame, its size, and where and with which rights it
/// is mapped.
#[derive(Clone, Copy, PartialEq, Eq, Structural, Debug)]
pub struct FrameCap {
    pub mapped_asid: u64,
    pub base_ptr: KAddr,
    pub size: u64,
    pub mapped_address: u64,
    pub is_device: bool,
    pub fvm_rights: u64,
}

impl FrameCap {
    pub fn empty() -> (r: Self)
        ensures
            r == (FrameCap {
                mapped_asid: 0,
                base_ptr: KAddr(0),
                size: 0,
                mapped_address: 0,
                is_device: false,
                fvm_rights: 0,
            }),
    {
        FrameCap {
            mapped_asid: 0,
            base_ptr: KAddr(0),
            size: 0,
            mapped_address: 0,
            is_device: false,
            fvm_rights: 0,
        }
    }

    pub fn with_mapped_asid(self, mapped_asid: u64) -> (r: Self)
        ensures
            r == (FrameCap { mapped_asid, ..self }),
    {
        FrameCap { mapped_asid, ..self }
    }

    pub fn with_base_ptr(self, base_ptr: KAddr) -> (r: Self)
        ensures
            r == (FrameCap { base_ptr, ..self }),
    {
        FrameCap { base_ptr, ..self }
    }

    pub fn with_size(self, size: u64) -> (r: Self)
        ensures
            r == (FrameCap { size, ..self }),
    {
        FrameCap { size, ..self }
    }

    pub fn with_mapped_address(self, mapped_address: u64) -> (r: Self)
        ensures
            r == (FrameCap { mapped_address, ..self }),
    {
        FrameCap { mapped_address, ..self }
    }

    pub fn with_is_device(self, is_device: bool) -> (r: Self)
        ensures
            r == (FrameCap { is_device, ..self }),
    {
        FrameCap { is_device, ..self }
    }

    pub fn with_fvm_rights(self, fvm_rights: u64) -> (r: Self)
        ensures
            r == (FrameCap { fvm_rights, ..self }),
    {
        FrameCap { fvm_rights, ..self }
    }

    pub fn get_base_ptr(&self) -> (r: KAddr)
        ensures
            r == self.base_ptr,
    {
        self.base_ptr
    }

    pub fn get_mapped_address(&self) -> (r: u64)
        ensures
            r == self.mapped_address,
    {
        self.mapped_address
    }

    pub fn get_mapped_asid(&self) -> (r: u64)
        ensures
            r == self.mapped_asid,
    {
        self.mapped_asid
    }

    pub fn get_size(&self) -> (r: u64)
        ensures
            r == self.size,
    {
        self.size
    }

    pub fn get_is_device(&self) -> (r: bool)
        ensures
            r == self.is_device,
    {
        self.is_device
    }

    pub fn get_fvm_rights(&self) -> (r: u64)
        ensures
            r == self.fvm_rights,
    {
        self.fvm_rights
    }
}

impl CapTrait for FrameCap {
    open spec fn raw_spec(&self) -> [u64; 2] {
        [
            TAG_FRAME | (if self.is_device {
                0x20u64
            } else {
                0u64
            }) | (self.fvm_rights & 0x3) << 6 | ((self.size >> 12) & 0x1FF) << 8 | ((
            self.mapped_address & 0xFFFF_FFFF_F000) >> 12) << 17,
            (self.mapped_asid & 0xFFFF) << 48 | (self.base_ptr.0 & 0xFFFF_FFFF_FFFF),
        ]
    }

    fn raw_cap(&self) -> (r: RawCap)
        ensures
            r.0 == self.raw_spec(),
    {
        let d: u64 = if self.is_device {
            0x20
        } else {
            0
        };
        RawCap(
            [
                TAG_FRAME | d | (self.fvm_rights & 0x3) << 6 | ((self.size >> 12) & 0x1FF) << 8 | ((
                self.mapped_address & 0xFFFF_FFFF_F000) >> 12) << 17,
                (self.mapped_asid & 0xFFFF) << 48 | (self.base_ptr.0 & 0xFFFF_FFFF_FFFF),
            ],
        )
    }
}

/// Names one ASID pool and the base of the ASID range it manages.
#[derive(Clone, Copy, PartialEq, Eq, Structural, Debug)]
pub struct AsidPoolCap {
    pub asid_base: u64,
    pub asid_pool: u64,
}

impl AsidPoolCap {
    pub fn empty() -> (r: Self)
        ensures
            r == (AsidPoolCap { asid_base: 0, asid_pool: 0 }),
    {
        AsidPoolCap { asid_base: 0, asid_pool: 0 }
    }

    pub fn with_asid_base(self, asid_base: u64) -> (r: Self)
        ensures
            r == (AsidPoolCap { asid_base, ..self }),
    {
        AsidPoolCap { asid_base, ..self }
    }

    pub fn with_asid_pool(self, asid_pool: u64) -> (r: Self)
        ensures
            r == (AsidPoolCap { asid_pool, ..self }),
    {
        AsidPoolCap { asid_pool, ..self }
    }

    pub fn get_asid_base(&self) -> (r: u64)
        ensures
            r == self.asid_base,
    {
        self.asid_base
    }

    pub fn get_asid_pool(&self) -> (r: u64)
        ensures
            r == self.asid_pool,
    {
        self.asid_pool
    }
}

impl CapTrait for AsidPoolCap {
    open spec fn raw_spec(&self) -> [u64; 2] {
        [TAG_ASID_POOL | (self.asid_base & 0xFFFF) << 5, self.asid_pool]
    }

    fn raw_cap(&self) -> (r: RawCap)
        ensures
            r.0 == self.raw_spec(),
    {
        RawCap([TAG_ASID_POOL | (self.asid_base & 0xFFFF) << 5, self.asid_pool])
    }
}

/// The authority to create ASID pools.
#[derive(Clone, Copy, PartialEq, Eq, Structural, Debug)]
pub struct AsidControlCap;

impl AsidControlCap {
    pub fn empty() -> (r: Self)
        ensures
            r == AsidControlCap,
    {
        AsidControlCap
    }
}

impl CapTrait for AsidControlCap {
    open spec fn raw_spec(&self) -> [u64; 2] {
        [TAG_ASID_CONTROL, 0]
    }

    fn raw_cap(&self) -> (r: RawCap)
        ensures
            r.0 == self.raw_spec(),
    {
        RawCap([TAG_ASID_CONTROL, 0])
    }
}

/// The authority to set a thread's scheduling domain.
#[derive(Clone, Copy, PartialEq, Eq, Structural, Debug)]
pub struct DomainCap;

impl DomainCap {
    pub fn empty() -> (r: Self)
        ensures
            r == DomainCap,
    {
        DomainCap
    }
}

impl CapTrait for DomainCap {
    open spec fn raw_spec(&self) -> [u64; 2] {
        [TAG_DOMAIN, 0]
    }

    fn raw_cap(&self) -> (r: RawCap)
        ensures
            r.0 == self.raw_spec(),
    {
        RawCap([TAG_DOMAIN, 0])
    }
}

/// The authority to hand out interrupt handler capabilities.
#[derive(Clone, Copy, PartialEq, Eq, Structural, Debug)]
pub struct IrqControlCap;

impl IrqControlCap {
    pub fn empty() -> (r: Self)
        ensures
            r == IrqControlCap,
    {
        IrqControlCap
    }
}

impl CapTrait for IrqControlCap {
    open spec fn raw_spec(&self) -> [u64; 2] {
        [TAG_IRQ_CONTROL, 0]
    }

    fn raw_cap(&self) -> (r: RawCap)
        ensures
            r.0 == self.raw_spec(),
    {
        RawCap([TAG_IRQ_CONTROL, 0])
    }
}

/// One record of an ASID pool: the address-space root bound to one ASID.
#[derive(Clone, Copy, PartialEq, Eq, Structural, Debug)]
pub struct AsidMapVSpace {
    pub vspace_root: u64,
}

impl AsidMapVSpace {
    pub fn empty() -> (r: Self)
        ensures
            r == (AsidMapVSpace { vspace_root: 0 }),
    {
        AsidMapVSpace { vspace_root: 0 }
    }

    pub fn with_vspace_root(self, vspace_root: u64) -> (r: Self)
        ensures
            r == (AsidMapVSpace { vspace_root }),
    {
        AsidMapVSpace { vspace_root }
    }

    pub fn get_vspace_root(&self) -> (r: u64)
        ensures
            r == self.vspace_root,
    {
        self.vspace_root
    }
}

} // verus!
