//! The capability space of the initial task: one capability node, a dense
//! array of capability slots.
//!
//! The node owns its slots. Each write wraps the capability's raw payload
//! in a fresh mapping-database node with `revocable` and `first badged`
//! set: bootstrap capabilities are always fresh, unbadged derivations.
use crate::addr::VAddr;
use crate::cap::{CapTrait, DomainCap, RawCap};
use crate::consts::{RootCNodeCapSlots, ROOT_CNODE_SIZE_BITS};
use crate::mdb::MDBNode;
use vstd::prelude::*;

verus! {

/// Number of slots of the initial task's root capability node.
pub const ROOT_CNODE_SLOTS: usize = 4096;

/// One capability slot: a raw capability payload with its mapping-database
/// linkage.
pub type CapSlot = MDBNode<RawCap>;

/// The slot an empty node holds at every index.
pub open spec fn zero_slot() -> CapSlot {
    MDBNode { value: RawCap([0u64, 0u64]), next: 0u64, prev: 0u64 }
}

/// The slot `CNode::write` stores for a given raw payload: linkage fresh,
/// `revocable` and `first badged` set (the low two bits of `next`).
pub open spec fn written_slot(raw: [u64; 2]) -> CapSlot {
    MDBNode { value: RawCap(raw), next: 3u64, prev: 0u64 }
}

/// A capability node: the base address its slot array will live at, and
/// the slots themselves, exclusively owned by this node.
pub struct CNode {
    pub addr: VAddr,
    pub slots: Vec<CapSlot>,
}

impl CNode {
    /// Slot `i` holds the raw payload of `cap` with fresh bootstrap
    /// linkage.
    pub open spec fn slot_is(self, i: int, raw: [u64; 2]) -> bool {
        &&& 0 <= i < self.slots@.len()
        &&& self.slots@[i] == written_slot(raw)
    }

    /// A node with 2^ROOT_CNODE_SIZE_BITS empty slots at `addr`, modeling
    /// the zero-filled memory the allocation handed over.
    pub fn new(addr: VAddr) -> (r: Self)
        ensures
            r.addr == addr,
            r.slots@.len() == ROOT_CNODE_SLOTS,
            forall|i: int| 0 <= i < ROOT_CNODE_SLOTS ==> r.slots@[i] == zero_slot(),
    {
        let mut slots: Vec<CapSlot> = Vec::new();
        let mut i: usize = 0;
        while i < ROOT_CNODE_SLOTS
            invariant
                i <= ROOT_CNODE_SLOTS,
                slots@.len() == i,
                forall|j: int| 0 <= j < i ==> slots@[j] == zero_slot(),
            decreases ROOT_CNODE_SLOTS - i,
        {
            slots.push(MDBNode { value: RawCap([0, 0]), next: 0, prev: 0 });
            i = i + 1;
        }
        CNode { addr, slots }
    }

    /// The address the node's slot array lives at.
    pub fn cnode_addr(&self) -> (r: VAddr)
        ensures
            r == self.addr,
    {
        self.addr
    }

    /// Store a capability at slot `offset`, wrapped in a fresh
    /// mapping-database node with `revocable` and `first badged` set.
    pub fn write<C: CapTrait>(&mut self, offset: usize, cap: &C)
        requires
            offset < old(self).slots@.len(),
        ensures
            final(self).slots@ == old(self).slots@.update(
                offset as int,
                written_slot(cap.raw_spec()),
            ),
            final(self).addr == old(self).addr,
    {
        let mut mdb_node = MDBNode::new(cap.raw_cap());
        mdb_node.set_first_badged(true);
        mdb_node.set_revocable(true);
        proof {
            assert(0u64 & !0x2u64 | 0x2u64 == 2u64) by (bit_vector);
            assert(2u64 & !0x1u64 | 0x1u64 == 3u64) by (bit_vector);
        }
        self.slots[offset] = mdb_node;
    }

    /// Mint the domain capability into its well-known slot.
    pub fn create_domain_cap(&mut self)
        requires
            old(self).slots@.len() == ROOT_CNODE_SLOTS,
        ensures
            final(self).slots@ == old(self).slots@.update(
                RootCNodeCapSlots::Domain.index_spec() as int,
                written_slot([crate::cap::TAG_DOMAIN, 0]),
            ),
            final(self).addr == old(self).addr,
    {
        let cap = DomainCap::empty();
        self.write(RootCNodeCapSlots::Domain.index(), &cap);
    }
}

} // verus!
