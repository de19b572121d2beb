//! ASID management: the bounded table of ASID pools and the binding of an
//! address-space root to an ASID. Both structures stay live after boot and
//! are then lock-protected; during the single-core bootstrap the boot
//! procedure owns them exclusively.
use crate::addr::KAddr;
use crate::cap::AsidMapVSpace;
use vstd::prelude::*;

verus! {

/// Entries of one ASID pool: 2^9.
pub const ASID_POOL_SLOTS: usize = 512;

/// Entries of the global pool table: 2^7.
pub const ASID_TABLE_SLOTS: usize = 128;

/// One ASID pool: an address-space-root record per ASID in its range.
pub struct AsidPool {
    pub slots: Vec<AsidMapVSpace>,
}

impl AsidPool {
    pub open spec fn wf(self) -> bool {
        self.slots@.len() == ASID_POOL_SLOTS
    }

    /// A pool with no bindings, as its zero-filled backing memory holds it.
    pub fn new() -> (r: Self)
        ensures
            r.wf(),
            forall|i: int|
                0 <= i < ASID_POOL_SLOTS ==> r.slots@[i] == (AsidMapVSpace { vspace_root: 0u64 }),
    {
        let mut slots: Vec<AsidMapVSpace> = Vec::new();
        let mut i: usize = 0;
        while i < ASID_POOL_SLOTS
            invariant
                i <= ASID_POOL_SLOTS,
                slots@.len() == i,
                forall|j: int|
                    0 <= j < i ==> slots@[j] == (AsidMapVSpace { vspace_root: 0u64 }),
            decreases ASID_POOL_SLOTS - i,
        {
            slots.push(AsidMapVSpace { vspace_root: 0 });
            i = i + 1;
        }
        AsidPool { slots }
    }
}

/// The global table recording where each ASID range's pool lives.
pub struct AsidTable {
    pub pools: Vec<KAddr>,
}

impl AsidTable {
    pub open spec fn wf(self) -> bool {
        self.pools@.len() == ASID_TABLE_SLOTS
    }

    /// No pools registered.
    pub fn new() -> (r: Self)
        ensures
            r.wf(),
            forall|i: int| 0 <= i < ASID_TABLE_SLOTS ==> r.pools@[i] == KAddr(0u64),
    {
        let mut pools: Vec<KAddr> = Vec::new();
        let mut i: usize = 0;
        while i < ASID_TABLE_SLOTS
            invariant
                i <= ASID_TABLE_SLOTS,
                pools@.len() == i,
                forall|j: int| 0 <= j < i ==> pools@[j] == KAddr(0u64),
            decreases ASID_TABLE_SLOTS - i,
        {
            pools.push(KAddr(0));
            i = i + 1;
        }
        AsidTable { pools }
    }
}

/// Bind an address-space root to an ASID: record the root in the pool at
/// the ASID's low-bit index, and the pool's base in the global table at its
/// high-bit index.
pub fn bind_asid(
    table: &mut AsidTable,
    pool: &mut AsidPool,
    pool_base: KAddr,
    asid: u64,
    vspace_root: u64,
)
    requires
        old(table).wf(),
        old(pool).wf(),
        asid < 0x1_0000,
    ensures
        final(pool).wf(),
        final(table).wf(),
        final(pool).slots@ == old(pool).slots@.update(
            (asid & 0x1FF) as int,
            (AsidMapVSpace { vspace_root }),
        ),
        final(table).pools@ == old(table).pools@.update((asid >> 9) as int, pool_base),
{
    proof {
        let a = asid;
        assert(a < 0x1_0000 ==> ((a & 0x1FFu64) < 512 && (a >> 9u64) < 128)) by (bit_vector);
    }
    let low = (asid & 0x1FF) as usize;
    let high = (asid >> 9) as usize;
    pool.slots[low] = AsidMapVSpace { vspace_root };
    table.pools[high] = pool_base;
}

} // verus!
