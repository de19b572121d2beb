//! The root-server layout allocator: computes the total size of the
//! kernel objects backing the initial task, and carves a placed block into
//! per-object regions by strict bump allocation in a fixed order.
//!
//! Every object lands on an address aligned to its own size, and the bump
//! cursor finishes exactly at the block's end: any slack would be a sizing
//! bug, so it is ruled out by proof rather than by a runtime assertion.
use crate::addr::{
    bit, bit64, lemma_aligned_add, lemma_aligned_weaken, lemma_bit64_values, lemma_pow2_aligned,
    KAddr, KVirtRegion, VAddr, VirtRegion, PPTR_BASE, PPTR_TOP,
};
use crate::cap::{CNodeCap, CapTrait};
use crate::consts::{
    RootCNodeCapSlots, ASID_POOL_BITS, BOOT_INFO_FRAME_BITS, PAGE_BITS, ROOT_CNODE_SIZE_BITS,
    SLOT_BITS, TCB_BITS, VSPACE_BITS, WORD_BITS,
};
use crate::cspace::{written_slot, CNode};
use crate::mem::{arch_get_n_paging, n_paging_total, USER_VADDR_CEIL};
use vstd::prelude::*;

verus! {

/// The carved-out memory of the root server: one handle per kernel object
/// region, plus the paging region that later page-table allocations consume
/// by bump allocation.
pub struct RootServerMem {
    pub cnode: CNode,
    pub vspace: KAddr,
    pub asid_pool: KAddr,
    pub ipc_buf: KAddr,
    pub boot_info: KAddr,
    pub extra_bi: KAddr,
    pub tcb: KAddr,
    pub paging: KVirtRegion,
}

/// Size bits of the root capability node's backing storage: slot count
/// times slot size.
pub open spec fn cnode_size_bits_spec() -> u64 {
    (ROOT_CNODE_SIZE_BITS + SLOT_BITS) as u64
}

/// The placement alignment: the largest alignment requirement among the
/// capability node, the address-space root, and the extra boot info.
pub open spec fn max_size_bits_spec(extra_bi_size_bits: u64) -> u64 {
    if extra_bi_size_bits > cnode_size_bits_spec() {
        extra_bi_size_bits
    } else {
        cnode_size_bits_spec()
    }
}

/// Total bytes of the root-server block: the fixed-size objects, the
/// optional extra-boot-info block, and one page of working storage per
/// paging object the initial task's image needs.
pub open spec fn rootserver_size_spec(start: u64, end: u64, extra_bi_size_bits: u64) -> int {
    bit64(cnode_size_bits_spec()) + bit64(TCB_BITS) + bit64(PAGE_BITS) + bit64(
        BOOT_INFO_FRAME_BITS,
    ) + bit64(ASID_POOL_BITS) + bit64(VSPACE_BITS) + (if extra_bi_size_bits > 0 {
        bit64(extra_bi_size_bits) as int
    } else {
        0
    }) + n_paging_total(start, end) * bit64(PAGE_BITS)
}

/// The alignment every boot-time carve must satisfy.
pub fn rootserver_max_size_bits(extra_bi_size_bits: u64) -> (r: u64)
    ensures
        r == max_size_bits_spec(extra_bi_size_bits),
{
    let cnode_size_bits = ROOT_CNODE_SIZE_BITS + SLOT_BITS;
    if extra_bi_size_bits > cnode_size_bits {
        extra_bi_size_bits
    } else {
        cnode_size_bits
    }
}

/// Total bytes of the root-server block for the given initial-task virtual
/// region and extra-boot-info size.
pub fn calculate_rootserver_size(it_v_reg: VirtRegion, extra_bi_size_bits: u64) -> (r: u64)
    requires
        it_v_reg.start.0 <= it_v_reg.end.0,
        it_v_reg.end.0 < USER_VADDR_CEIL,
        extra_bi_size_bits == 0 || PAGE_BITS <= extra_bi_size_bits < 48,
    ensures
        r == rootserver_size_spec(it_v_reg.start.0, it_v_reg.end.0, extra_bi_size_bits),
        r < 0x2_0000_0000_0000,
{
    proof {
        lemma_bit64_values();
        vstd::arithmetic::power2::lemma2_to64();
        vstd::arithmetic::power2::lemma2_to64_rest();
    }
    let mut size = bit(ROOT_CNODE_SIZE_BITS + SLOT_BITS) + bit(TCB_BITS) + bit(PAGE_BITS) + bit(
        BOOT_INFO_FRAME_BITS,
    ) + bit(ASID_POOL_BITS) + bit(VSPACE_BITS);
    if extra_bi_size_bits > 0 {
        size = size + bit(extra_bi_size_bits);
    }
    let n = arch_get_n_paging(it_v_reg);
    size + n * bit(PAGE_BITS)
}

impl RootServerMem {
    /// Mint the capability naming the root capability node itself into its
    /// well-known slot.
    pub fn create_root_cnode(&mut self)
        requires
            RootCNodeCapSlots::InitThreadCNode.index_spec() < old(self).cnode.slots@.len(),
        ensures
            final(self).cnode.slots@ == old(self).cnode.slots@.update(
                RootCNodeCapSlots::InitThreadCNode.index_spec() as int,
                written_slot(
                    (CNodeCap {
                        radix: ROOT_CNODE_SIZE_BITS,
                        guard_size: (WORD_BITS - ROOT_CNODE_SIZE_BITS) as u64,
                        ptr: old(self).cnode.addr.0,
                    }).raw_spec(),
                ),
            ),
            final(self).cnode.addr == old(self).cnode.addr,
            final(self).vspace == old(self).vspace,
            final(self).asid_pool == old(self).asid_pool,
            final(self).ipc_buf == old(self).ipc_buf,
            final(self).boot_info == old(self).boot_info,
            final(self).extra_bi == old(self).extra_bi,
            final(self).tcb == old(self).tcb,
            final(self).paging == old(self).paging,
    {
        let cap = CNodeCap::empty().with_cnode_radix(ROOT_CNODE_SIZE_BITS).with_cnode_guard_size(
            WORD_BITS - ROOT_CNODE_SIZE_BITS,
        ).with_cnode_ptr(self.cnode.cnode_addr().raw());
        let slot = RootCNodeCapSlots::InitThreadCNode.index();
        self.cnode.write(slot, &cap);
    }

    /// Hand out the next page of page-table working storage.
    pub fn alloc_paging(&mut self) -> (r: KAddr)
        requires
            old(self).paging.start.0 % bit64(PAGE_BITS) == 0,
            old(self).paging.start.0 + bit64(PAGE_BITS) <= old(self).paging.end.0,
        ensures
            r == old(self).paging.start,
            r.0 % bit64(PAGE_BITS) == 0,
            final(self).paging.start.0 == old(self).paging.start.0 + bit64(PAGE_BITS),
            final(self).paging.end == old(self).paging.end,
            final(self).cnode == old(self).cnode,
            final(self).vspace == old(self).vspace,
            final(self).asid_pool == old(self).asid_pool,
            final(self).ipc_buf == old(self).ipc_buf,
            final(self).boot_info == old(self).boot_info,
            final(self).extra_bi == old(self).extra_bi,
            final(self).tcb == old(self).tcb,
    {
        let allocated = self.paging.alloc_rootserver_obj(PAGE_BITS, 1);
        allocated
    }
}

/// How a carved root-server block at `start` is laid out for an initial
/// task spanning `[vstart, vend)` with the given extra-boot-info size: each
/// object sits at its exact offset, aligned to its own size, and the block
/// is consumed without slack.
pub open spec fn rsm_layout(
    r: RootServerMem,
    start: u64,
    vstart: u64,
    vend: u64,
    extra_bi_size_bits: u64,
) -> bool {
    let size = rootserver_size_spec(vstart, vend, extra_bi_size_bits);
    let n = n_paging_total(vstart, vend);
    let ebi_first: int = if extra_bi_size_bits >= cnode_size_bits_spec() {
        bit64(extra_bi_size_bits) as int
    } else {
        0
    };
    let ebi_mid: int = if 0 < extra_bi_size_bits < cnode_size_bits_spec() {
        bit64(extra_bi_size_bits) as int
    } else {
        0
    };
    &&& r.cnode.addr.0 == start + ebi_first
    &&& r.cnode.addr.0 % bit64(cnode_size_bits_spec()) == 0
    &&& r.cnode.slots@.len() == crate::cspace::ROOT_CNODE_SLOTS
    &&& (forall|i: int|
        0 <= i < crate::cspace::ROOT_CNODE_SLOTS ==> r.cnode.slots@[i]
            == crate::cspace::zero_slot())
    &&& (extra_bi_size_bits > 0 ==> r.extra_bi.0 == (if extra_bi_size_bits
        >= cnode_size_bits_spec() {
        start as int
    } else {
        start + bit64(cnode_size_bits_spec())
    }) && r.extra_bi.0 % bit64(extra_bi_size_bits) == 0)
    &&& (extra_bi_size_bits == 0 ==> r.extra_bi.0 == 0)
    &&& r.vspace.0 == start + ebi_first + bit64(cnode_size_bits_spec()) + ebi_mid
    &&& r.vspace.0 % bit64(VSPACE_BITS) == 0
    &&& r.asid_pool.0 == r.vspace.0 + bit64(VSPACE_BITS)
    &&& r.asid_pool.0 % bit64(ASID_POOL_BITS) == 0
    &&& r.ipc_buf.0 == r.asid_pool.0 + bit64(ASID_POOL_BITS)
    &&& r.ipc_buf.0 % bit64(PAGE_BITS) == 0
    &&& r.boot_info.0 == r.ipc_buf.0 + bit64(PAGE_BITS)
    &&& r.boot_info.0 % bit64(BOOT_INFO_FRAME_BITS) == 0
    &&& r.paging.start.0 == r.boot_info.0 + bit64(BOOT_INFO_FRAME_BITS)
    &&& r.paging.start.0 % bit64(PAGE_BITS) == 0
    &&& r.paging.end.0 == r.paging.start.0 + n * bit64(PAGE_BITS)
    &&& r.tcb.0 == r.paging.end.0
    &&& r.tcb.0 % bit64(TCB_BITS) == 0
    &&& r.tcb.0 + bit64(TCB_BITS) == start + size
    &&& PPTR_BASE <= start
    &&& start + size <= PPTR_TOP
}

/// Carve the placed block at `start` into the root server's object regions
/// by strict bump allocation in a fixed order. Each object's address is
/// aligned to the object's own size, and the cursor finishes exactly at
/// `start + size`: the block is consumed without slack.
pub fn create_rootserver_objects(
    start: KAddr,
    it_v_reg: VirtRegion,
    extra_bi_size_bits: u64,
) -> (r: RootServerMem)
    requires
        it_v_reg.start.0 <= it_v_reg.end.0,
        it_v_reg.end.0 < USER_VADDR_CEIL,
        extra_bi_size_bits == 0 || PAGE_BITS <= extra_bi_size_bits < 48,
        start.0 % bit64(max_size_bits_spec(extra_bi_size_bits)) == 0,
        PPTR_BASE <= start.0,
        start.0 + rootserver_size_spec(it_v_reg.start.0, it_v_reg.end.0, extra_bi_size_bits)
            <= PPTR_TOP,
    ensures
        rsm_layout(r, start.0, it_v_reg.start.0, it_v_reg.end.0, extra_bi_size_bits),
{
    proof {
        lemma_bit64_values();
        vstd::arithmetic::power2::lemma2_to64();
        vstd::arithmetic::power2::lemma2_to64_rest();
    }
    let cnode_size_bits = ROOT_CNODE_SIZE_BITS + SLOT_BITS;
    let max = rootserver_max_size_bits(extra_bi_size_bits);
    let size = calculate_rootserver_size(it_v_reg, extra_bi_size_bits);

    let mut virt_region = KVirtRegion::new(start, KAddr(start.0 + size));
    let mut extra_bi = KAddr(0);

    if extra_bi_size_bits >= max && extra_bi.is_null() {
        // The extra boot info dominates the alignment: it must come first.
        extra_bi = virt_region.alloc_rootserver_obj(extra_bi_size_bits, 1);
    }

    proof {
        if extra_bi_size_bits >= cnode_size_bits_spec() {
            lemma_aligned_weaken(start.0, max_size_bits_spec(extra_bi_size_bits), 17);
            lemma_pow2_aligned(extra_bi_size_bits, cnode_size_bits_spec());
            lemma_aligned_add(start.0, bit64(extra_bi_size_bits), cnode_size_bits_spec());
        } else {
            lemma_aligned_weaken(start.0, max_size_bits_spec(extra_bi_size_bits), 17);
        }
    }
    let cnode_ptr = virt_region.alloc_rootserver_obj(cnode_size_bits, 1);
    let cnode = CNode::new(VAddr::new(cnode_ptr.raw()));

    if extra_bi_size_bits >= VSPACE_BITS && extra_bi.is_null() {
        // The extra boot info still needs page alignment: place it right
        // after the capability node.
        proof {
            lemma_aligned_weaken(cnode_ptr.0, 17, extra_bi_size_bits);
            lemma_pow2_aligned(17, extra_bi_size_bits);
            lemma_aligned_add(cnode_ptr.0, bit64(17), extra_bi_size_bits);
        }
        extra_bi = virt_region.alloc_rootserver_obj(extra_bi_size_bits, 1);
    }

    proof {
        lemma_cursor_aligned_12(
            start.0,
            cnode_ptr.0,
            virt_region.start.0,
            extra_bi_size_bits,
            max,
        );
    }
    let vspace = virt_region.alloc_rootserver_obj(VSPACE_BITS, 1);

    if extra_bi_size_bits >= PAGE_BITS && extra_bi.is_null() {
        // Unreachable: an extra boot info at least a page big was already
        // placed by one of the earlier checks.
        extra_bi = virt_region.alloc_rootserver_obj(extra_bi_size_bits, 1);
    }

    proof {
        lemma_aligned_add(vspace.0, bit64(12), 12);
    }
    let asid_pool = virt_region.alloc_rootserver_obj(ASID_POOL_BITS, 1);
    proof {
        lemma_aligned_add(asid_pool.0, bit64(12), 12);
    }
    let ipc_buf = virt_region.alloc_rootserver_obj(PAGE_BITS, 1);
    proof {
        lemma_aligned_add(ipc_buf.0, bit64(12), 12);
    }
    let boot_info = virt_region.alloc_rootserver_obj(BOOT_INFO_FRAME_BITS, 1);
    proof {
        lemma_aligned_add(boot_info.0, bit64(12), 12);
    }

    let n = arch_get_n_paging(it_v_reg);
    let paging_start = virt_region.alloc_rootserver_obj(PAGE_BITS, n);
    let paging = KVirtRegion::new(paging_start, KAddr(paging_start.raw() + n * bit(PAGE_BITS)));

    proof {
        lemma_aligned_weaken(paging_start.0, 12, 11);
        vstd::arithmetic::div_mod::lemma_mod_multiples_basic(
            n as int,
            bit64(PAGE_BITS) as int,
        );
        lemma_mul_aligned(n, PAGE_BITS, TCB_BITS);
        lemma_aligned_add(paging_start.0, (n * bit64(PAGE_BITS)) as u64, TCB_BITS);
    }
    let tcb = virt_region.alloc_rootserver_obj(TCB_BITS, 1);

    proof {
        // The bump cursor has consumed the block exactly.
        assert(virt_region.start.0 == virt_region.end.0);
    }
    RootServerMem { cnode, vspace, asid_pool, ipc_buf, boot_info, extra_bi, tcb, paging }
}

/// A multiple of 2^m is aligned to every power of two not above 2^m.
proof fn lemma_mul_aligned(n: u64, m: u64, k: u64)
    requires
        k <= m < 64,
        n * bit64(m) <= u64::MAX,
    ensures
        ((n * bit64(m)) as u64) % bit64(k) == 0,
{
    vstd::bits::lemma_u64_pow2_no_overflow(m as nat);
    vstd::arithmetic::div_mod::lemma_mod_multiples_basic(n as int, bit64(m) as int);
    assert(((n * bit64(m)) as u64) % bit64(m) == 0);
    lemma_aligned_weaken((n * bit64(m)) as u64, m, k);
}

/// After the optional leading extra-boot-info block, the capability node,
/// and the optional middle extra-boot-info block, the cursor is page
/// aligned.
proof fn lemma_cursor_aligned_12(start: u64, cnode_ptr: u64, cur: u64, extra: u64, max: u64)
    requires
        max == max_size_bits_spec(extra),
        extra == 0 || 12 <= extra < 48,
        start % bit64(max) == 0,
        cnode_ptr % bit64(17) == 0,
        cnode_ptr + bit64(17) <= u64::MAX,
        cur == cnode_ptr + bit64(17) + (if 0 < extra < 17 {
            bit64(extra) as int
        } else {
            0
        }),
        cur <= u64::MAX,
    ensures
        cur % bit64(12) == 0,
{
    lemma_bit64_values();
    vstd::arithmetic::power2::lemma2_to64();
    lemma_aligned_weaken(cnode_ptr, 17, 12);
    lemma_pow2_aligned(17, 12);
    lemma_aligned_add(cnode_ptr, bit64(17), 12);
    if 0 < extra < 17 {
        lemma_pow2_aligned(extra, 12);
        lemma_aligned_add((cnode_ptr + bit64(17)) as u64, bit64(extra), 12);
    }
}

} // verus!
