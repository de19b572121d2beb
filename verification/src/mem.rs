//! Architecture-level memory layout helpers: the kernel image's physical
//! footprint, the page-table working-storage count for the four-level
//! translation scheme, and the architecture's free-memory setup.
use crate::addr::{bit64, KVirtRegion, PAddr, PhysRegion, VirtRegion, PPTR_BASE, WINDOW_SIZE};
use crate::boot::{
    covers, get_n_paging, in_region, init_free_mem, kvirt_phys_pairs, n_paging_spec, BootError,
    NdksBoot,
};
use crate::consts::{PAGE_BITS, PAGE_TABLE_INDEX_BITS, TCB_BITS};
use crate::platform::{plat_mem_regions, PADDR_ELF_ADDR};
use crate::root_server::{rootserver_size_spec, rsm_layout, RootServerMem};
use vstd::arithmetic::power2::{lemma2_to64, lemma2_to64_rest};
use vstd::prelude::*;

verus! {

/// Ceiling of user-space virtual addresses the four-level translation
/// scheme can name: 48 bits.
pub const USER_VADDR_CEIL: u64 = 0x1_0000_0000_0000;

/// The physical region the kernel image occupies: from its load address to
/// the end of its last section, which the linker provides and the caller
/// hands in.
pub fn get_kernel_img_phys_region(kernel_img_end: PAddr) -> (r: PhysRegion)
    ensures
        r.start.0 == PADDR_ELF_ADDR,
        r.end == kernel_img_end,
{
    PhysRegion { start: PAddr(PADDR_ELF_ADDR), end: kernel_img_end }
}

/// Total paging objects needed to span a virtual region: one second-level
/// table per 512-GiB chunk, one third-level per 1-GiB chunk, one
/// fourth-level per 2-MiB chunk.
pub open spec fn n_paging_total(start: u64, end: u64) -> int {
    n_paging_spec(start, end, (3 * PAGE_TABLE_INDEX_BITS + PAGE_BITS) as u64) + n_paging_spec(
        start,
        end,
        (2 * PAGE_TABLE_INDEX_BITS + PAGE_BITS) as u64,
    ) + n_paging_spec(start, end, (PAGE_TABLE_INDEX_BITS + PAGE_BITS) as u64)
}

/// Count the page tables needed to span the initial task's virtual region
/// at every level below the root.
pub fn arch_get_n_paging(it_v_reg: VirtRegion) -> (r: u64)
    requires
        it_v_reg.start.0 <= it_v_reg.end.0,
        it_v_reg.end.0 < USER_VADDR_CEIL,
    ensures
        r == n_paging_total(it_v_reg.start.0, it_v_reg.end.0),
        r < 0x2000_0000,
{
    proof {
        lemma2_to64();
        lemma2_to64_rest();
    }
    let n39 = get_n_paging(it_v_reg, 3 * PAGE_TABLE_INDEX_BITS + PAGE_BITS);
    let n30 = get_n_paging(it_v_reg, 2 * PAGE_TABLE_INDEX_BITS + PAGE_BITS);
    let n21 = get_n_paging(it_v_reg, PAGE_TABLE_INDEX_BITS + PAGE_BITS);
    proof {
        let s = it_v_reg.start.0;
        let e = it_v_reg.end.0;
        assert(n39 * bit64(39) < USER_VADDR_CEIL + bit64(39));
        assert(n39 <= 0x200) by (nonlinear_arith)
            requires
                n39 * 0x80_0000_0000u64 < 0x1_0000_0000_0000u64 + 0x80_0000_0000u64,
        ;
        assert(n30 * bit64(30) < USER_VADDR_CEIL + bit64(30));
        assert(n30 <= 0x4_0000) by (nonlinear_arith)
            requires
                n30 * 0x4000_0000u64 < 0x1_0000_0000_0000u64 + 0x4000_0000u64,
        ;
        assert(n21 * bit64(21) < USER_VADDR_CEIL + bit64(21));
        assert(n21 <= 0x800_0000) by (nonlinear_arith)
            requires
                n21 * 0x20_0000u64 < 0x1_0000_0000_0000u64 + 0x20_0000u64,
        ;
    }
    n39 + n30 + n21
}

/// Reserve the kernel image and the initial task's image out of the
/// platform's available memory, then build the free-memory registry and
/// carve the root server: the architecture's two fixed reservations in
/// front of the generic sweep.
///
/// On success, the reserved list covers exactly the two images, the free
/// list covers exactly the rest of the platform's memory window minus the
/// carved root-server block, and the root-server memory is laid out at the
/// block's base.
pub fn arch_init_free_mem(
    ui_p_reg: PhysRegion,
    it_v_reg: VirtRegion,
    extra_bi_size_bits: u64,
    kernel_img_end: PAddr,
) -> (result: Result<(NdksBoot, RootServerMem), BootError>)
    requires
        PADDR_ELF_ADDR < kernel_img_end.0,
        kernel_img_end.0 <= ui_p_reg.start.0,
        ui_p_reg.start.0 < ui_p_reg.end.0,
        ui_p_reg.end.0 < WINDOW_SIZE,
        it_v_reg.start.0 <= it_v_reg.end.0,
        it_v_reg.end.0 < USER_VADDR_CEIL,
        extra_bi_size_bits == 0 || PAGE_BITS <= extra_bi_size_bits < 48,
    ensures
        match result {
            Ok(pair) => {
                let nb = pair.0;
                let rsm = pair.1;
                let size = rootserver_size_spec(
                    it_v_reg.start.0,
                    it_v_reg.end.0,
                    extra_bi_size_bits,
                );
                let base = ((rsm.tcb.0 + bit64(TCB_BITS)) - size) as u64;
                &&& nb.resv_wf()
                &&& (forall|p: int|
                    covers(nb.resv(), p) <==> (PADDR_ELF_ADDR <= p < kernel_img_end.0 || (
                    ui_p_reg.start.0 <= p < ui_p_reg.end.0)))
                &&& rsm_layout(
                    rsm,
                    base,
                    it_v_reg.start.0,
                    it_v_reg.end.0,
                    extra_bi_size_bits,
                )
                &&& (forall|x: int|
                    covers(nb.free(), x) <==> (0x4000_0000 + PPTR_BASE <= x < 0x8000_0000
                        + PPTR_BASE && !(PADDR_ELF_ADDR + PPTR_BASE <= x < kernel_img_end.0
                        + PPTR_BASE) && !(ui_p_reg.start.0 + PPTR_BASE <= x < ui_p_reg.end.0
                        + PPTR_BASE) && !(base <= x < base + size)))
                &&& nb.slot_pos_cur == 0
            },
            Err(e) => e == BootError::NoRootServerRegion,
        },
        ({
            let ac = seq![((0x4000_0000 + PPTR_BASE) as u64, (0x8000_0000 + PPTR_BASE) as u64)];
            let rs2 = seq![
                ((PADDR_ELF_ADDR + PPTR_BASE) as u64, (kernel_img_end.0 + PPTR_BASE) as u64),
                ((ui_p_reg.start.0 + PPTR_BASE) as u64, (ui_p_reg.end.0 + PPTR_BASE) as u64),
            ];
            let swept = crate::boot::sweep_free_list(ac, rs2);
            let size = rootserver_size_spec(
                it_v_reg.start.0,
                it_v_reg.end.0,
                extra_bi_size_bits,
            ) as u64;
            let max = crate::root_server::max_size_bits_spec(extra_bi_size_bits);
            result is Ok <==> exists|i: int|
                0 <= i < swept.len() && crate::boot::placement_fits(
                    #[trigger] swept[i],
                    size,
                    max,
                )
        }),
{
    let availables = plat_mem_regions();
    let kernel_img = get_kernel_img_phys_region(kernel_img_end);
    let mut reserved: Vec<KVirtRegion> = Vec::new();
    reserved.push(kernel_img.pptr());
    reserved.push(ui_p_reg.pptr());
    proof {
        assert(crate::boot::avail_wf(availables@));
        assert(crate::boot::to_reserve_wf(reserved@));
    }
    let result = init_free_mem(&availables, &reserved, it_v_reg, extra_bi_size_bits);
    proof {
        // Both reservations are nonempty, so filtering null entries is the
        // identity here.
        let r0 = reserved@;
        let e0 = r0.drop_last().drop_last();
        assert(e0.len() == 0);
        assert(crate::boot::nonnull_entries(e0) == Seq::<KVirtRegion>::empty());
        let d1 = r0.drop_last();
        assert(d1.drop_last() =~= e0);
        assert(d1.drop_last() == e0);
        assert(!crate::boot::null_entry(d1.last()));
        assert(crate::boot::nonnull_entries(d1) == crate::boot::nonnull_entries(e0).push(
            d1.last(),
        ));
        assert(!crate::boot::null_entry(r0.last()));
        assert(crate::boot::nonnull_entries(r0) == crate::boot::nonnull_entries(d1).push(
            r0.last(),
        ));
        assert(crate::boot::nonnull_entries(r0) =~= r0);
        assert(crate::boot::nonnull_entries(reserved@) == reserved@);
        let ac2 = seq![((0x4000_0000 + PPTR_BASE) as u64, (0x8000_0000 + PPTR_BASE) as u64)];
        let rs2 = seq![
            ((PADDR_ELF_ADDR + PPTR_BASE) as u64, (kernel_img_end.0 + PPTR_BASE) as u64),
            ((ui_p_reg.start.0 + PPTR_BASE) as u64, (ui_p_reg.end.0 + PPTR_BASE) as u64),
        ];
        assert(crate::boot::avail_clipped(availables@) =~= ac2);
        assert(crate::boot::kvirt_pairs(reserved@) =~= rs2);
        assert(crate::boot::sweep_free_list(crate::boot::avail_clipped(availables@),
            crate::boot::kvirt_pairs(reserved@)) == crate::boot::sweep_free_list(ac2, rs2));
        if result is Ok {
            let nb = result->Ok_0.0;
            let rp = kvirt_phys_pairs(reserved@);
            assert(rp.len() == 2);
            assert(rp[0] == (PADDR_ELF_ADDR as u64, kernel_img_end.0));
            assert(rp[1] == (ui_p_reg.start.0, ui_p_reg.end.0));
            assert forall|p: int|
                covers(nb.resv(), p) <==> (PADDR_ELF_ADDR <= p < kernel_img_end.0 || (
            ui_p_reg.start.0 <= p < ui_p_reg.end.0)) by {
                if PADDR_ELF_ADDR <= p < kernel_img_end.0 {
                    assert(in_region(rp[0], p));
                    assert(covers(rp, p));
                }
                if ui_p_reg.start.0 <= p < ui_p_reg.end.0 {
                    assert(in_region(rp[1], p));
                    assert(covers(rp, p));
                }
                if covers(rp, p) {
                    let i = choose|i: int| 0 <= i < rp.len() && in_region(#[trigger] rp[i], p);
                }
            }
            let ac = crate::boot::avail_clipped(availables@);
            let rs = crate::boot::kvirt_pairs(reserved@);
            assert(ac.len() == 1);
            assert(ac[0] == ((0x4000_0000 + PPTR_BASE) as u64, (0x8000_0000 + PPTR_BASE) as u64));
            assert(rs[0] == ((PADDR_ELF_ADDR + PPTR_BASE) as u64, (kernel_img_end.0
                + PPTR_BASE) as u64));
            assert(rs[1] == ((ui_p_reg.start.0 + PPTR_BASE) as u64, (ui_p_reg.end.0
                + PPTR_BASE) as u64));
            assert forall|x: int| covers(ac, x) <==> (0x4000_0000 + PPTR_BASE <= x < 0x8000_0000
                + PPTR_BASE) by {
                if 0x4000_0000 + PPTR_BASE <= x < 0x8000_0000 + PPTR_BASE {
                    assert(in_region(ac[0], x));
                }
            }
            assert forall|x: int|
                covers(rs, x) <==> ((PADDR_ELF_ADDR + PPTR_BASE <= x < kernel_img_end.0
                    + PPTR_BASE) || (ui_p_reg.start.0 + PPTR_BASE <= x < ui_p_reg.end.0
                    + PPTR_BASE)) by {
                if PADDR_ELF_ADDR + PPTR_BASE <= x < kernel_img_end.0 + PPTR_BASE {
                    assert(in_region(rs[0], x));
                }
                if ui_p_reg.start.0 + PPTR_BASE <= x < ui_p_reg.end.0 + PPTR_BASE {
                    assert(in_region(rs[1], x));
                }
                if covers(rs, x) {
                    let i = choose|i: int| 0 <= i < rs.len() && in_region(#[trigger] rs[i], x);
                }
            }
        }
    }
    result
}

} // verus!
