//! Minting the initial task's capabilities: its address space, its
//! boot-info and IPC-buffer frames, the frames of its image, and its ASID
//! pool, each recorded in the root capability node as it is created.
use crate::addr::{bit, bit64, KAddr, KVirtRegion, PAddr, VAddr, VirtRegion, PPTR_BASE, PPTR_TOP};
use crate::boot::NdksBoot;
use crate::boot_info::BootInfo;
use crate::mem::n_paging_total;
use crate::cap::{
    AsidControlCap, AsidPoolCap, CapTrait, FrameCap, PageTableCap, VSpaceCap, TAG_ASID_CONTROL,
};
use crate::consts::{
    RootCNodeCapSlots, ASID_POOL_INDEX_BITS, IT_ASID, NUM_CONTEXT_REGS, PAGE_BITS,
    PAGE_TABLE_INDEX_BITS,
};
use crate::cspace::{written_slot, CNode};
use crate::root_server::RootServerMem;
use crate::pte::{page_desc, PTE};
use crate::vspace::{
    level_index_spec,
    frame_walk_ok, leaf_tables_injective, leaf_tables_separate, lemma_leaf_write_preserves_walks,
    walk_pd, walk_pt,
    walk_pud, PTMem, VSpace,
};
use vstd::prelude::*;

verus! {

/// Architecture-specific part of a thread control block: the saved user
/// context.
pub struct ArchTCB {
    pub context: UserContext,
}

/// The saved user-mode register file.
pub struct UserContext {
    pub regs: [u64; NUM_CONTEXT_REGS],
}

/// The page-table capability minted for the chunk at `addr`, backed by the
/// paging page at `base`.
pub open spec fn it_pt_cap(base: u64, addr: u64) -> PageTableCap {
    PageTableCap {
        pt_base_ptr: KAddr(base),
        pt_is_mapped: true,
        pt_mapped_asid: IT_ASID,
        pt_mapped_address: addr,
    }
}

/// Which chunk of granularity `p`, counted from `lo`, the address `va`
/// falls in.
pub open spec fn chunk_of(lo: u64, va: u64, p: u64) -> int {
    (va - lo) / (p as int)
}

/// Chunk counting from an aligned base agrees with dividing the addresses
/// themselves.
proof fn lemma_chunk_offset(lo: u64, va: u64, p: u64)
    requires
        p > 0,
        lo % p == 0,
        lo <= va,
    ensures
        chunk_of(lo, va, p) == va as int / p as int - lo as int / p as int,
{
    let q = lo as int / p as int;
    vstd::arithmetic::div_mod::lemma_fundamental_div_mod(lo as int, p as int);
    assert(lo as int == p * q);
    vstd::arithmetic::div_mod::lemma_hoist_over_denominator(va as int, -q, p as nat);
    assert(va as int / p as int + (-q) == (va + (-q) * p) / p as int);
    assert(va - lo == va + (-q) * p) by {
        vstd::arithmetic::mul::lemma_mul_unary_negation(q, p as int);
        vstd::arithmetic::mul::lemma_mul_is_commutative(p as int, q);
    }
}

/// An address inside chunk `k` has chunk index `k`.
proof fn lemma_chunk_of_range(lo: u64, va: u64, p: u64, k: int)
    requires
        p > 0,
        lo + k * p <= va < lo + (k + 1) * p,
        0 <= k,
    ensures
        chunk_of(lo, va, p) == k,
{
    let x = va - lo;
    assert((k + 1) * p == k * p + p) by {
        vstd::arithmetic::mul::lemma_mul_is_distributive_add_other_way(p as int, k, 1);
    }
    vstd::arithmetic::div_mod::lemma_fundamental_div_mod_converse_div(
        x as int,
        p as int,
        k,
        x - k * p,
    );
}

/// Addresses in the same aligned chunk share their translation index at
/// that chunk's level; the chunk start of a lower address with a smaller
/// index differs.
proof fn lemma_idx3_facts(c: u64, va: u64)
    requires
        c % 0x80_0000_0000 == 0,
    ensures
        c <= va < c + 0x80_0000_0000 ==> level_index_spec(va, 3) == level_index_spec(c, 3),
        va < c && c < 0x1_0000_0000_0000 ==> level_index_spec(va, 3) != level_index_spec(c, 3),
{
    assert((c % 0x80_0000_0000u64 == 0 && c <= va && va < c + 0x80_0000_0000) ==> ((va
        >> 39u64) & 0x1FF == (c >> 39u64) & 0x1FF)) by (bit_vector);
    assert((c % 0x80_0000_0000u64 == 0 && va < c && c < 0x1_0000_0000_0000) ==> ((va >> 39u64)
        & 0x1FF != (c >> 39u64) & 0x1FF)) by (bit_vector);
    assert(level_index_spec(va, 3) == (va >> 39u64) & 0x1FF);
    assert(level_index_spec(c, 3) == (c >> 39u64) & 0x1FF);
}

/// The same two facts one level down, at 1-GiB granularity.
proof fn lemma_idx2_facts(c: u64, va: u64)
    requires
        c % 0x4000_0000 == 0,
    ensures
        c <= va < c + 0x4000_0000 ==> level_index_spec(va, 2) == level_index_spec(c, 2),
        va < c && c < 0x1_0000_0000_0000 && va >> 39 == c >> 39 ==> level_index_spec(va, 2)
            != level_index_spec(c, 2),
{
    assert((c % 0x4000_0000u64 == 0 && c <= va && va < c + 0x4000_0000) ==> ((va >> 30u64)
        & 0x1FF == (c >> 30u64) & 0x1FF)) by (bit_vector);
    assert((c % 0x4000_0000u64 == 0 && va < c && c < 0x1_0000_0000_0000 && va >> 39u64 == c
        >> 39u64) ==> ((va >> 30u64) & 0x1FF != (c >> 30u64) & 0x1FF)) by (bit_vector);
    assert(level_index_spec(va, 2) == (va >> 30u64) & 0x1FF);
    assert(level_index_spec(c, 2) == (c >> 30u64) & 0x1FF);
}

/// The same two facts at 2-MiB granularity.
proof fn lemma_idx1_facts(c: u64, va: u64)
    requires
        c % 0x20_0000 == 0,
    ensures
        c <= va < c + 0x20_0000 ==> level_index_spec(va, 1) == level_index_spec(c, 1),
        va < c && c < 0x1_0000_0000_0000 && va >> 30 == c >> 30 ==> level_index_spec(va, 1)
            != level_index_spec(c, 1),
{
    assert((c % 0x20_0000u64 == 0 && c <= va && va < c + 0x20_0000) ==> ((va >> 21u64) & 0x1FF
        == (c >> 21u64) & 0x1FF)) by (bit_vector);
    assert((c % 0x20_0000u64 == 0 && va < c && c < 0x1_0000_0000_0000 && va >> 30u64 == c
        >> 30u64) ==> ((va >> 21u64) & 0x1FF != (c >> 21u64) & 0x1FF)) by (bit_vector);
    assert(level_index_spec(va, 1) == (va >> 21u64) & 0x1FF);
    assert(level_index_spec(c, 1) == (c >> 21u64) & 0x1FF);
}

/// Distinct page-aligned addresses in the same 2-MiB chunk use distinct
/// leaf-table indices.
proof fn lemma_idx0_distinct(va1: u64, va2: u64)
    requires
        va1 % 4096 == 0,
        va2 % 4096 == 0,
        va1 != va2,
        va1 >> 21 == va2 >> 21,
    ensures
        level_index_spec(va1, 0) != level_index_spec(va2, 0),
{
    assert((va1 % 4096u64 == 0 && va2 % 4096u64 == 0 && va1 != va2 && va1 >> 21u64 == va2
        >> 21u64) ==> ((va1 >> 12u64) & 0x1FF != (va2 >> 12u64) & 0x1FF)) by (bit_vector);
    assert(level_index_spec(va1, 0) == (va1 >> 12u64) & 0x1FF);
    assert(level_index_spec(va2, 0) == (va2 >> 12u64) & 0x1FF);
}

/// Subtracting the window base from a page-aligned kernel address leaves a
/// page-aligned physical address.
proof fn lemma_mod_sub_base(t: u64)
    requires
        t % 4096 == 0,
        t >= PPTR_BASE,
    ensures
        ((t - PPTR_BASE) as u64) % 4096 == 0,
{
    assert(0xFFFF_FF80_0000_0000u64 % 4096u64 == 0) by (bit_vector);
    vstd::arithmetic::div_mod::lemma_sub_mod_noop(t as int, PPTR_BASE as int, 4096);
    vstd::arithmetic::div_mod::lemma_mod_self_0(4096);
    assert((t - PPTR_BASE) % 4096 == (t % 4096 - PPTR_BASE % 4096) % 4096);
    vstd::arithmetic::div_mod::lemma_small_mod(0nat, 4096nat);
}

/// Chunk counting from an aligned base, at a power-of-two granularity, is
/// the difference of the shifted addresses.
proof fn lemma_chunk_shr(lo: u64, va: u64, bits: u64)
    requires
        bits < 64,
        lo % bit64(bits) == 0,
        lo <= va,
    ensures
        chunk_of(lo, va, bit64(bits)) == (va >> bits) - (lo >> bits),
{
    vstd::bits::lemma_u64_pow2_no_overflow(bits as nat);
    lemma_chunk_offset(lo, va, bit64(bits));
    vstd::bits::lemma_u64_shr_is_div(va, bits);
    vstd::bits::lemma_u64_shr_is_div(lo, bits);
}

/// A 512-GiB chunk index within the translatable address space is below
/// 512.
proof fn lemma_chunk39_bound(lo: u64, va: u64)
    requires
        lo <= va,
        va < 0x1_0000_0000_0000,
    ensures
        0 <= chunk_of(lo, va, 0x80_0000_0000) < 512,
{
    let x = (va - lo) as int;
    vstd::arithmetic::div_mod::lemma_div_basics(0x80_0000_0000);
    vstd::arithmetic::div_mod::lemma_div_is_ordered(0, x, 0x80_0000_0000);
    vstd::arithmetic::div_mod::lemma_div_is_ordered(x, 0xFFFF_FFFF_FFFF, 0x80_0000_0000);
    vstd::arithmetic::div_mod::lemma_fundamental_div_mod_converse_div(
        0xFFFF_FFFF_FFFF,
        0x80_0000_0000,
        511,
        0x7F_FFFF_FFFF,
    );
}

/// A 1-GiB chunk index within the translatable address space is below
/// 2^18.
proof fn lemma_chunk30_bound(lo: u64, va: u64)
    requires
        lo <= va,
        va < 0x1_0000_0000_0000,
    ensures
        0 <= chunk_of(lo, va, 0x4000_0000) < 0x4_0000,
{
    let x = (va - lo) as int;
    vstd::arithmetic::div_mod::lemma_div_basics(0x4000_0000);
    vstd::arithmetic::div_mod::lemma_div_is_ordered(0, x, 0x4000_0000);
    vstd::arithmetic::div_mod::lemma_div_is_ordered(x, 0xFFFF_FFFF_FFFF, 0x4000_0000);
    vstd::arithmetic::div_mod::lemma_fundamental_div_mod_converse_div(
        0xFFFF_FFFF_FFFF,
        0x4000_0000,
        0x3_FFFF,
        0x3FFF_FFFF,
    );
}

/// A table descriptor for a page-aligned address hands the address back
/// through the accessor mask, and carries the valid and table bits.
proof fn lemma_table_desc_addr(x: u64)
    requires
        x % 0x1000 == 0,
    ensures
        crate::pte::pte_paddr_of(crate::pte::table_desc(x)) == x,
        crate::pte::table_desc(x) & (crate::pte::PTE_VALID | crate::pte::PTE_NON_BLOCK) == (
        crate::pte::PTE_VALID | crate::pte::PTE_NON_BLOCK),
{
    assert(x % 0x1000u64 == 0 ==> ((x | 0x1u64 | 0x2u64) & !0xFFFu64 == x && (x | 0x1u64
        | 0x2u64) & (0x1u64 | 0x2u64) == (0x1u64 | 0x2u64))) by (bit_vector);
}

/// The flags a bootstrap frame mapping carries, with execute permission or
/// without.
pub open spec fn frame_flags(executable: bool) -> u64 {
    if executable {
        crate::vspace::boot_mapping_flags()
    } else {
        crate::vspace::boot_mapping_flags() | crate::pte::PTE_PXN
    }
}

/// The paging page backing the table that serves the chunk of `va` at
/// granularity `p`, when those pages start at `pg0` and the chunks at `lo`.
pub open spec fn it_table_of(pg0: u64, lo: u64, va: u64, p: u64) -> u64 {
    (pg0 + chunk_of(lo, va, p) * 4096) as u64
}

/// A 2-MiB chunk index within the translatable address space is below
/// 2^27.
proof fn lemma_chunk21_bound(lo: u64, va: u64)
    requires
        lo <= va,
        va < 0x1_0000_0000_0000,
    ensures
        0 <= chunk_of(lo, va, 0x20_0000) < 0x800_0000,
{
    let x = (va - lo) as int;
    vstd::arithmetic::div_mod::lemma_div_basics(0x20_0000);
    vstd::arithmetic::div_mod::lemma_div_is_ordered(0, x, 0x20_0000);
    vstd::arithmetic::div_mod::lemma_div_is_ordered(x, 0xFFFF_FFFF_FFFF, 0x20_0000);
    vstd::arithmetic::div_mod::lemma_fundamental_div_mod_converse_div(
        0xFFFF_FFFF_FFFF,
        0x20_0000,
        0x7FF_FFFF,
        0x1F_FFFF,
    );
}

/// The chunk count of a region spans exactly from its aligned start to its
/// aligned end.
proof fn lemma_n_paging_exact(s: u64, e: u64, bits: u64)
    requires
        bits < 64,
        s <= e,
        e + bit64(bits) - 1 <= u64::MAX,
    ensures
        crate::addr::align_down64(s, bits) + crate::boot::n_paging_spec(s, e, bits) * bit64(bits)
            == crate::addr::align_up64(e, bits),
{
    vstd::bits::lemma_u64_pow2_no_overflow(bits as nat);
    let p = bit64(bits) as int;
    let ad = crate::addr::align_down64(s, bits) as int;
    let au = crate::addr::align_up64(e, bits);
    vstd::arithmetic::div_mod::lemma_mod_bound(s as int, p);
    vstd::arithmetic::div_mod::lemma_mod_bound(e as int, p);
    let d = au - ad;
    assert(d % p == 0) by {
        assert(ad % p == 0) by {
            vstd::arithmetic::div_mod::lemma_mod_decreases(s as nat, bit64(bits) as nat);
            crate::addr::lemma_align_nesting(s, bits, bits);
        }
        assert(au % p == 0) by {
            crate::addr::lemma_align_nesting(e, bits, bits);
        }
        let qa = ad / p;
        let qb = au / p;
        vstd::arithmetic::div_mod::lemma_fundamental_div_mod(ad, p);
        vstd::arithmetic::div_mod::lemma_fundamental_div_mod(au, p);
        assert(d == p * qb - p * qa);
        vstd::arithmetic::mul::lemma_mul_is_distributive_sub(p, qb, qa);
        vstd::arithmetic::mul::lemma_mul_is_commutative(p, qb - qa);
        vstd::arithmetic::div_mod::lemma_mod_multiples_basic(qb - qa, p);
    }
    vstd::arithmetic::div_mod::lemma_fundamental_div_mod(d, p);
    vstd::arithmetic::mul::lemma_mul_is_commutative(p, d / p);
}

/// From the installed hierarchy, one covered address walks through all
/// four levels, ending at the tables the layout formulas name.
proof fn lemma_it_walk_one(mem: PTMem, root: u64, pg3: u64, s: u64, e: u64, va: u64)
    requires
        s <= e,
        e < crate::mem::USER_VADDR_CEIL,
        PPTR_BASE <= pg3,
        root < pg3,
        mem.wf(),
        mem.has_table(root),
        pg3 + (crate::boot::n_paging_spec(s, e, 39) + crate::boot::n_paging_spec(s, e, 30)
            + crate::boot::n_paging_spec(s, e, 21)) * 4096 <= crate::addr::PPTR_TOP,
        ({
            let lo39 = crate::addr::align_down64(s, 39);
            let lo30 = crate::addr::align_down64(s, 30);
            let lo21 = crate::addr::align_down64(s, 21);
            let n39 = crate::boot::n_paging_spec(s, e, 39);
            let n30 = crate::boot::n_paging_spec(s, e, 30);
            let n21 = crate::boot::n_paging_spec(s, e, 21);
            let pg2 = (pg3 + n39 * 4096) as u64;
            let pg1 = (pg2 + n30 * 4096) as u64;
            &&& lo39 <= va < lo39 + n39 * 0x80_0000_0000
            &&& lo30 <= va < lo30 + n30 * 0x4000_0000
            &&& lo21 <= va < lo21 + n21 * 0x20_0000
            &&& (forall|va2: u64|
                lo39 <= va2 < lo39 + n39 * 0x80_0000_0000 ==> {
                    let t = #[trigger] it_table_of(pg3, lo39, va2, 0x80_0000_0000);
                    &&& mem.table_at(root)[level_index_spec(va2, 3) as int] == PTE(
                        crate::pte::table_desc((t - PPTR_BASE) as u64),
                    )
                    &&& mem.has_table(t)
                    &&& pg3 <= t < pg2
                    &&& t % 4096 == 0
                })
            &&& (forall|va2: u64|
                lo30 <= va2 < lo30 + n30 * 0x4000_0000 ==> {
                    let pud = it_table_of(pg3, lo39, va2, 0x80_0000_0000);
                    let t = #[trigger] it_table_of(pg2, lo30, va2, 0x4000_0000);
                    &&& mem.table_at(pud)[level_index_spec(va2, 2) as int] == PTE(
                        crate::pte::table_desc((t - PPTR_BASE) as u64),
                    )
                    &&& mem.has_table(t)
                    &&& pg2 <= t < pg1
                    &&& t % 4096 == 0
                })
            &&& (forall|va2: u64|
                lo21 <= va2 < lo21 + n21 * 0x20_0000 ==> {
                    let pd = it_table_of(pg2, lo30, va2, 0x4000_0000);
                    let t = #[trigger] it_table_of(pg1, lo21, va2, 0x20_0000);
                    &&& mem.table_at(pd)[level_index_spec(va2, 1) as int] == PTE(
                        crate::pte::table_desc((t - PPTR_BASE) as u64),
                    )
                    &&& mem.has_table(t)
                    &&& pg1 <= t < (pg1 + n21 * 4096) as u64
                    &&& t % 4096 == 0
                })
        }),
    ensures
        ({
            let lo39 = crate::addr::align_down64(s, 39);
            let lo30 = crate::addr::align_down64(s, 30);
            let lo21 = crate::addr::align_down64(s, 21);
            let n39 = crate::boot::n_paging_spec(s, e, 39);
            let n30 = crate::boot::n_paging_spec(s, e, 30);
            let pg2 = (pg3 + n39 * 4096) as u64;
            let pg1 = (pg2 + n30 * 4096) as u64;
            &&& frame_walk_ok(mem, root, va)
            &&& walk_pud(mem, root, va) == it_table_of(pg3, lo39, va, 0x80_0000_0000)
            &&& walk_pd(mem, root, va) == it_table_of(pg2, lo30, va, 0x4000_0000)
            &&& walk_pt(mem, root, va) == it_table_of(pg1, lo21, va, 0x20_0000)
        }),
{
    let lo39 = crate::addr::align_down64(s, 39);
    let lo30 = crate::addr::align_down64(s, 30);
    let lo21 = crate::addr::align_down64(s, 21);
    let n39 = crate::boot::n_paging_spec(s, e, 39);
    let n30 = crate::boot::n_paging_spec(s, e, 30);
    let pg2 = (pg3 + n39 * 4096) as u64;
    let pg1 = (pg2 + n30 * 4096) as u64;
    let pud = it_table_of(pg3, lo39, va, 0x80_0000_0000);
    let pd = it_table_of(pg2, lo30, va, 0x4000_0000);
    let pt = it_table_of(pg1, lo21, va, 0x20_0000);
    lemma_mod_sub_base(pud);
    lemma_table_desc_addr((pud - PPTR_BASE) as u64);
    mem.lemma_table_at_len(root);
    assert(level_index_spec(va, 3) < 512 && level_index_spec(va, 2) < 512 && level_index_spec(
        va,
        1,
    ) < 512) by {
        let v2 = va;
        assert((v2 >> 39u64) & 0x1FF < 512u64 && (v2 >> 30u64) & 0x1FF < 512u64 && (v2
            >> 21u64) & 0x1FF < 512u64) by (bit_vector);
    }
    assert(crate::vspace::walk_step_ok(mem, root, va, 3));
    assert(crate::vspace::next_table(mem, root, va, 3) == pud);
    lemma_mod_sub_base(pd);
    lemma_table_desc_addr((pd - PPTR_BASE) as u64);
    mem.lemma_table_at_len(pud);
    assert(crate::vspace::walk_step_ok(mem, pud, va, 2));
    assert(crate::vspace::next_table(mem, pud, va, 2) == pd);
    lemma_mod_sub_base(pt);
    lemma_table_desc_addr((pt - PPTR_BASE) as u64);
    mem.lemma_table_at_len(pd);
    assert(crate::vspace::walk_step_ok(mem, pd, va, 1));
    assert(crate::vspace::next_table(mem, pd, va, 1) == pt);
}

/// From the installed hierarchy, every address the initial task's region
/// covers walks through all four levels, the leaf tables stay clear of the
/// descriptor tables, and distinct 2-MiB chunks use distinct leaf tables:
/// what the frame-mapping operations ask of the address space
/// `create_it_address_space` builds.
#[verifier::rlimit(100)]
pub proof fn lemma_it_layout_ready(mem: PTMem, root: u64, pg3: u64, s: u64, e: u64)
    requires
        s <= e,
        e < crate::mem::USER_VADDR_CEIL,
        PPTR_BASE <= pg3,
        root < pg3,
        mem.wf(),
        mem.has_table(root),
        pg3 + (crate::boot::n_paging_spec(s, e, 39) + crate::boot::n_paging_spec(s, e, 30)
            + crate::boot::n_paging_spec(s, e, 21)) * 4096 <= crate::addr::PPTR_TOP,
        ({
            let lo39 = crate::addr::align_down64(s, 39);
            let lo30 = crate::addr::align_down64(s, 30);
            let lo21 = crate::addr::align_down64(s, 21);
            let n39 = crate::boot::n_paging_spec(s, e, 39);
            let n30 = crate::boot::n_paging_spec(s, e, 30);
            let n21 = crate::boot::n_paging_spec(s, e, 21);
            let pg2 = (pg3 + n39 * 4096) as u64;
            let pg1 = (pg2 + n30 * 4096) as u64;
            &&& (forall|va: u64|
                lo39 <= va < lo39 + n39 * 0x80_0000_0000 ==> {
                    let t = #[trigger] it_table_of(pg3, lo39, va, 0x80_0000_0000);
                    &&& mem.table_at(root)[level_index_spec(va, 3) as int] == PTE(
                        crate::pte::table_desc((t - PPTR_BASE) as u64),
                    )
                    &&& mem.has_table(t)
                    &&& pg3 <= t < pg2
                    &&& t % 4096 == 0
                })
            &&& (forall|va: u64|
                lo30 <= va < lo30 + n30 * 0x4000_0000 ==> {
                    let pud = it_table_of(pg3, lo39, va, 0x80_0000_0000);
                    let t = #[trigger] it_table_of(pg2, lo30, va, 0x4000_0000);
                    &&& mem.table_at(pud)[level_index_spec(va, 2) as int] == PTE(
                        crate::pte::table_desc((t - PPTR_BASE) as u64),
                    )
                    &&& mem.has_table(t)
                    &&& pg2 <= t < pg1
                    &&& t % 4096 == 0
                })
            &&& (forall|va: u64|
                lo21 <= va < lo21 + n21 * 0x20_0000 ==> {
                    let pd = it_table_of(pg2, lo30, va, 0x4000_0000);
                    let t = #[trigger] it_table_of(pg1, lo21, va, 0x20_0000);
                    &&& mem.table_at(pd)[level_index_spec(va, 1) as int] == PTE(
                        crate::pte::table_desc((t - PPTR_BASE) as u64),
                    )
                    &&& mem.has_table(t)
                    &&& pg1 <= t < (pg1 + n21 * 4096) as u64
                    &&& t % 4096 == 0
                })
        }),
    ensures
        ({
            let lo39 = crate::addr::align_down64(s, 39);
            let lo30 = crate::addr::align_down64(s, 30);
            let lo21 = crate::addr::align_down64(s, 21);
            let n39 = crate::boot::n_paging_spec(s, e, 39);
            let n30 = crate::boot::n_paging_spec(s, e, 30);
            let n21 = crate::boot::n_paging_spec(s, e, 21);
            let pg2 = (pg3 + n39 * 4096) as u64;
            let pg1 = (pg2 + n30 * 4096) as u64;
            let hi21 = (lo21 + n21 * 0x20_0000) as u64;
            &&& (forall|va: u64|
                lo21 <= va < hi21 ==> #[trigger] frame_walk_ok(mem, root, va) && walk_pud(
                    mem,
                    root,
                    va,
                ) == it_table_of(pg3, lo39, va, 0x80_0000_0000) && walk_pd(mem, root, va)
                    == it_table_of(pg2, lo30, va, 0x4000_0000) && walk_pt(mem, root, va)
                    == it_table_of(pg1, lo21, va, 0x20_0000))
            &&& leaf_tables_separate(mem, root, lo21, hi21)
            &&& leaf_tables_injective(mem, root, lo21, hi21)
        }),
{
    let lo39 = crate::addr::align_down64(s, 39);
    let lo30 = crate::addr::align_down64(s, 30);
    let lo21 = crate::addr::align_down64(s, 21);
    let n39 = crate::boot::n_paging_spec(s, e, 39);
    let n30 = crate::boot::n_paging_spec(s, e, 30);
    let n21 = crate::boot::n_paging_spec(s, e, 21);
    let pg2 = (pg3 + n39 * 4096) as u64;
    let pg1 = (pg2 + n30 * 4096) as u64;
    let hi21 = (lo21 + n21 * 0x20_0000) as u64;
    crate::addr::lemma_bit64_values();
    vstd::arithmetic::power2::lemma2_to64();
    vstd::arithmetic::power2::lemma2_to64_rest();
    crate::addr::lemma_align_nesting(s, 21, 39);
    crate::addr::lemma_align_nesting(s, 21, 30);
    crate::addr::lemma_align_nesting(s, 30, 39);
    crate::addr::lemma_align_nesting(e, 21, 39);
    crate::addr::lemma_align_nesting(e, 21, 30);
    crate::addr::lemma_align_nesting(e, 30, 39);
    lemma_n_paging_exact(s, e, 39);
    lemma_n_paging_exact(s, e, 30);
    lemma_n_paging_exact(s, e, 21);
    assert forall|va: u64| lo21 <= va < hi21 implies #[trigger] frame_walk_ok(mem, root, va)
        && walk_pud(mem, root, va) == it_table_of(pg3, lo39, va, 0x80_0000_0000) && walk_pd(
        mem,
        root,
        va,
    ) == it_table_of(pg2, lo30, va, 0x4000_0000) && walk_pt(mem, root, va) == it_table_of(
        pg1,
        lo21,
        va,
        0x20_0000,
    ) by {
        assert(lo39 <= va < lo39 + n39 * 0x80_0000_0000);
        assert(lo30 <= va < lo30 + n30 * 0x4000_0000);
        lemma_it_walk_one(mem, root, pg3, s, e, va);
    }
    assert(leaf_tables_separate(mem, root, lo21, hi21)) by {
        assert forall|va: u64, va2: u64|
            lo21 <= va < hi21 && lo21 <= va2 < hi21 implies (#[trigger] walk_pt(mem, root, va))
            != root && walk_pt(mem, root, va) != (#[trigger] walk_pud(mem, root, va2)) && walk_pt(
            mem,
            root,
            va,
        ) != walk_pd(mem, root, va2) by {
            assert(frame_walk_ok(mem, root, va));
            assert(frame_walk_ok(mem, root, va2));
            assert(walk_pt(mem, root, va) == it_table_of(pg1, lo21, va, 0x20_0000));
            assert(walk_pud(mem, root, va2) == it_table_of(pg3, lo39, va2, 0x80_0000_0000));
            assert(walk_pd(mem, root, va2) == it_table_of(pg2, lo30, va2, 0x4000_0000));
            assert(lo21 <= va2 < lo21 + n21 * 0x20_0000);
        }
    }
    assert(leaf_tables_injective(mem, root, lo21, hi21)) by {
        assert forall|va: u64, va2: u64|
            lo21 <= va < hi21 && lo21 <= va2 < hi21 && va >> 21 != va2 >> 21 implies (
        #[trigger] walk_pt(mem, root, va)) != (#[trigger] walk_pt(mem, root, va2)) by {
            assert(frame_walk_ok(mem, root, va));
            assert(frame_walk_ok(mem, root, va2));
            assert(walk_pt(mem, root, va) == it_table_of(pg1, lo21, va, 0x20_0000));
            assert(walk_pt(mem, root, va2) == it_table_of(pg1, lo21, va2, 0x20_0000));
            let k1 = chunk_of(lo21, va, 0x20_0000);
            let k2 = chunk_of(lo21, va2, 0x20_0000);
            lemma_chunk21_bound(lo21, va);
            lemma_chunk21_bound(lo21, va2);
            lemma_chunk_shr(lo21, va, 21);
            lemma_chunk_shr(lo21, va2, 21);
            assert(k1 != k2);
            assert(pg1 + k1 * 4096 <= u64::MAX && pg1 + k2 * 4096 <= u64::MAX) by {
                assert(pg1 <= crate::addr::PPTR_TOP);
                assert(k1 * 4096 < 0x8_0000_0000_0000);
                assert(k1 <= n21);
            }
        }
    }
}

/// Every boot-info field but the minted paging slot range unchanged.
pub open spec fn bi_same_but_paging(
    a: crate::boot_info::BootInfo,
    b: crate::boot_info::BootInfo,
) -> bool {
    &&& a.extra_len == b.extra_len
    &&& a.node_id == b.node_id
    &&& a.num_nodes == b.num_nodes
    &&& a.num_io_pt_levels == b.num_io_pt_levels
    &&& a.ipc_buffer == b.ipc_buffer
    &&& a.empty == b.empty
    &&& a.shared_frames == b.shared_frames
    &&& a.user_image_frames == b.user_image_frames
    &&& a.io_space_caps == b.io_space_caps
    &&& a.extra_bi_pages == b.extra_bi_pages
    &&& a.it_cnode_size_bits == b.it_cnode_size_bits
    &&& a.it_domain == b.it_domain
    &&& a.untyped == b.untyped
    &&& a.untyped_list == b.untyped_list
}

/// The state `create_it_address_space` leaves behind: the address-space
/// root capability in its well-known slot, one page-table capability per
/// chunk at each level in cursor order, the paging region consumed one page
/// per table, and the page-table memory holding the full hierarchy —
/// each level's descriptors installed at the translation index of every
/// address the region covers.
pub open spec fn it_layout(
    cnode: CNode,
    mem: PTMem,
    paging: KVirtRegion,
    ndks: NdksBoot,
    old_cnode: CNode,
    old_paging: KVirtRegion,
    cur0: usize,
    root: u64,
    it_v_reg: VirtRegion,
) -> bool {
    let s = it_v_reg.start.0;
    let e = it_v_reg.end.0;
    let lo39 = crate::addr::align_down64(s, 39);
    let lo30 = crate::addr::align_down64(s, 30);
    let lo21 = crate::addr::align_down64(s, 21);
    let n39 = crate::boot::n_paging_spec(s, e, 39);
    let n30 = crate::boot::n_paging_spec(s, e, 30);
    let n21 = crate::boot::n_paging_spec(s, e, 21);
    let pg3 = old_paging.start.0;
    let pg2 = (pg3 + n39 * 4096) as u64;
    let pg1 = (pg2 + n30 * 4096) as u64;
    &&& cnode.addr == old_cnode.addr
    &&& cnode.slots@.len() == old_cnode.slots@.len()
    &&& cnode.slots@[RootCNodeCapSlots::InitThreadVSpace.index_spec() as int] == written_slot(
        (VSpaceCap {
            vs_mapped_asid: IT_ASID,
            vs_base_ptr: KAddr(root),
            vs_is_mapped: true,
        }).raw_spec(),
    )
    &&& (forall|k: int|
        0 <= k < n39 ==> #[trigger] cnode.slots@[cur0 + k] == written_slot(
            it_pt_cap((pg3 + k * 4096) as u64, (lo39 + k * 0x80_0000_0000) as u64).raw_spec(),
        ))
    &&& (forall|k: int|
        0 <= k < n30 ==> #[trigger] cnode.slots@[cur0 + n39 + k] == written_slot(
            it_pt_cap((pg2 + k * 4096) as u64, (lo30 + k * 0x4000_0000) as u64).raw_spec(),
        ))
    &&& (forall|k: int|
        0 <= k < n21 ==> #[trigger] cnode.slots@[cur0 + n39 + n30 + k] == written_slot(
            it_pt_cap((pg1 + k * 4096) as u64, (lo21 + k * 0x20_0000) as u64).raw_spec(),
        ))
    &&& (forall|i: int|
        0 <= i < cnode.slots@.len() && i != RootCNodeCapSlots::InitThreadVSpace.index_spec()
            && !(cur0 <= i < cur0 + n39 + n30 + n21) ==> cnode.slots@[i] == old_cnode.slots@[i])
    &&& ndks.slot_pos_cur == cur0 + n39 + n30 + n21
    &&& paging.start.0 == old_paging.start.0 + (n39 + n30 + n21) * 4096
    &&& mem.wf()
    &&& mem.has_table(root)
    &&& (forall|b: u64|
        mem.has_table(b) ==> b == root || (old_paging.start.0 <= b && b < paging.start.0))
    &&& (forall|va: u64|
        lo39 <= va < lo39 + n39 * 0x80_0000_0000 ==> {
            let t = #[trigger] it_table_of(pg3, lo39, va, 0x80_0000_0000);
            &&& mem.table_at(root)[level_index_spec(va, 3) as int] == PTE(
                crate::pte::table_desc((t - PPTR_BASE) as u64),
            )
            &&& mem.has_table(t)
            &&& pg3 <= t < pg2
            &&& t % 4096 == 0
        })
    &&& (forall|va: u64|
        lo30 <= va < lo30 + n30 * 0x4000_0000 ==> {
            let pud = it_table_of(pg3, lo39, va, 0x80_0000_0000);
            let t = #[trigger] it_table_of(pg2, lo30, va, 0x4000_0000);
            &&& mem.table_at(pud)[level_index_spec(va, 2) as int] == PTE(
                crate::pte::table_desc((t - PPTR_BASE) as u64),
            )
            &&& mem.has_table(t)
            &&& mem.has_table(pud)
            &&& pg2 <= t < pg1
            &&& pg3 <= pud < pg2
            &&& t % 4096 == 0
        })
    &&& (forall|va: u64|
        lo21 <= va < lo21 + n21 * 0x20_0000 ==> {
            let pd = it_table_of(pg2, lo30, va, 0x4000_0000);
            let t = #[trigger] it_table_of(pg1, lo21, va, 0x20_0000);
            &&& mem.table_at(pd)[level_index_spec(va, 1) as int] == PTE(
                crate::pte::table_desc((t - PPTR_BASE) as u64),
            )
            &&& mem.has_table(t)
            &&& pg1 <= t < paging.start.0
            &&& t % 4096 == 0
        })
}

impl CNode {
    /// Install one second-level table per 512-GiB chunk of the region:
    /// allocate a paging page for it, hand the zeroed table to the model,
    /// write its descriptor into the root table, and mint its capability.
    fn map_it_puds(
        &mut self,
        paging: &mut KVirtRegion,
        ndks: &mut NdksBoot,
        mem: &mut PTMem,
        root: KAddr,
        lo: u64,
        n: u64,
        Ghost(pbase): Ghost<u64>,
    )
        requires
            old(mem).wf(),
            old(mem).has_table(root.0),
            root.0 < pbase,
            forall|b: u64|
                old(mem).has_table(b) ==> b == root.0 || (pbase <= b && b < old(
                    paging,
                ).start.0),
            lo % 0x80_0000_0000 == 0,
            lo + n * 0x80_0000_0000 <= 0x1_0000_0000_0000,
            old(paging).start.0 % 4096 == 0,
            pbase <= old(paging).start.0,
            PPTR_BASE <= pbase,
            old(paging).start.0 + n * 4096 <= old(paging).end.0,
            old(paging).end.0 <= PPTR_TOP,
            old(ndks).slot_pos_cur + n <= old(self).slots@.len(),
        ensures
            final(self).addr == old(self).addr,
            final(self).slots@.len() == old(self).slots@.len(),
            forall|k: int|
                0 <= k < n ==> #[trigger] final(self).slots@[old(ndks).slot_pos_cur + k]
                    == written_slot(
                    it_pt_cap(
                        (old(paging).start.0 + k * 4096) as u64,
                        (lo + k * 0x80_0000_0000) as u64,
                    ).raw_spec(),
                ),
            forall|i: int|
                0 <= i < old(self).slots@.len() && !(old(ndks).slot_pos_cur <= i < old(
                    ndks,
                ).slot_pos_cur + n) ==> final(self).slots@[i] == old(self).slots@[i],
            final(ndks).slot_pos_cur == old(ndks).slot_pos_cur + n,
            final(ndks).reserved == old(ndks).reserved,
            final(ndks).reserved_count == old(ndks).reserved_count,
            final(ndks).freemem == old(ndks).freemem,
            final(ndks).bi_frame == old(ndks).bi_frame,
            final(paging).start.0 == old(paging).start.0 + n * 4096,
            final(paging).end == old(paging).end,
            final(mem).wf(),
            final(mem).has_table(root.0),
            forall|b: u64|
                final(mem).has_table(b) ==> b == root.0 || (pbase <= b
                    && b < final(paging).start.0),
            forall|va: u64|
                lo <= va < lo + n * 0x80_0000_0000 ==> {
                    let t = #[trigger] it_table_of(old(paging).start.0, lo, va, 0x80_0000_0000);
                    &&& final(mem).table_at(root.0)[level_index_spec(va, 3) as int] == PTE(
                        crate::pte::table_desc((t - PPTR_BASE) as u64),
                    )
                    &&& final(mem).has_table(t)
                    &&& old(paging).start.0 <= t < final(paging).start.0
                    &&& t % 4096 == 0
                },
    {
        let ghost pg0 = paging.start.0;
        let ghost cur0 = ndks.slot_pos_cur;
        proof {
            crate::addr::lemma_bit64_values();
            vstd::arithmetic::power2::lemma2_to64();
            vstd::arithmetic::power2::lemma2_to64_rest();
        }
        let hi = lo + n * bit(39);
        let mut addr = lo;
        let ghost mut j: int = 0;
        while addr < hi
            invariant
                0 <= j <= n,
                addr == lo + j * 0x80_0000_0000,
                hi == lo + n * 0x80_0000_0000,
                lo % 0x80_0000_0000 == 0,
                hi <= 0x1_0000_0000_0000,
                mem.wf(),
                mem.has_table(root.0),
                root.0 < pbase,
                PPTR_BASE <= pbase,
                pbase <= pg0,
                pg0 == old(paging).start.0,
                paging.start.0 == pg0 + j * 4096,
                paging.start.0 % 4096 == 0,
                paging.start.0 + (n - j) * 4096 <= paging.end.0,
                paging.end == old(paging).end,
                paging.end.0 <= PPTR_TOP,
                forall|b: u64|
                    mem.has_table(b) ==> b == root.0 || (pbase <= b && b < paging.start.0),
                self.addr == old(self).addr,
                self.slots@.len() == old(self).slots@.len(),
                cur0 == old(ndks).slot_pos_cur,
                cur0 + n <= self.slots@.len(),
                ndks.slot_pos_cur == cur0 + j,
                ndks.reserved == old(ndks).reserved,
                ndks.reserved_count == old(ndks).reserved_count,
                ndks.freemem == old(ndks).freemem,
                ndks.bi_frame == old(ndks).bi_frame,
                forall|k: int|
                    0 <= k < j ==> #[trigger] self.slots@[cur0 + k] == written_slot(
                        it_pt_cap((pg0 + k * 4096) as u64, (lo + k * 0x80_0000_0000) as u64)
                            .raw_spec(),
                    ),
                forall|i: int|
                    0 <= i < old(self).slots@.len() && !(cur0 <= i < cur0 + j) ==> self.slots@[i]
                        == old(self).slots@[i],
                forall|va: u64|
                    lo <= va < addr ==> {
                        let t = #[trigger] it_table_of(pg0, lo, va, 0x80_0000_0000);
                        &&& mem.table_at(root.0)[level_index_spec(va, 3) as int] == PTE(
                            crate::pte::table_desc((t - PPTR_BASE) as u64),
                        )
                        &&& mem.has_table(t)
                        &&& pg0 <= t < paging.start.0
                        &&& t % 4096 == 0
                    },
            decreases hi - addr,
        {
            proof {
                if j >= n {
                    vstd::arithmetic::mul::lemma_mul_inequality(
                        n as int,
                        j,
                        0x80_0000_0000,
                    );
                }
                vstd::arithmetic::mul::lemma_mul_is_distributive_add_other_way(
                    4096,
                    j,
                    1,
                );
                vstd::arithmetic::mul::lemma_mul_is_distributive_add_other_way(
                    0x80_0000_0000,
                    j,
                    1,
                );
                vstd::arithmetic::mul::lemma_mul_inequality(j + 1, n as int, 4096);
                vstd::arithmetic::mul::lemma_mul_inequality(j + 1, n as int, 0x80_0000_0000);
                vstd::arithmetic::div_mod::lemma_mod_multiples_basic(j, 4096);
                crate::addr::lemma_bit64_values();
                vstd::arithmetic::power2::lemma2_to64();
                crate::addr::lemma_aligned_add(pg0, (j * 4096) as u64, 12);
            }
            let ghost mem0 = *mem;
            let page_ptr = paging.alloc_rootserver_obj(PAGE_BITS, 1);
            let cap = PageTableCap::empty().with_pt_base_ptr(page_ptr).with_pt_is_mapped(true)
                .with_pt_mapped_asid(IT_ASID).with_pt_mapped_address(addr);
            mem.insert_zeroed(page_ptr);
            let ghost mem1 = *mem;
            let mut vs = VSpace::new(root);
            vs.map_it_pud(mem, &cap);
            self.provide_cap(ndks, &cap);
            proof {
                assert(page_ptr.0 == pg0 + j * 4096);
                assert(root.0 != page_ptr.0);
                assert(mem1.table_at(root.0) == mem0.table_at(root.0));
                assert(mem.table_at(root.0) == mem1.table_at(root.0).update(
                    level_index_spec(addr, 3) as int,
                    PTE(crate::pte::table_desc((page_ptr.0 - PPTR_BASE) as u64)),
                ));
                assert(addr < 0x1_0000_0000_0000) by {
                    vstd::arithmetic::mul::lemma_mul_strict_inequality(j, n as int, 0x80_0000_0000);
                }
                mem0.lemma_table_at_len(root.0);
                mem1.lemma_table_at_len(root.0);
                mem.lemma_table_at_len(root.0);
                assert(level_index_spec(addr, 3) < 512) by {
                    let a2 = addr;
                    assert((a2 >> 39u64) & 0x1FF < 512u64) by (bit_vector);
                }
                assert forall|va: u64| lo <= va < addr + 0x80_0000_0000 implies {
                    let t = #[trigger] it_table_of(pg0, lo, va, 0x80_0000_0000);
                    &&& mem.table_at(root.0)[level_index_spec(va, 3) as int] == PTE(
                        crate::pte::table_desc((t - PPTR_BASE) as u64),
                    )
                    &&& mem.has_table(t)
                    &&& pg0 <= t < paging.start.0
                    &&& t % 4096 == 0
                } by {
                    lemma_idx3_facts(addr, va);
                    let t = it_table_of(pg0, lo, va, 0x80_0000_0000);
                    assert(level_index_spec(va, 3) < 512) by {
                        let v2 = va;
                        assert((v2 >> 39u64) & 0x1FF < 512u64) by (bit_vector);
                    }
                    if va < addr {
                        assert(level_index_spec(va, 3) != level_index_spec(addr, 3));
                        assert(mem0.table_at(root.0)[level_index_spec(va, 3) as int] == PTE(
                            crate::pte::table_desc((t - PPTR_BASE) as u64),
                        ));
                        assert(mem.table_at(root.0)[level_index_spec(va, 3) as int]
                            == mem0.table_at(root.0)[level_index_spec(va, 3) as int]);
                        assert(mem0.has_table(t));
                        assert(mem1.has_table(t));
                        assert(mem.has_table(t));
                    } else {
                        lemma_chunk_of_range(lo, va, 0x80_0000_0000, j);
                        assert(t == page_ptr.0);
                        assert(level_index_spec(va, 3) == level_index_spec(addr, 3));
                        vstd::arithmetic::div_mod::lemma_mod_multiples_basic(j, 4096);
                        crate::addr::lemma_aligned_add(pg0, (j * 4096) as u64, 12);
                        assert(mem1.has_table(t));
                        assert(mem.has_table(t));
                    }
                }
                j = j + 1;
            }
            addr = addr + bit(39);
        }
        proof {
            if j < n {
                vstd::arithmetic::mul::lemma_mul_strict_inequality(j, n as int, 0x80_0000_0000);
            }
        }
    }

    /// Install one third-level table per 1-GiB chunk of the region: walk
    /// the root through the second level installed before, allocate and
    /// hand over a zeroed table, write its descriptor, and mint its
    /// capability.
    #[verifier::rlimit(30)]
    fn map_it_pds(
        &mut self,
        paging: &mut KVirtRegion,
        ndks: &mut NdksBoot,
        mem: &mut PTMem,
        root: KAddr,
        lo: u64,
        n: u64,
        Ghost(pbase): Ghost<u64>,
        Ghost(lo3): Ghost<u64>,
        Ghost(hi3): Ghost<u64>,
        Ghost(pg3): Ghost<u64>,
    )
        requires
            old(mem).wf(),
            old(mem).has_table(root.0),
            root.0 < pbase,
            PPTR_BASE <= pbase,
            forall|b: u64|
                old(mem).has_table(b) ==> b == root.0 || (pbase <= b
                    && b < old(paging).start.0),
            lo % 0x4000_0000 == 0,
            lo + n * 0x4000_0000 <= 0x1_0000_0000_0000,
            lo3 % 0x80_0000_0000 == 0,
            hi3 <= 0x1_0000_0000_0000,
            lo3 <= lo,
            pg3 + 0x1F_F000 <= u64::MAX,
            n > 0 ==> lo + n * 0x4000_0000 <= hi3,
            forall|va: u64|
                lo3 <= va < hi3 ==> {
                    let t = #[trigger] it_table_of(pg3, lo3, va, 0x80_0000_0000);
                    &&& old(mem).table_at(root.0)[level_index_spec(va, 3) as int] == PTE(
                        crate::pte::table_desc((t - PPTR_BASE) as u64),
                    )
                    &&& old(mem).has_table(t)
                    &&& pbase <= t < old(paging).start.0
                    &&& t % 4096 == 0
                },
            old(paging).start.0 % 4096 == 0,
            pbase <= old(paging).start.0,
            old(paging).start.0 + n * 4096 <= old(paging).end.0,
            old(paging).end.0 <= PPTR_TOP,
            old(ndks).slot_pos_cur + n <= old(self).slots@.len(),
        ensures
            final(self).addr == old(self).addr,
            final(self).slots@.len() == old(self).slots@.len(),
            forall|k: int|
                0 <= k < n ==> #[trigger] final(self).slots@[old(ndks).slot_pos_cur + k]
                    == written_slot(
                    it_pt_cap(
                        (old(paging).start.0 + k * 4096) as u64,
                        (lo + k * 0x4000_0000) as u64,
                    ).raw_spec(),
                ),
            forall|i: int|
                0 <= i < old(self).slots@.len() && !(old(ndks).slot_pos_cur <= i < old(
                    ndks,
                ).slot_pos_cur + n) ==> final(self).slots@[i] == old(self).slots@[i],
            final(ndks).slot_pos_cur == old(ndks).slot_pos_cur + n,
            final(ndks).reserved == old(ndks).reserved,
            final(ndks).reserved_count == old(ndks).reserved_count,
            final(ndks).freemem == old(ndks).freemem,
            final(ndks).bi_frame == old(ndks).bi_frame,
            final(paging).start.0 == old(paging).start.0 + n * 4096,
            final(paging).end == old(paging).end,
            final(mem).wf(),
            final(mem).has_table(root.0),
            forall|b: u64|
                final(mem).has_table(b) ==> b == root.0 || (pbase <= b
                    && b < final(paging).start.0),
            forall|va: u64|
                lo3 <= va < hi3 ==> {
                    let t = #[trigger] it_table_of(pg3, lo3, va, 0x80_0000_0000);
                    &&& final(mem).table_at(root.0)[level_index_spec(va, 3) as int] == PTE(
                        crate::pte::table_desc((t - PPTR_BASE) as u64),
                    )
                    &&& final(mem).has_table(t)
                    &&& pbase <= t < old(paging).start.0
                    &&& t % 4096 == 0
                },
            forall|va: u64|
                lo <= va < lo + n * 0x4000_0000 ==> {
                    let pud = it_table_of(pg3, lo3, va, 0x80_0000_0000);
                    let t = #[trigger] it_table_of(old(paging).start.0, lo, va, 0x4000_0000);
                    &&& final(mem).table_at(pud)[level_index_spec(va, 2) as int] == PTE(
                        crate::pte::table_desc((t - PPTR_BASE) as u64),
                    )
                    &&& final(mem).has_table(t)
                    &&& final(mem).has_table(pud)
                    &&& old(paging).start.0 <= t < final(paging).start.0
                    &&& pbase <= pud < old(paging).start.0
                    &&& t % 4096 == 0
                },
    {
        let ghost pg0 = paging.start.0;
        let ghost cur0 = ndks.slot_pos_cur;
        proof {
            crate::addr::lemma_bit64_values();
            vstd::arithmetic::power2::lemma2_to64();
            vstd::arithmetic::power2::lemma2_to64_rest();
        }
        let hi = lo + n * bit(30);
        let mut addr = lo;
        let ghost mut j: int = 0;
        while addr < hi
            invariant
                0 <= j <= n,
                addr == lo + j * 0x4000_0000,
                hi == lo + n * 0x4000_0000,
                lo % 0x4000_0000 == 0,
                hi <= 0x1_0000_0000_0000,
                lo3 % 0x80_0000_0000 == 0,
                hi3 <= 0x1_0000_0000_0000,
                lo3 <= lo,
                pg3 + 0x1F_F000 <= u64::MAX,
                n > 0 ==> hi <= hi3,
                mem.wf(),
                mem.has_table(root.0),
                root.0 < pbase,
                PPTR_BASE <= pbase,
                pbase <= pg0,
                pg0 == old(paging).start.0,
                paging.start.0 == pg0 + j * 4096,
                paging.start.0 % 4096 == 0,
                paging.start.0 + (n - j) * 4096 <= paging.end.0,
                paging.end == old(paging).end,
                paging.end.0 <= PPTR_TOP,
                forall|b: u64|
                    mem.has_table(b) ==> b == root.0 || (pbase <= b && b < paging.start.0),
                self.addr == old(self).addr,
                self.slots@.len() == old(self).slots@.len(),
                cur0 == old(ndks).slot_pos_cur,
                cur0 + n <= self.slots@.len(),
                ndks.slot_pos_cur == cur0 + j,
                ndks.reserved == old(ndks).reserved,
                ndks.reserved_count == old(ndks).reserved_count,
                ndks.freemem == old(ndks).freemem,
                ndks.bi_frame == old(ndks).bi_frame,
                forall|k: int|
                    0 <= k < j ==> #[trigger] self.slots@[cur0 + k] == written_slot(
                        it_pt_cap((pg0 + k * 4096) as u64, (lo + k * 0x4000_0000) as u64)
                            .raw_spec(),
                    ),
                forall|i: int|
                    0 <= i < old(self).slots@.len() && !(cur0 <= i < cur0 + j) ==> self.slots@[i]
                        == old(self).slots@[i],
                forall|va: u64|
                    lo3 <= va < hi3 ==> {
                        let t = #[trigger] it_table_of(pg3, lo3, va, 0x80_0000_0000);
                        &&& mem.table_at(root.0)[level_index_spec(va, 3) as int] == PTE(
                            crate::pte::table_desc((t - PPTR_BASE) as u64),
                        )
                        &&& mem.has_table(t)
                        &&& pbase <= t < pg0
                        &&& t % 4096 == 0
                    },
                forall|va: u64|
                    lo <= va < addr ==> {
                        let pud = it_table_of(pg3, lo3, va, 0x80_0000_0000);
                        let t = #[trigger] it_table_of(pg0, lo, va, 0x4000_0000);
                        &&& mem.table_at(pud)[level_index_spec(va, 2) as int] == PTE(
                            crate::pte::table_desc((t - PPTR_BASE) as u64),
                        )
                        &&& mem.has_table(t)
                        &&& mem.has_table(pud)
                        &&& pg0 <= t < paging.start.0
                        &&& pbase <= pud < pg0
                        &&& t % 4096 == 0
                    },
            decreases hi - addr,
        {
            proof {
                if j >= n {
                    vstd::arithmetic::mul::lemma_mul_inequality(n as int, j, 0x4000_0000);
                }
                vstd::arithmetic::mul::lemma_mul_is_distributive_add_other_way(4096, j, 1);
                vstd::arithmetic::mul::lemma_mul_is_distributive_add_other_way(0x4000_0000, j, 1);
                vstd::arithmetic::mul::lemma_mul_inequality(j + 1, n as int, 4096);
                vstd::arithmetic::mul::lemma_mul_inequality(j + 1, n as int, 0x4000_0000);
                vstd::arithmetic::div_mod::lemma_mod_multiples_basic(j, 4096);
                crate::addr::lemma_bit64_values();
                vstd::arithmetic::power2::lemma2_to64();
                crate::addr::lemma_aligned_add(pg0, (j * 4096) as u64, 12);
            }
            let ghost mem0 = *mem;
            let ghost pud_a = it_table_of(pg3, lo3, addr, 0x80_0000_0000);
            proof {
                // The walk step through the root is ready: the entry for
                // this chunk is the table descriptor installed before.
                assert(lo3 <= addr < hi3);
                assert(mem.table_at(root.0)[level_index_spec(addr, 3) as int] == PTE(
                    crate::pte::table_desc((pud_a - PPTR_BASE) as u64),
                ));
                lemma_mod_sub_base(pud_a);
                lemma_table_desc_addr((pud_a - PPTR_BASE) as u64);
                mem.lemma_table_at_len(root.0);
                assert(level_index_spec(addr, 3) < 512) by {
                    let a2 = addr;
                    assert((a2 >> 39u64) & 0x1FF < 512u64) by (bit_vector);
                }
            }
            let page_ptr = paging.alloc_rootserver_obj(PAGE_BITS, 1);
            let cap = PageTableCap::empty().with_pt_base_ptr(page_ptr).with_pt_is_mapped(true)
                .with_pt_mapped_asid(IT_ASID).with_pt_mapped_address(addr);
            mem.insert_zeroed(page_ptr);
            let ghost mem1 = *mem;
            let mut vs = VSpace::new(root);
            vs.map_it_pd(mem, &cap);
            self.provide_cap(ndks, &cap);
            proof {
                assert(page_ptr.0 == pg0 + j * 4096);
                assert(level_index_spec(addr, 2) < 512) by {
                    let a2 = addr;
                    assert((a2 >> 30u64) & 0x1FF < 512u64) by (bit_vector);
                }
                assert(crate::vspace::walk_step_ok(mem1, root.0, addr, 3));
                assert(crate::vspace::next_table(mem1, root.0, addr, 3) == pud_a);
                assert(mem.table_at(pud_a) == mem1.table_at(pud_a).update(
                    level_index_spec(addr, 2) as int,
                    PTE(crate::pte::table_desc((page_ptr.0 - PPTR_BASE) as u64)),
                ));
                assert(addr < 0x1_0000_0000_0000) by {
                    vstd::arithmetic::mul::lemma_mul_strict_inequality(j, n as int, 0x4000_0000);
                }
                mem0.lemma_table_at_len(root.0);
                mem1.lemma_table_at_len(root.0);
                mem.lemma_table_at_len(root.0);
                mem0.lemma_table_at_len(pud_a);
                mem1.lemma_table_at_len(pud_a);
                mem.lemma_table_at_len(pud_a);
                assert(root.0 != page_ptr.0 && pud_a != page_ptr.0 && root.0 != pud_a);
                // The root's descriptors are untouched: only the table at
                // pud_a changed.
                assert(mem.table_at(root.0) == mem0.table_at(root.0));
                assert forall|va: u64| lo <= va < addr + 0x4000_0000 implies {
                    let pud = it_table_of(pg3, lo3, va, 0x80_0000_0000);
                    let t = #[trigger] it_table_of(pg0, lo, va, 0x4000_0000);
                    &&& mem.table_at(pud)[level_index_spec(va, 2) as int] == PTE(
                        crate::pte::table_desc((t - PPTR_BASE) as u64),
                    )
                    &&& mem.has_table(t)
                    &&& mem.has_table(pud)
                    &&& pg0 <= t < paging.start.0
                    &&& pbase <= pud < pg0
                    &&& t % 4096 == 0
                } by {
                    let pud = it_table_of(pg3, lo3, va, 0x80_0000_0000);
                    let t = it_table_of(pg0, lo, va, 0x4000_0000);
                    lemma_idx2_facts(addr, va);
                    assert(level_index_spec(va, 2) < 512) by {
                        let v2 = va;
                        assert((v2 >> 30u64) & 0x1FF < 512u64) by (bit_vector);
                    }
                    crate::addr::lemma_bit64_values();
                    if lo3 <= va {
                        lemma_chunk_shr(lo3, va, 39);
                    }
                    lemma_chunk_shr(lo3, addr, 39);
                    assert(lo3 <= va < hi3);
                    assert(mem0.has_table(pud));
                    assert(mem.has_table(pud));
                    if va < addr {
                        // An earlier chunk: its entry is preserved, either
                        // in another table or at another index.
                        assert(pud != page_ptr.0);
                        if pud == pud_a {
                            let k1 = chunk_of(lo3, va, 0x80_0000_0000);
                            let k2 = chunk_of(lo3, addr, 0x80_0000_0000);
                            lemma_chunk39_bound(lo3, va);
                            lemma_chunk39_bound(lo3, addr);
                            assert(pg3 + k1 * 4096 <= u64::MAX && pg3 + k2 * 4096 <= u64::MAX);
                            assert(k1 == k2);
                            assert(va >> 39 == addr >> 39);
                            assert(level_index_spec(va, 2) != level_index_spec(addr, 2));
                            assert(mem1.table_at(pud_a) == mem0.table_at(pud_a));
                            assert(mem1.table_at(pud_a).len() == 512);
                            assert(mem.table_at(pud_a) == mem1.table_at(pud_a).update(
                                level_index_spec(addr, 2) as int,
                                PTE(crate::pte::table_desc((page_ptr.0 - PPTR_BASE) as u64)),
                            ));
                            assert(level_index_spec(va, 2) as int != level_index_spec(
                                addr,
                                2,
                            ) as int);
                            assert(mem.table_at(pud_a)[level_index_spec(va, 2) as int]
                                == mem1.table_at(pud_a)[level_index_spec(va, 2) as int]);
                        } else {
                            assert(mem.table_at(pud) == mem0.table_at(pud));
                        }
                    } else {
                        // The chunk just installed: same second-level table
                        // and index as its chunk start.
                        assert(addr % 0x4000_0000 == 0 && addr <= va && va < addr + 0x4000_0000
                            ==> va >> 39u64 == addr >> 39u64) by (bit_vector);
                        assert(chunk_of(lo3, va, 0x80_0000_0000) == chunk_of(
                            lo3,
                            addr,
                            0x80_0000_0000,
                        ));
                        assert(pud == pud_a);
                        lemma_chunk_of_range(lo, va, 0x4000_0000, j);
                        assert(t == page_ptr.0);
                        assert(level_index_spec(va, 2) == level_index_spec(addr, 2));
                    }
                }
                assert forall|va: u64| lo3 <= va < hi3 implies {
                    let t = #[trigger] it_table_of(pg3, lo3, va, 0x80_0000_0000);
                    &&& mem.table_at(root.0)[level_index_spec(va, 3) as int] == PTE(
                        crate::pte::table_desc((t - PPTR_BASE) as u64),
                    )
                    &&& mem.has_table(t)
                    &&& pbase <= t < pg0
                    &&& t % 4096 == 0
                } by {
                    let t = it_table_of(pg3, lo3, va, 0x80_0000_0000);
                    assert(mem0.has_table(t));
                    assert(mem.has_table(t));
                }
                j = j + 1;
            }
            addr = addr + bit(30);
        }
        proof {
            if j < n {
                vstd::arithmetic::mul::lemma_mul_strict_inequality(j, n as int, 0x4000_0000);
            }
        }
    }

    /// Install one fourth-level table per 2-MiB chunk of the region: walk
    /// the root and second level installed before, allocate and hand over
    /// a zeroed table, write its descriptor into the third level, and mint
    /// its capability.
    #[verifier::rlimit(40)]
    fn map_it_pts(
        &mut self,
        paging: &mut KVirtRegion,
        ndks: &mut NdksBoot,
        mem: &mut PTMem,
        root: KAddr,
        lo: u64,
        n: u64,
        Ghost(pbase): Ghost<u64>,
        Ghost(lo3): Ghost<u64>,
        Ghost(hi3): Ghost<u64>,
        Ghost(pg3): Ghost<u64>,
        Ghost(lo2): Ghost<u64>,
        Ghost(hi2): Ghost<u64>,
        Ghost(pg2): Ghost<u64>,
    )
        requires
            old(mem).wf(),
            old(mem).has_table(root.0),
            root.0 < pbase,
            PPTR_BASE <= pbase,
            forall|b: u64|
                old(mem).has_table(b) ==> b == root.0 || (pbase <= b
                    && b < old(paging).start.0),
            lo % 0x20_0000 == 0,
            lo + n * 0x20_0000 <= 0x1_0000_0000_0000,
            lo3 % 0x80_0000_0000 == 0,
            hi3 <= 0x1_0000_0000_0000,
            lo3 <= lo,
            pg3 + 0x1F_F000 <= u64::MAX,
            n > 0 ==> lo + n * 0x20_0000 <= hi3,
            lo2 % 0x4000_0000 == 0,
            hi2 <= 0x1_0000_0000_0000,
            lo2 <= lo,
            pg2 + 0x3FFF_F000 <= u64::MAX,
            n > 0 ==> lo + n * 0x20_0000 <= hi2,
            forall|va: u64|
                lo3 <= va < hi3 ==> {
                    let t = #[trigger] it_table_of(pg3, lo3, va, 0x80_0000_0000);
                    &&& old(mem).table_at(root.0)[level_index_spec(va, 3) as int] == PTE(
                        crate::pte::table_desc((t - PPTR_BASE) as u64),
                    )
                    &&& old(mem).has_table(t)
                    &&& pbase <= t < pg2
                    &&& t % 4096 == 0
                },
            forall|va: u64|
                lo2 <= va < hi2 ==> {
                    let pud = it_table_of(pg3, lo3, va, 0x80_0000_0000);
                    let t = #[trigger] it_table_of(pg2, lo2, va, 0x4000_0000);
                    &&& old(mem).table_at(pud)[level_index_spec(va, 2) as int] == PTE(
                        crate::pte::table_desc((t - PPTR_BASE) as u64),
                    )
                    &&& old(mem).has_table(t)
                    &&& old(mem).has_table(pud)
                    &&& pg2 <= t < old(paging).start.0
                    &&& pbase <= pud < pg2
                    &&& t % 4096 == 0
                },
            pbase <= pg2,
            old(paging).start.0 % 4096 == 0,
            pg2 <= old(paging).start.0,
            old(paging).start.0 + n * 4096 <= old(paging).end.0,
            old(paging).end.0 <= PPTR_TOP,
            old(ndks).slot_pos_cur + n <= old(self).slots@.len(),
        ensures
            final(self).addr == old(self).addr,
            final(self).slots@.len() == old(self).slots@.len(),
            forall|k: int|
                0 <= k < n ==> #[trigger] final(self).slots@[old(ndks).slot_pos_cur + k]
                    == written_slot(
                    it_pt_cap(
                        (old(paging).start.0 + k * 4096) as u64,
                        (lo + k * 0x20_0000) as u64,
                    ).raw_spec(),
                ),
            forall|i: int|
                0 <= i < old(self).slots@.len() && !(old(ndks).slot_pos_cur <= i < old(
                    ndks,
                ).slot_pos_cur + n) ==> final(self).slots@[i] == old(self).slots@[i],
            final(ndks).slot_pos_cur == old(ndks).slot_pos_cur + n,
            final(ndks).reserved == old(ndks).reserved,
            final(ndks).reserved_count == old(ndks).reserved_count,
            final(ndks).freemem == old(ndks).freemem,
            final(ndks).bi_frame == old(ndks).bi_frame,
            final(paging).start.0 == old(paging).start.0 + n * 4096,
            final(paging).end == old(paging).end,
            final(mem).wf(),
            final(mem).has_table(root.0),
            forall|b: u64|
                final(mem).has_table(b) ==> b == root.0 || (pbase <= b
                    && b < final(paging).start.0),
            forall|va: u64|
                lo3 <= va < hi3 ==> {
                    let t = #[trigger] it_table_of(pg3, lo3, va, 0x80_0000_0000);
                    &&& final(mem).table_at(root.0)[level_index_spec(va, 3) as int] == PTE(
                        crate::pte::table_desc((t - PPTR_BASE) as u64),
                    )
                    &&& final(mem).has_table(t)
                    &&& pbase <= t < pg2
                    &&& t % 4096 == 0
                },
            forall|va: u64|
                lo2 <= va < hi2 ==> {
                    let pud = it_table_of(pg3, lo3, va, 0x80_0000_0000);
                    let t = #[trigger] it_table_of(pg2, lo2, va, 0x4000_0000);
                    &&& final(mem).table_at(pud)[level_index_spec(va, 2) as int] == PTE(
                        crate::pte::table_desc((t - PPTR_BASE) as u64),
                    )
                    &&& final(mem).has_table(t)
                    &&& final(mem).has_table(pud)
                    &&& pg2 <= t < old(paging).start.0
                    &&& pbase <= pud < pg2
                    &&& t % 4096 == 0
                },
            forall|va: u64|
                lo <= va < lo + n * 0x20_0000 ==> {
                    let pd = it_table_of(pg2, lo2, va, 0x4000_0000);
                    let t = #[trigger] it_table_of(old(paging).start.0, lo, va, 0x20_0000);
                    &&& final(mem).table_at(pd)[level_index_spec(va, 1) as int] == PTE(
                        crate::pte::table_desc((t - PPTR_BASE) as u64),
                    )
                    &&& final(mem).has_table(t)
                    &&& old(paging).start.0 <= t < final(paging).start.0
                    &&& t % 4096 == 0
                },
    {
        let ghost pg0 = paging.start.0;
        let ghost cur0 = ndks.slot_pos_cur;
        proof {
            crate::addr::lemma_bit64_values();
            vstd::arithmetic::power2::lemma2_to64();
            vstd::arithmetic::power2::lemma2_to64_rest();
        }
        let hi = lo + n * bit(21);
        let mut addr = lo;
        let ghost mut j: int = 0;
        while addr < hi
            invariant
                0 <= j <= n,
                addr == lo + j * 0x20_0000,
                hi == lo + n * 0x20_0000,
                lo % 0x20_0000 == 0,
                hi <= 0x1_0000_0000_0000,
                lo3 % 0x80_0000_0000 == 0,
                hi3 <= 0x1_0000_0000_0000,
                lo3 <= lo,
                pg3 + 0x1F_F000 <= u64::MAX,
                n > 0 ==> hi <= hi3,
                lo2 % 0x4000_0000 == 0,
                hi2 <= 0x1_0000_0000_0000,
                lo2 <= lo,
                pg2 + 0x3FFF_F000 <= u64::MAX,
                n > 0 ==> hi <= hi2,
                pbase <= pg2,
                pg2 <= pg0,
                mem.wf(),
                mem.has_table(root.0),
                root.0 < pbase,
                PPTR_BASE <= pbase,
                pbase <= pg0,
                pg0 == old(paging).start.0,
                paging.start.0 == pg0 + j * 4096,
                paging.start.0 % 4096 == 0,
                paging.start.0 + (n - j) * 4096 <= paging.end.0,
                paging.end == old(paging).end,
                paging.end.0 <= PPTR_TOP,
                forall|b: u64|
                    mem.has_table(b) ==> b == root.0 || (pbase <= b && b < paging.start.0),
                self.addr == old(self).addr,
                self.slots@.len() == old(self).slots@.len(),
                cur0 == old(ndks).slot_pos_cur,
                cur0 + n <= self.slots@.len(),
                ndks.slot_pos_cur == cur0 + j,
                ndks.reserved == old(ndks).reserved,
                ndks.reserved_count == old(ndks).reserved_count,
                ndks.freemem == old(ndks).freemem,
                ndks.bi_frame == old(ndks).bi_frame,
                forall|k: int|
                    0 <= k < j ==> #[trigger] self.slots@[cur0 + k] == written_slot(
                        it_pt_cap((pg0 + k * 4096) as u64, (lo + k * 0x20_0000) as u64)
                            .raw_spec(),
                    ),
                forall|i: int|
                    0 <= i < old(self).slots@.len() && !(cur0 <= i < cur0 + j) ==> self.slots@[i]
                        == old(self).slots@[i],
                forall|va: u64|
                    lo3 <= va < hi3 ==> {
                        let t = #[trigger] it_table_of(pg3, lo3, va, 0x80_0000_0000);
                        &&& mem.table_at(root.0)[level_index_spec(va, 3) as int] == PTE(
                            crate::pte::table_desc((t - PPTR_BASE) as u64),
                        )
                        &&& mem.has_table(t)
                        &&& pbase <= t < pg2
                        &&& t % 4096 == 0
                    },
                forall|va: u64|
                    lo2 <= va < hi2 ==> {
                        let pud = it_table_of(pg3, lo3, va, 0x80_0000_0000);
                        let t = #[trigger] it_table_of(pg2, lo2, va, 0x4000_0000);
                        &&& mem.table_at(pud)[level_index_spec(va, 2) as int] == PTE(
                            crate::pte::table_desc((t - PPTR_BASE) as u64),
                        )
                        &&& mem.has_table(t)
                        &&& mem.has_table(pud)
                        &&& pg2 <= t < pg0
                        &&& pbase <= pud < pg2
                        &&& t % 4096 == 0
                    },
                forall|va: u64|
                    lo <= va < addr ==> {
                        let pd = it_table_of(pg2, lo2, va, 0x4000_0000);
                        let t = #[trigger] it_table_of(pg0, lo, va, 0x20_0000);
                        &&& mem.table_at(pd)[level_index_spec(va, 1) as int] == PTE(
                            crate::pte::table_desc((t - PPTR_BASE) as u64),
                        )
                        &&& mem.has_table(t)
                        &&& pg0 <= t < paging.start.0
                        &&& t % 4096 == 0
                    },
            decreases hi - addr,
        {
            proof {
                if j >= n {
                    vstd::arithmetic::mul::lemma_mul_inequality(n as int, j, 0x20_0000);
                }
                vstd::arithmetic::mul::lemma_mul_is_distributive_add_other_way(4096, j, 1);
                vstd::arithmetic::mul::lemma_mul_is_distributive_add_other_way(0x20_0000, j, 1);
                vstd::arithmetic::mul::lemma_mul_inequality(j + 1, n as int, 4096);
                vstd::arithmetic::mul::lemma_mul_inequality(j + 1, n as int, 0x20_0000);
                vstd::arithmetic::div_mod::lemma_mod_multiples_basic(j, 4096);
                crate::addr::lemma_bit64_values();
                vstd::arithmetic::power2::lemma2_to64();
                crate::addr::lemma_aligned_add(pg0, (j * 4096) as u64, 12);
            }
            let ghost mem0 = *mem;
            let ghost pud_a = it_table_of(pg3, lo3, addr, 0x80_0000_0000);
            let ghost pd_a = it_table_of(pg2, lo2, addr, 0x4000_0000);
            proof {
                assert(lo3 <= addr < hi3);
                assert(lo2 <= addr < hi2);
                lemma_mod_sub_base(pud_a);
                lemma_table_desc_addr((pud_a - PPTR_BASE) as u64);
                lemma_mod_sub_base(pd_a);
                lemma_table_desc_addr((pd_a - PPTR_BASE) as u64);
                mem.lemma_table_at_len(root.0);
                mem.lemma_table_at_len(pud_a);
                assert(level_index_spec(addr, 3) < 512 && level_index_spec(addr, 2) < 512
                    && level_index_spec(addr, 1) < 512) by {
                    let a2 = addr;
                    assert((a2 >> 39u64) & 0x1FF < 512u64 && (a2 >> 30u64) & 0x1FF < 512u64 && (
                    a2 >> 21u64) & 0x1FF < 512u64) by (bit_vector);
                }
            }
            let page_ptr = paging.alloc_rootserver_obj(PAGE_BITS, 1);
            let cap = PageTableCap::empty().with_pt_base_ptr(page_ptr).with_pt_is_mapped(true)
                .with_pt_mapped_asid(IT_ASID).with_pt_mapped_address(addr);
            mem.insert_zeroed(page_ptr);
            let ghost mem1 = *mem;
            let mut vs = VSpace::new(root);
            vs.map_it_pt(mem, &cap);
            self.provide_cap(ndks, &cap);
            proof {
                assert(page_ptr.0 == pg0 + j * 4096);
                assert(crate::vspace::walk_step_ok(mem1, root.0, addr, 3));
                assert(crate::vspace::next_table(mem1, root.0, addr, 3) == pud_a);
                assert(crate::vspace::walk_step_ok(mem1, pud_a, addr, 2));
                assert(crate::vspace::next_table(mem1, pud_a, addr, 2) == pd_a);
                assert(mem.table_at(pd_a) == mem1.table_at(pd_a).update(
                    level_index_spec(addr, 1) as int,
                    PTE(crate::pte::table_desc((page_ptr.0 - PPTR_BASE) as u64)),
                ));
                assert(addr < 0x1_0000_0000_0000) by {
                    vstd::arithmetic::mul::lemma_mul_strict_inequality(j, n as int, 0x20_0000);
                }
                mem0.lemma_table_at_len(pd_a);
                mem1.lemma_table_at_len(pd_a);
                mem.lemma_table_at_len(pd_a);
                assert(root.0 != page_ptr.0 && pd_a != page_ptr.0 && root.0 != pd_a);
                assert(mem.table_at(root.0) == mem0.table_at(root.0));
                // Second-level descriptor tables all lie below `pg2`, so
                // the write at `pd_a` cannot reach them.
                assert forall|va: u64| lo3 <= va < hi3 implies {
                    let t = #[trigger] it_table_of(pg3, lo3, va, 0x80_0000_0000);
                    &&& mem.table_at(root.0)[level_index_spec(va, 3) as int] == PTE(
                        crate::pte::table_desc((t - PPTR_BASE) as u64),
                    )
                    &&& mem.has_table(t)
                    &&& pbase <= t < pg2
                    &&& t % 4096 == 0
                } by {
                    let t = it_table_of(pg3, lo3, va, 0x80_0000_0000);
                    assert(mem0.has_table(t));
                    assert(mem.has_table(t));
                }
                assert forall|va: u64| lo2 <= va < hi2 implies {
                    let pud = it_table_of(pg3, lo3, va, 0x80_0000_0000);
                    let t = #[trigger] it_table_of(pg2, lo2, va, 0x4000_0000);
                    &&& mem.table_at(pud)[level_index_spec(va, 2) as int] == PTE(
                        crate::pte::table_desc((t - PPTR_BASE) as u64),
                    )
                    &&& mem.has_table(t)
                    &&& mem.has_table(pud)
                    &&& pg2 <= t < pg0
                    &&& pbase <= pud < pg2
                    &&& t % 4096 == 0
                } by {
                    let pud = it_table_of(pg3, lo3, va, 0x80_0000_0000);
                    let t = it_table_of(pg2, lo2, va, 0x4000_0000);
                    assert(mem0.has_table(pud));
                    assert(mem1.has_table(pud));
                    assert(mem.has_table(pud));
                    assert(pud < pg2 <= pd_a);
                    assert(pud != pd_a && pud != page_ptr.0);
                    assert(mem1.table_at(pud) == mem0.table_at(pud));
                    assert(mem.table_at(pud) == mem1.table_at(pud));
                    assert(mem0.has_table(t));
                    assert(mem.has_table(t));
                }
                assert forall|va: u64| lo <= va < addr + 0x20_0000 implies {
                    let pd = it_table_of(pg2, lo2, va, 0x4000_0000);
                    let t = #[trigger] it_table_of(pg0, lo, va, 0x20_0000);
                    &&& mem.table_at(pd)[level_index_spec(va, 1) as int] == PTE(
                        crate::pte::table_desc((t - PPTR_BASE) as u64),
                    )
                    &&& mem.has_table(t)
                    &&& pg0 <= t < paging.start.0
                    &&& t % 4096 == 0
                } by {
                    let pd = it_table_of(pg2, lo2, va, 0x4000_0000);
                    let t = it_table_of(pg0, lo, va, 0x20_0000);
                    lemma_idx1_facts(addr, va);
                    assert(level_index_spec(va, 1) < 512) by {
                        let v2 = va;
                        assert((v2 >> 21u64) & 0x1FF < 512u64) by (bit_vector);
                    }
                    crate::addr::lemma_bit64_values();
                    if lo2 <= va {
                        lemma_chunk_shr(lo2, va, 30);
                    }
                    lemma_chunk_shr(lo2, addr, 30);
                    if va < addr {
                        assert(pd != page_ptr.0);
                        if pd == pd_a {
                            let k1 = chunk_of(lo2, va, 0x4000_0000);
                            let k2 = chunk_of(lo2, addr, 0x4000_0000);
                            lemma_chunk30_bound(lo2, va);
                            lemma_chunk30_bound(lo2, addr);
                            assert(pg2 + k1 * 4096 <= u64::MAX && pg2 + k2 * 4096 <= u64::MAX);
                            assert(k1 == k2);
                            assert(va >> 30 == addr >> 30);
                            assert(level_index_spec(va, 1) != level_index_spec(addr, 1));
                            assert(mem1.table_at(pd_a) == mem0.table_at(pd_a));
                            assert(mem.table_at(pd_a)[level_index_spec(va, 1) as int]
                                == mem1.table_at(pd_a)[level_index_spec(va, 1) as int]);
                        } else {
                            assert(mem.table_at(pd) == mem0.table_at(pd));
                        }
                    } else {
                        assert(addr % 0x20_0000 == 0 && addr <= va && va < addr + 0x20_0000
                            ==> va >> 30u64 == addr >> 30u64) by (bit_vector);
                        assert(chunk_of(lo2, va, 0x4000_0000) == chunk_of(
                            lo2,
                            addr,
                            0x4000_0000,
                        ));
                        assert(pd == pd_a);
                        lemma_chunk_of_range(lo, va, 0x20_0000, j);
                        assert(t == page_ptr.0);
                        assert(level_index_spec(va, 1) == level_index_spec(addr, 1));
                    }
                }
                j = j + 1;
            }
            addr = addr + bit(21);
        }
        proof {
            if j < n {
                vstd::arithmetic::mul::lemma_mul_strict_inequality(j, n as int, 0x20_0000);
            }
        }
    }

    /// Store a capability at the bootstrap cursor's slot and advance the
    /// cursor.
    pub fn provide_cap<C: CapTrait>(&mut self, ndks: &mut NdksBoot, cap: &C)
        requires
            old(ndks).slot_pos_cur < old(self).slots@.len(),
        ensures
            final(self).slots@ == old(self).slots@.update(
                old(ndks).slot_pos_cur as int,
                written_slot(cap.raw_spec()),
            ),
            final(self).addr == old(self).addr,
            final(ndks).slot_pos_cur == old(ndks).slot_pos_cur + 1,
            final(ndks).reserved == old(ndks).reserved,
            final(ndks).reserved_count == old(ndks).reserved_count,
            final(ndks).freemem == old(ndks).freemem,
            final(ndks).bi_frame == old(ndks).bi_frame,
    {
        let slot = ndks.slot_pos_cur;
        let len = self.slots.len();
        proof {
            assert(slot < len);
        }
        self.write(slot, cap);
        ndks.slot_pos_cur = slot + 1;
    }

    /// Build the initial task's address space: record the address-space
    /// root capability in its well-known slot, then install one page table
    /// per chunk of the task's virtual region at each level below the root
    /// — top down, minting a capability for every table — and record the
    /// minted slot range in the boot info.
    ///
    /// The paging region must hold exactly one page per table needed, and
    /// the slot cursor must sit past the well-known slots with room for
    /// every minted capability.
    #[verifier::rlimit(100)]
    pub fn create_it_address_space(
        &mut self,
        paging: &mut KVirtRegion,
        vspace_root: KAddr,
        ndks: &mut NdksBoot,
        mem: &mut PTMem,
        bi: &mut BootInfo,
        it_v_reg: VirtRegion,
    ) -> (r: VSpaceCap)
        requires
            it_v_reg.start.0 <= it_v_reg.end.0,
            it_v_reg.end.0 < crate::mem::USER_VADDR_CEIL,
            old(mem).wf(),
            old(mem).has_table(vspace_root.0),
            forall|b: u64| old(mem).has_table(b) ==> b == vspace_root.0,
            vspace_root.0 < old(paging).start.0,
            PPTR_BASE <= old(paging).start.0,
            old(paging).start.0 % 4096 == 0,
            old(paging).start.0 + n_paging_total(it_v_reg.start.0, it_v_reg.end.0) * 4096 <= old(
                paging,
            ).end.0,
            old(paging).end.0 <= PPTR_TOP,
            old(ndks).slot_pos_cur >= RootCNodeCapSlots::NumInitialCaps.index_spec(),
            old(ndks).slot_pos_cur + n_paging_total(it_v_reg.start.0, it_v_reg.end.0) <= old(
                self,
            ).slots@.len(),
        ensures
            r == (VSpaceCap {
                vs_mapped_asid: IT_ASID,
                vs_base_ptr: vspace_root,
                vs_is_mapped: true,
            }),
            it_layout(
                *final(self),
                *final(mem),
                *final(paging),
                *final(ndks),
                *old(self),
                *old(paging),
                old(ndks).slot_pos_cur,
                vspace_root.0,
                it_v_reg,
            ),
            final(ndks).reserved == old(ndks).reserved,
            final(ndks).reserved_count == old(ndks).reserved_count,
            final(ndks).freemem == old(ndks).freemem,
            final(ndks).bi_frame == old(ndks).bi_frame,
            final(paging).end == old(paging).end,
            final(bi).user_image_paging == (crate::boot_info::SlotRegion {
                start: old(ndks).slot_pos_cur,
                end: final(ndks).slot_pos_cur,
            }),
            bi_same_but_paging(*final(bi), *old(bi)),
    {
        proof {
            crate::addr::lemma_bit64_values();
            vstd::arithmetic::power2::lemma2_to64();
            vstd::arithmetic::power2::lemma2_to64_rest();
        }
        let ghost pbase = paging.start.0;
        let ghost cur0 = ndks.slot_pos_cur;
        let slot_pos_before = ndks.slot_pos_cur;

        let cap = VSpaceCap::empty().with_vs_mapped_asid(IT_ASID).with_vs_base_ptr(vspace_root)
            .with_vs_is_mapped(true);
        let vslot = RootCNodeCapSlots::InitThreadVSpace.index();
        proof {
            assert(vslot < old(self).slots@.len());
        }
        self.write(vslot, &cap);

        let lo39 = it_v_reg.start.align_down(3 * PAGE_TABLE_INDEX_BITS + PAGE_BITS);
        let n39 = crate::boot::get_n_paging(it_v_reg, 3 * PAGE_TABLE_INDEX_BITS + PAGE_BITS);
        let lo30 = it_v_reg.start.align_down(2 * PAGE_TABLE_INDEX_BITS + PAGE_BITS);
        let n30 = crate::boot::get_n_paging(it_v_reg, 2 * PAGE_TABLE_INDEX_BITS + PAGE_BITS);
        let lo21 = it_v_reg.start.align_down(PAGE_TABLE_INDEX_BITS + PAGE_BITS);
        let n21 = crate::boot::get_n_paging(it_v_reg, PAGE_TABLE_INDEX_BITS + PAGE_BITS);
        proof {
            crate::addr::lemma_align_nesting(it_v_reg.start.0, 30, 39);
            crate::addr::lemma_align_nesting(it_v_reg.start.0, 21, 30);
            crate::addr::lemma_align_nesting(it_v_reg.start.0, 21, 39);
            crate::addr::lemma_align_nesting(it_v_reg.end.0, 30, 39);
            crate::addr::lemma_align_nesting(it_v_reg.end.0, 21, 30);
            crate::addr::lemma_align_nesting(it_v_reg.end.0, 21, 39);
            crate::addr::lemma_multiple_gap_pow2_48(
                crate::addr::align_up64(it_v_reg.end.0, 39),
                39,
            );
            crate::addr::lemma_multiple_gap_pow2_48(
                crate::addr::align_up64(it_v_reg.end.0, 30),
                30,
            );
            crate::addr::lemma_multiple_gap_pow2_48(
                crate::addr::align_up64(it_v_reg.end.0, 21),
                21,
            );
        }
        let ghost pg3 = paging.start.0;
        self.map_it_puds(paging, ndks, mem, vspace_root, lo39.raw(), n39, Ghost(pbase));
        let ghost pg2 = paging.start.0;
        self.map_it_pds(
            paging,
            ndks,
            mem,
            vspace_root,
            lo30.raw(),
            n30,
            Ghost(pbase),
            Ghost(lo39.0),
            Ghost((lo39.0 + n39 * 0x80_0000_0000) as u64),
            Ghost(pg3),
        );
        let ghost pg1 = paging.start.0;
        self.map_it_pts(
            paging,
            ndks,
            mem,
            vspace_root,
            lo21.raw(),
            n21,
            Ghost(pbase),
            Ghost(lo39.0),
            Ghost((lo39.0 + n39 * 0x80_0000_0000) as u64),
            Ghost(pg3),
            Ghost(lo30.0),
            Ghost((lo30.0 + n30 * 0x4000_0000) as u64),
            Ghost(pg2),
        );

        let slot_pos_after = ndks.slot_pos_cur;
        bi.user_image_paging = crate::boot_info::SlotRegion {
            start: slot_pos_before,
            end: slot_pos_after,
        };
        cap
    }

    /// Map the boot-info frame into the initial task's address space and
    /// record the frame capability in its well-known slot.
    pub fn create_bi_frame_cap(
        &mut self,
        mem: &mut PTMem,
        root_server_mem: &mut RootServerMem,
        vspace: &VSpaceCap,
        vptr: VAddr,
    )
        requires
            old(mem).wf(),
            old(mem).has_table(vspace.vs_base_ptr.0),
            old(root_server_mem).boot_info.0 >= PPTR_BASE,
            old(root_server_mem).boot_info.0 % bit64(PAGE_BITS) == 0,
            frame_walk_ok(*old(mem), vspace.vs_base_ptr.0, vptr.0),
            RootCNodeCapSlots::BootInfoFrame.index_spec() < old(self).slots@.len(),
        ensures
            final(self).slots@ == old(self).slots@.update(
                RootCNodeCapSlots::BootInfoFrame.index_spec() as int,
                written_slot(
                    (FrameCap {
                        mapped_asid: IT_ASID,
                        base_ptr: old(root_server_mem).boot_info,
                        size: 0x1000,
                        mapped_address: vptr.0,
                        is_device: false,
                        fvm_rights: 2,
                    }).raw_spec(),
                ),
            ),
            final(self).addr == old(self).addr,
            *final(root_server_mem) == *old(root_server_mem),
            final(mem).wf(),
            forall|b: u64| final(mem).has_table(b) == old(mem).has_table(b),
            ({
                let pt = walk_pt(*old(mem), vspace.vs_base_ptr.0, vptr.0);
                &&& final(mem).table_at(pt) == old(mem).table_at(pt).update(
                    crate::vspace::level_index_spec(vptr.0, 0) as int,
                    PTE(
                        page_desc(
                            (old(root_server_mem).boot_info.0 - PPTR_BASE) as u64,
                            frame_flags(false),
                        ),
                    ),
                )
                &&& forall|b: u64|
                    b != pt && old(mem).has_table(b) ==> final(mem).table_at(b) == old(
                        mem,
                    ).table_at(b)
            }),
    {
        let mut vs = VSpace::new(vspace.get_vs_base_ptr());
        let cap = vs.create_mapped_it_frame_cap(
            mem,
            root_server_mem.boot_info,
            vptr,
            IT_ASID,
            false,
            false,
        );
        let slot = RootCNodeCapSlots::BootInfoFrame.index();
        self.write(slot, &cap);
    }

    /// Map the initial task's IPC buffer and record the frame capability in
    /// its well-known slot; the capability is also handed back for the
    /// boot info.
    pub fn create_ipcbuf_frame_cap(
        &mut self,
        mem: &mut PTMem,
        root_server_mem: &mut RootServerMem,
        vspace: &VSpaceCap,
        vptr: VAddr,
    ) -> (r: FrameCap)
        requires
            old(mem).wf(),
            old(mem).has_table(vspace.vs_base_ptr.0),
            old(root_server_mem).ipc_buf.0 >= PPTR_BASE,
            old(root_server_mem).ipc_buf.0 % bit64(PAGE_BITS) == 0,
            frame_walk_ok(*old(mem), vspace.vs_base_ptr.0, vptr.0),
            RootCNodeCapSlots::InitThreadIPCBuffer.index_spec() < old(self).slots@.len(),
        ensures
            r == (FrameCap {
                mapped_asid: IT_ASID,
                base_ptr: old(root_server_mem).ipc_buf,
                size: 0x1000,
                mapped_address: vptr.0,
                is_device: false,
                fvm_rights: 2,
            }),
            final(self).slots@ == old(self).slots@.update(
                RootCNodeCapSlots::InitThreadIPCBuffer.index_spec() as int,
                written_slot(r.raw_spec()),
            ),
            final(self).addr == old(self).addr,
            *final(root_server_mem) == *old(root_server_mem),
            final(mem).wf(),
            forall|b: u64| final(mem).has_table(b) == old(mem).has_table(b),
            ({
                let pt = walk_pt(*old(mem), vspace.vs_base_ptr.0, vptr.0);
                &&& final(mem).table_at(pt) == old(mem).table_at(pt).update(
                    crate::vspace::level_index_spec(vptr.0, 0) as int,
                    PTE(
                        page_desc(
                            (old(root_server_mem).ipc_buf.0 - PPTR_BASE) as u64,
                            frame_flags(false),
                        ),
                    ),
                )
                &&& forall|b: u64|
                    b != pt && old(mem).has_table(b) ==> final(mem).table_at(b) == old(
                        mem,
                    ).table_at(b)
            }),
    {
        let mut vs = VSpace::new(vspace.get_vs_base_ptr());
        let cap = vs.create_mapped_it_frame_cap(
            mem,
            root_server_mem.ipc_buf,
            vptr,
            IT_ASID,
            false,
            false,
        );
        let slot = RootCNodeCapSlots::InitThreadIPCBuffer.index();
        self.write(slot, &cap);
        cap
    }

    /// Map every page of a user-image region (a kernel-window region whose
    /// pages sit `pv_offset` above their user virtual addresses) and mint
    /// one frame capability per page at the bootstrap cursor. Returns the
    /// minted slot range.
    ///
    /// The walk for every page's virtual address must already go through,
    /// and the leaf tables must be separate from the descriptor tables and
    /// from each other across 2-MiB chunks, so the leaf writes leave every
    /// walk intact.
    #[verifier::rlimit(50)]
    pub fn create_frames_of_region(
        &mut self,
        ndks: &mut NdksBoot,
        mem: &mut PTMem,
        vspace: &VSpaceCap,
        reg: KVirtRegion,
        do_map: bool,
        pv_offset: u64,
    ) -> (result: Result<crate::boot_info::SlotRegion, ()>)
        requires
            do_map,
            old(mem).wf(),
            old(mem).has_table(vspace.vs_base_ptr.0),
            reg.start.0 <= reg.end.0,
            reg.start.0 % 4096 == 0,
            pv_offset % 4096 == 0,
            (reg.end.0 - reg.start.0) % 4096 == 0,
            PPTR_BASE + pv_offset <= reg.start.0,
            old(ndks).slot_pos_cur + (reg.end.0 - reg.start.0) / 4096 <= old(self).slots@.len(),
            forall|va: u64|
                reg.start.0 - pv_offset - PPTR_BASE <= va < reg.end.0 - pv_offset - PPTR_BASE
                    ==> #[trigger] frame_walk_ok(*old(mem), vspace.vs_base_ptr.0, va),
            leaf_tables_separate(
                *old(mem),
                vspace.vs_base_ptr.0,
                (reg.start.0 - pv_offset - PPTR_BASE) as u64,
                (reg.end.0 - pv_offset - PPTR_BASE) as u64,
            ),
            leaf_tables_injective(
                *old(mem),
                vspace.vs_base_ptr.0,
                (reg.start.0 - pv_offset - PPTR_BASE) as u64,
                (reg.end.0 - pv_offset - PPTR_BASE) as u64,
            ),
        ensures
            ({
                let npages = (reg.end.0 - reg.start.0) / 4096;
                let vlo = (reg.start.0 - pv_offset - PPTR_BASE) as u64;
                match result {
                    Ok(sr) => {
                        &&& sr.start == old(ndks).slot_pos_cur
                        &&& sr.end == old(ndks).slot_pos_cur + npages
                        &&& final(ndks).slot_pos_cur == old(ndks).slot_pos_cur + npages
                        &&& final(self).slots@.len() == old(self).slots@.len()
                        &&& (forall|k: int|
                            0 <= k < npages ==> #[trigger] final(self).slots@[old(
                                ndks,
                            ).slot_pos_cur + k] == written_slot(
                                (FrameCap {
                                    mapped_asid: IT_ASID,
                                    base_ptr: KAddr((reg.start.0 + k * 4096) as u64),
                                    size: 0x1000,
                                    mapped_address: (vlo + k * 4096) as u64,
                                    is_device: false,
                                    fvm_rights: 2,
                                }).raw_spec(),
                            ))
                        &&& (forall|i: int|
                            0 <= i < old(self).slots@.len() && !(old(ndks).slot_pos_cur <= i
                                < old(ndks).slot_pos_cur + npages) ==> final(self).slots@[i]
                                == old(self).slots@[i])
                        &&& final(self).addr == old(self).addr
                        &&& final(mem).wf()
                        &&& (forall|b: u64|
                            final(mem).has_table(b) == old(mem).has_table(b))
                        &&& (forall|k: int|
                            0 <= k < npages ==> #[trigger] final(mem).table_at(
                                walk_pt(*old(mem), vspace.vs_base_ptr.0, (vlo + k * 4096) as u64),
                            )[crate::vspace::level_index_spec(
                                (vlo + k * 4096) as u64,
                                0,
                            ) as int] == PTE(
                                page_desc(
                                    ((reg.start.0 + k * 4096) - PPTR_BASE) as u64,
                                    frame_flags(true),
                                ),
                            ))
                        &&& (forall|va2: u64|
                            vlo <= va2 < reg.end.0 - pv_offset - PPTR_BASE
                                ==> #[trigger] walk_pt(*final(mem), vspace.vs_base_ptr.0, va2)
                                == walk_pt(*old(mem), vspace.vs_base_ptr.0, va2))
                        &&& (forall|b: u64|
                            old(mem).has_table(b) && (forall|va2: u64|
                                vlo <= va2 < reg.end.0 - pv_offset - PPTR_BASE ==> b
                                    != #[trigger] walk_pt(*old(mem), vspace.vs_base_ptr.0, va2))
                                ==> #[trigger] final(mem).table_at(b) == old(mem).table_at(b))
                        &&& final(ndks).reserved == old(ndks).reserved
                        &&& final(ndks).reserved_count == old(ndks).reserved_count
                        &&& final(ndks).freemem == old(ndks).freemem
                        &&& final(ndks).bi_frame == old(ndks).bi_frame
                    },
                    Err(e) => false,
                }
            }),
    {
        let ghost root = vspace.vs_base_ptr.0;
        let ghost vlo = (reg.start.0 - pv_offset - PPTR_BASE) as u64;
        let ghost vhi = (reg.end.0 - pv_offset - PPTR_BASE) as u64;
        let ghost npages = ((reg.end.0 - reg.start.0) / 4096) as int;
        let ghost cur0 = ndks.slot_pos_cur;
        proof {
            vstd::arithmetic::div_mod::lemma_fundamental_div_mod(
                (reg.end.0 - reg.start.0) as int,
                4096,
            );
        }
        let mut vs = VSpace::new(vspace.get_vs_base_ptr());
        let slot_pos_before = ndks.slot_pos_cur;
        let page_sz = bit(PAGE_BITS);
        proof {
            crate::addr::lemma_bit64_values();
            vstd::arithmetic::power2::lemma2_to64();
        }
        let mut cur = reg.start;
        let ghost mut k: int = 0;
        while cur.0 < reg.end.0
            invariant
                vs.0 == vspace.vs_base_ptr,
                page_sz == 4096,
                0 <= k <= npages,
                cur.0 == reg.start.0 + k * 4096,
                cur.0 % 4096 == 0,
                reg.start.0 % 4096 == 0,
                reg.start.0 + npages * 4096 == reg.end.0,
                reg.start.0 <= reg.end.0,
                PPTR_BASE + pv_offset <= reg.start.0,
                vlo == reg.start.0 - pv_offset - PPTR_BASE,
                vhi == reg.end.0 - pv_offset - PPTR_BASE,
                mem.wf(),
                mem.has_table(root),
                root == vspace.vs_base_ptr.0,
                vlo % 4096 == 0,
                forall|va: u64| vlo <= va < vhi ==> #[trigger] frame_walk_ok(*mem, root, va),
                leaf_tables_separate(*mem, root, vlo, vhi),
                leaf_tables_injective(*mem, root, vlo, vhi),
                forall|va2: u64|
                    vlo <= va2 < vhi ==> (#[trigger] walk_pud(*mem, root, va2)) == walk_pud(
                        *old(mem),
                        root,
                        va2,
                    ) && walk_pd(*mem, root, va2) == walk_pd(*old(mem), root, va2) && walk_pt(
                        *mem,
                        root,
                        va2,
                    ) == walk_pt(*old(mem), root, va2),
                forall|j: int|
                    0 <= j < k ==> #[trigger] mem.table_at(
                        walk_pt(*old(mem), root, (vlo + j * 4096) as u64),
                    )[crate::vspace::level_index_spec((vlo + j * 4096) as u64, 0) as int] == PTE(
                        page_desc(
                            ((reg.start.0 + j * 4096) - PPTR_BASE) as u64,
                            frame_flags(true),
                        ),
                    ),
                forall|b: u64|
                    old(mem).has_table(b) && (forall|va2: u64|
                        vlo <= va2 < vhi ==> b != #[trigger] walk_pt(*old(mem), root, va2))
                        ==> #[trigger] mem.table_at(b) == old(mem).table_at(b),
                forall|b: u64| mem.has_table(b) == old(mem).has_table(b),
                self.addr == old(self).addr,
                self.slots@.len() == old(self).slots@.len(),
                cur0 == old(ndks).slot_pos_cur,
                cur0 + npages <= self.slots@.len(),
                ndks.slot_pos_cur == cur0 + k,
                ndks.reserved == old(ndks).reserved,
                ndks.reserved_count == old(ndks).reserved_count,
                ndks.freemem == old(ndks).freemem,
                ndks.bi_frame == old(ndks).bi_frame,
                forall|j: int|
                    0 <= j < k ==> #[trigger] self.slots@[cur0 + j] == written_slot(
                        (FrameCap {
                            mapped_asid: IT_ASID,
                            base_ptr: KAddr((reg.start.0 + j * 4096) as u64),
                            size: 0x1000,
                            mapped_address: (vlo + j * 4096) as u64,
                            is_device: false,
                            fvm_rights: 2,
                        }).raw_spec(),
                    ),
                forall|i: int|
                    0 <= i < old(self).slots@.len() && !(cur0 <= i < cur0 + k) ==> self.slots@[i]
                        == old(self).slots@[i],
            decreases reg.end.0 - cur.0,
        {
            proof {
                if k >= npages {
                    vstd::arithmetic::mul::lemma_mul_inequality(npages, k, 4096);
                }
                vstd::arithmetic::mul::lemma_mul_is_distributive_add_other_way(4096, k, 1);
                vstd::arithmetic::mul::lemma_mul_inequality(k + 1, npages, 4096);
            }
            let ghost pre = *mem;
            let vptr = VAddr(cur.0 - pv_offset - PPTR_BASE);
            proof {
                assert(vptr.0 == vlo + k * 4096);
                assert(frame_walk_ok(*mem, root, vptr.0));
                crate::addr::lemma_bit64_values();
                vstd::arithmetic::power2::lemma2_to64();
                assert(cur.0 % bit64(PAGE_BITS) == 0);
            }
            let frame_cap = vs.create_mapped_it_frame_cap(mem, cur, vptr, IT_ASID, false, true);
            self.provide_cap(ndks, &frame_cap);
            proof {
                lemma_leaf_write_preserves_walks(pre, *mem, root, vlo, vhi, vptr.0);
                vstd::arithmetic::div_mod::lemma_mod_multiples_basic(k + 1, 4096);
                vstd::arithmetic::mul::lemma_mul_is_distributive_add_other_way(4096, k, 1);
                crate::addr::lemma_aligned_add(reg.start.0, ((k + 1) * 4096) as u64, 12);
                let pt_cur = walk_pt(pre, root, vptr.0);
                assert(pt_cur == walk_pt(*old(mem), root, vptr.0));
                assert(mem.table_at(pt_cur) == pre.table_at(pt_cur).update(
                    crate::vspace::level_index_spec(vptr.0, 0) as int,
                    PTE(page_desc((cur.0 - PPTR_BASE) as u64, frame_flags(true))),
                ));
                assert(frame_walk_ok(pre, root, vptr.0));
                pre.lemma_table_at_len(pt_cur);
                mem.lemma_table_at_len(pt_cur);
                assert(crate::vspace::level_index_spec(vptr.0, 0) < 512) by {
                    let v2 = vptr.0;
                    assert((v2 >> 12u64) & 0x1FF < 512u64) by (bit_vector);
                }
                // Every page written so far — this one included — still
                // holds its leaf descriptor.
                assert forall|j: int|
                    0 <= j < k + 1 implies #[trigger] mem.table_at(
                    walk_pt(*old(mem), root, (vlo + j * 4096) as u64),
                )[crate::vspace::level_index_spec((vlo + j * 4096) as u64, 0) as int] == PTE(
                    page_desc(
                        ((reg.start.0 + j * 4096) - PPTR_BASE) as u64,
                        frame_flags(true),
                    ),
                ) by {
                    vstd::arithmetic::mul::lemma_mul_inequality(j, npages, 4096);
                    vstd::arithmetic::mul::lemma_mul_strict_inequality(j, npages, 4096);
                    let va_j = (vlo + j * 4096) as u64;
                    assert(vlo <= va_j < vhi);
                    assert(va_j % 4096 == 0) by {
                        vstd::arithmetic::div_mod::lemma_mod_multiples_basic(j, 4096);
                        crate::addr::lemma_bit64_values();
                        vstd::arithmetic::power2::lemma2_to64();
                        crate::addr::lemma_aligned_add(vlo, (j * 4096) as u64, 12);
                    }
                    assert(crate::vspace::level_index_spec(va_j, 0) < 512) by {
                        let v2 = va_j;
                        assert((v2 >> 12u64) & 0x1FF < 512u64) by (bit_vector);
                    }
                    let b_j = walk_pt(*old(mem), root, va_j);
                    if j == k {
                        assert(va_j == vptr.0);
                        assert(b_j == pt_cur);
                    } else {
                        assert(b_j == walk_pt(pre, root, va_j));
                        assert(frame_walk_ok(pre, root, va_j));
                        pre.lemma_table_at_len(b_j);
                        if b_j == pt_cur {
                            // Same leaf table: different page index.
                            assert(va_j >> 21 == vptr.0 >> 21);
                            assert(vptr.0 % 4096 == 0) by {
                                vstd::arithmetic::div_mod::lemma_mod_multiples_basic(k, 4096);
                                crate::addr::lemma_bit64_values();
                                vstd::arithmetic::power2::lemma2_to64();
                                crate::addr::lemma_aligned_add(vlo, (k * 4096) as u64, 12);
                            }
                            lemma_idx0_distinct(va_j, vptr.0);
                            assert(mem.table_at(pt_cur)[crate::vspace::level_index_spec(
                                va_j,
                                0,
                            ) as int] == pre.table_at(pt_cur)[crate::vspace::level_index_spec(
                                va_j,
                                0,
                            ) as int]);
                        } else {
                            assert(mem.table_at(b_j) == pre.table_at(b_j));
                        }
                    }
                }
                // Tables that serve no page of the range are untouched.
                assert forall|b: u64|
                    old(mem).has_table(b) && (forall|va2: u64|
                        vlo <= va2 < vhi ==> b != #[trigger] walk_pt(*old(mem), root, va2))
                        implies #[trigger] mem.table_at(b) == old(mem).table_at(b) by {
                    assert(vlo <= vptr.0 < vhi);
                    assert(b != walk_pt(*old(mem), root, vptr.0));
                    assert(b != pt_cur);
                    assert(pre.has_table(b));
                    assert(mem.table_at(b) == pre.table_at(b));
                }
                k = k + 1;
            }
            cur = KAddr(cur.0 + page_sz);
        }
        proof {
            if k < npages {
                vstd::arithmetic::mul::lemma_mul_strict_inequality(k, npages, 4096);
            }
        }
        let slot_pos_after = ndks.slot_pos_cur;
        Ok(crate::boot_info::SlotRegion { start: slot_pos_before, end: slot_pos_after })
    }

    /// Mint the initial task's ASID pool capability and the ASID control
    /// capability into their well-known slots.
    pub fn create_it_asid_pool(&mut self, root_server_mem: &mut RootServerMem) -> (r: AsidPoolCap)
        requires
            old(self).slots@.len() > RootCNodeCapSlots::ASIDControl.index_spec(),
            old(self).slots@.len() > RootCNodeCapSlots::InitThreadASIDPool.index_spec(),
        ensures
            r == (AsidPoolCap {
                asid_base: IT_ASID >> ASID_POOL_INDEX_BITS,
                asid_pool: old(root_server_mem).asid_pool.0,
            }),
            final(self).slots@ == old(self).slots@.update(
                RootCNodeCapSlots::InitThreadASIDPool.index_spec() as int,
                written_slot(r.raw_spec()),
            ).update(
                RootCNodeCapSlots::ASIDControl.index_spec() as int,
                written_slot([TAG_ASID_CONTROL, 0]),
            ),
            final(self).addr == old(self).addr,
            *final(root_server_mem) == *old(root_server_mem),
    {
        let cap = AsidPoolCap::empty().with_asid_base(IT_ASID >> ASID_POOL_INDEX_BITS)
            .with_asid_pool(root_server_mem.asid_pool.raw());
        let slot = RootCNodeCapSlots::InitThreadASIDPool.index();
        self.write(slot, &cap);
        let ctrl = AsidControlCap::empty();
        let ctrl_slot = RootCNodeCapSlots::ASIDControl.index();
        self.write(ctrl_slot, &ctrl);
        cap
    }
}

} // verus!
