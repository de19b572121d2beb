//! The virtual-address-space builder: the kernel window's page tables,
//! built once at boot, and the initial task's four-level table hierarchy,
//! built incrementally as its virtual regions are mapped.
//!
//! The page tables under construction live in carved root-server memory.
//! They are modeled by `PTMem`: the set of tables built so far, each the
//! 512-entry array at its kernel-window base address. Installing a level
//! writes one table descriptor in the parent and hands the fresh zero-
//! filled table to the model, exactly as the machine's memory would hold
//! it.
use crate::addr::{KAddr, PAddr, VAddr, PPTR_BASE, WINDOW_SIZE};
use crate::cap::{FrameCap, PageTableCap};
use crate::consts::{PAGE_BITS, VSPACE_INDEX_BITS};
use crate::pte::{
    page_desc, pte_paddr_of, table_desc, PTEFlags, PTE, PTE_AF, PTE_ATTR_INDX, PTE_NG,
    PTE_NON_BLOCK, PTE_PXN, PTE_VALID,
};
use vstd::prelude::*;

verus! {

/// Entries per translation table at every level.
pub const PTE_LEN: usize = 512;

/// Memory rights of a mapped frame.
pub enum VMRights {
    VMKernelOnly,
    VMReadOnly,
    VMReadWrite,
}

impl VMRights {
    /// The encoding stored in a frame capability's rights field.
    pub fn value(&self) -> (r: u64)
        ensures
            r == self.value_spec(),
    {
        match self {
            VMRights::VMKernelOnly => 0,
            VMRights::VMReadOnly => 1,
            VMRights::VMReadWrite => 2,
        }
    }

    pub open spec fn value_spec(&self) -> u64 {
        match self {
            VMRights::VMKernelOnly => 0u64,
            VMRights::VMReadOnly => 1u64,
            VMRights::VMReadWrite => 2u64,
        }
    }
}

/// One translation table: 512 entries.
pub struct PTable {
    pub entries: Vec<PTE>,
}

/// One table of the hierarchy under construction, at its kernel-window
/// base address.
pub struct InstalledTable {
    pub base: KAddr,
    pub table: PTable,
}

/// The page-table memory of the initial task's address space: every table
/// built so far. Bases are distinct; each base names one 512-entry table.
pub struct PTMem {
    pub tables: Vec<InstalledTable>,
}

impl PTMem {
    pub open spec fn wf(self) -> bool {
        &&& forall|i: int|
            0 <= i < self.tables@.len() ==> (#[trigger] self.tables@[i]).table.entries@.len()
                == PTE_LEN
        &&& forall|i: int, j: int|
            0 <= i < j < self.tables@.len() ==> (#[trigger] self.tables@[i]).base.0 != (
            #[trigger] self.tables@[j]).base.0
    }

    /// A table with this base address has been built.
    pub open spec fn has_table(self, base: u64) -> bool {
        exists|i: int| 0 <= i < self.tables@.len() && (#[trigger] self.tables@[i]).base.0 == base
    }

    /// The entries of the table at `base`.
    pub open spec fn table_at(self, base: u64) -> Seq<PTE> {
        self.tables@[choose|i: int|
            0 <= i < self.tables@.len() && (#[trigger] self.tables@[i]).base.0
                == base].table.entries@
    }

    /// An empty page-table memory: no tables built yet.
    pub fn new() -> (r: Self)
        ensures
            r.wf(),
            forall|b: u64| !r.has_table(b),
    {
        PTMem { tables: Vec::new() }
    }

    proof fn lemma_table_at_index(self, i: int)
        requires
            self.wf(),
            0 <= i < self.tables@.len(),
        ensures
            self.table_at(self.tables@[i].base.0) == self.tables@[i].table.entries@,
            self.has_table(self.tables@[i].base.0),
    {
        let b = self.tables@[i].base.0;
        assert(self.has_table(b));
        let j = choose|j: int|
            0 <= j < self.tables@.len() && (#[trigger] self.tables@[j]).base.0 == b;
        if i != j {
            if i < j {
                assert(self.tables@[i].base.0 != self.tables@[j].base.0);
            } else {
                assert(self.tables@[j].base.0 != self.tables@[i].base.0);
            }
        }
    }

    /// The table at a built base has the full 512 entries.
    pub proof fn lemma_table_at_len(self, base: u64)
        requires
            self.wf(),
            self.has_table(base),
        ensures
            self.table_at(base).len() == PTE_LEN,
    {
        let j = choose|j: int|
            0 <= j < self.tables@.len() && (#[trigger] self.tables@[j]).base.0 == base;
        assert(self.tables@[j].table.entries@.len() == PTE_LEN);
    }

    fn find_table(&self, base: u64) -> (r: Option<usize>)
        requires
            self.wf(),
        ensures
            match r {
                Some(i) => i < self.tables@.len() && self.tables@[i as int].base.0 == base
                    && self.has_table(base) && self.table_at(base) == self.tables@[
                i as int].table.entries@,
                None => !self.has_table(base),
            },
    {
        let mut i: usize = 0;
        let len = self.tables.len();
        while i < len
            invariant
                i <= len,
                len == self.tables@.len(),
                self.wf(),
                forall|j: int| 0 <= j < i ==> (#[trigger] self.tables@[j]).base.0 != base,
            decreases len - i,
        {
            if self.tables[i].base.raw() == base {
                proof {
                    self.lemma_table_at_index(i as int);
                }
                return Some(i);
            }
            i = i + 1;
        }
        None
    }

    /// The entry at `idx` of the table at `base`.
    pub fn get_entry(&self, base: u64, idx: usize) -> (r: PTE)
        requires
            self.wf(),
            self.has_table(base),
            idx < PTE_LEN,
        ensures
            r == self.table_at(base)[idx as int],
    {
        let i = self.find_table(base).unwrap();
        self.tables[i].table.entries[idx]
    }

    /// Write the entry at `idx` of the table at `base`, touching no other
    /// table and no other entry.
    pub fn set_entry(&mut self, base: u64, idx: usize, pte: PTE)
        requires
            old(self).wf(),
            old(self).has_table(base),
            idx < PTE_LEN,
        ensures
            final(self).wf(),
            forall|b: u64| final(self).has_table(b) == old(self).has_table(b),
            final(self).table_at(base) == old(self).table_at(base).update(idx as int, pte),
            forall|b: u64|
                b != base && old(self).has_table(b) ==> final(self).table_at(b) == old(
                    self,
                ).table_at(b),
    {
        let ghost pre = *self;
        let i = self.find_table(base).unwrap();
        let tbl = &mut self.tables[i].table;
        tbl.entries[idx] = pte;
        proof {
            assert(self.tables@.len() == pre.tables@.len());
            assert(forall|j: int|
                0 <= j < self.tables@.len() && j != i ==> self.tables@[j] == pre.tables@[j]);
            assert(self.tables@[i as int].base == pre.tables@[i as int].base);
            assert(self.tables@[i as int].table.entries@ == pre.tables@[
            i as int].table.entries@.update(idx as int, pte));
            assert forall|b: u64| final(self).has_table(b) == pre.has_table(b) by {
                if pre.has_table(b) {
                    let j = choose|j: int|
                        0 <= j < pre.tables@.len() && (#[trigger] pre.tables@[j]).base.0 == b;
                    assert(self.tables@[j].base.0 == b);
                }
                if self.has_table(b) {
                    let j = choose|j: int|
                        0 <= j < self.tables@.len() && (#[trigger] self.tables@[j]).base.0 == b;
                    assert(pre.tables@[j].base.0 == b);
                }
            }
            self.lemma_table_at_index(i as int);
            pre.lemma_table_at_index(i as int);
            assert forall|b: u64|
                b != base && pre.has_table(b) implies final(self).table_at(b) == pre.table_at(
                b,
            ) by {
                let j = choose|j: int|
                    0 <= j < pre.tables@.len() && (#[trigger] pre.tables@[j]).base.0 == b;
                assert(j != i);
                self.lemma_table_at_index(j);
                pre.lemma_table_at_index(j);
            }
        }
    }

    /// Hand a fresh zero-filled table at `base` to the model: the memory it
    /// lives in was zeroed when the root-server block was carved.
    pub fn insert_zeroed(&mut self, base: KAddr)
        requires
            old(self).wf(),
            !old(self).has_table(base.0),
        ensures
            final(self).wf(),
            forall|b: u64|
                final(self).has_table(b) == (b == base.0 || old(self).has_table(b)),
            final(self).table_at(base.0) =~= Seq::new(PTE_LEN as nat, |i: int| PTE(0)),
            forall|b: u64|
                b != base.0 && old(self).has_table(b) ==> final(self).table_at(b) == old(
                    self,
                ).table_at(b),
    {
        let ghost pre = *self;
        let mut entries: Vec<PTE> = Vec::new();
        let mut i: usize = 0;
        while i < PTE_LEN
            invariant
                i <= PTE_LEN,
                entries@.len() == i,
                forall|j: int| 0 <= j < i ==> entries@[j] == PTE(0u64),
            decreases PTE_LEN - i,
        {
            entries.push(PTE(0));
            i = i + 1;
        }
        self.tables.push(InstalledTable { base, table: PTable { entries } });
        proof {
            let n = pre.tables@.len() as int;
            assert(self.tables@ == pre.tables@.push(
                InstalledTable { base, table: PTable { entries: self.tables@[n].table.entries } },
            ));
            assert(forall|j: int| 0 <= j < n ==> self.tables@[j] == pre.tables@[j]);
            assert(self.tables@[n].base == base);
            assert forall|b: u64|
                final(self).has_table(b) == (b == base.0 || pre.has_table(b)) by {
                if self.has_table(b) {
                    let j = choose|j: int|
                        0 <= j < self.tables@.len() && (#[trigger] self.tables@[j]).base.0 == b;
                    if j < n {
                        assert(pre.tables@[j].base.0 == b);
                    }
                }
                if pre.has_table(b) {
                    let j = choose|j: int|
                        0 <= j < pre.tables@.len() && (#[trigger] pre.tables@[j]).base.0 == b;
                    assert(self.tables@[j].base.0 == b);
                }
                if b == base.0 {
                    assert(self.tables@[n].base.0 == b);
                }
            }
            assert(self.wf()) by {
                assert forall|i2: int, j2: int|
                    0 <= i2 < j2 < self.tables@.len() implies (#[trigger] self.tables@[
                i2]).base.0 != (#[trigger] self.tables@[j2]).base.0 by {
                    if j2 == n {
                        pre.lemma_table_at_index(i2);
                        assert(pre.has_table(self.tables@[i2].base.0));
                    }
                }
            }
            self.lemma_table_at_index(n);
            assert forall|b: u64|
                b != base.0 && pre.has_table(b) implies final(self).table_at(b) == pre.table_at(
                b,
            ) by {
                let j = choose|j: int|
                    0 <= j < pre.tables@.len() && (#[trigger] pre.tables@[j]).base.0 == b;
                self.lemma_table_at_index(j);
                pre.lemma_table_at_index(j);
            }
        }
    }
}

/// The translation-table index of `addr` at the given level: nine bits per
/// level above the twelve page-offset bits.
pub open spec fn level_index_spec(addr: u64, level: u64) -> u64 {
    (addr >> ((PAGE_BITS + 9 * level) as u64)) & 0x1FFu64
}

/// Decompose an address into its translation-table index at `level`.
pub fn addr_level_index(addr: u64, level: u64) -> (r: usize)
    requires
        level <= 3,
    ensures
        r == level_index_spec(addr, level),
        r < PTE_LEN,
{
    proof {
        let s: u64 = (PAGE_BITS + 9 * level) as u64;
        assert((addr >> s) & 0x1FFu64 < 512u64) by (bit_vector);
    }
    ((addr >> (PAGE_BITS + 9 * level)) & 0x1FF) as usize
}

/// The flags of every bootstrap mapping: valid, accessed, default memory
/// attributes, not global.
pub open spec fn boot_mapping_flags() -> u64 {
    PTE_VALID | PTE_AF | PTE_ATTR_INDX | PTE_NG
}

/// A reference to the initial task's address-space root.
#[derive(Clone, Copy, PartialEq, Eq, Structural, Debug)]
pub struct VSpace(pub KAddr);

impl VSpace {
    pub fn new(addr: KAddr) -> (r: Self)
        ensures
            r.0 == addr,
    {
        VSpace(addr)
    }

    /// The kernel-window address of the root table.
    pub fn vspace_addr(&self) -> (r: KAddr)
        ensures
            r == self.0,
    {
        self.0
    }

    /// Install a second-level table: write its table descriptor into the
    /// root table at the capability's mapped address.
    pub fn map_it_pud(&mut self, mem: &mut PTMem, cap: &PageTableCap)
        requires
            old(mem).wf(),
            old(mem).has_table(old(self).0.0),
            cap.pt_base_ptr.0 >= PPTR_BASE,
        ensures
            *final(self) == *old(self),
            final(mem).wf(),
            forall|b: u64| final(mem).has_table(b) == old(mem).has_table(b),
            final(mem).table_at(old(self).0.0) == old(mem).table_at(old(self).0.0).update(
                level_index_spec(cap.pt_mapped_address, 3) as int,
                PTE(table_desc((cap.pt_base_ptr.0 - PPTR_BASE) as u64)),
            ),
            forall|b: u64|
                b != old(self).0.0 && old(mem).has_table(b) ==> final(mem).table_at(b) == old(
                    mem,
                ).table_at(b),
    {
        let map_addr = cap.get_pt_mapped_address();
        let pgd_index = addr_level_index(map_addr, 3);
        mem.set_entry(
            self.0.raw(),
            pgd_index,
            PTE::new_table(cap.get_pt_base_ptr().paddr().raw()),
        );
    }

    /// Install a third-level table: walk the root, then write the table
    /// descriptor into the second level.
    pub fn map_it_pd(&mut self, mem: &mut PTMem, cap: &PageTableCap)
        requires
            old(mem).wf(),
            old(mem).has_table(old(self).0.0),
            cap.pt_base_ptr.0 >= PPTR_BASE,
            walk_step_ok(*old(mem), old(self).0.0, cap.pt_mapped_address, 3),
        ensures
            *final(self) == *old(self),
            final(mem).wf(),
            forall|b: u64| final(mem).has_table(b) == old(mem).has_table(b),
            ({
                let pud = next_table(*old(mem), old(self).0.0, cap.pt_mapped_address, 3);
                &&& final(mem).table_at(pud) == old(mem).table_at(pud).update(
                    level_index_spec(cap.pt_mapped_address, 2) as int,
                    PTE(table_desc((cap.pt_base_ptr.0 - PPTR_BASE) as u64)),
                )
                &&& forall|b: u64|
                    b != pud && old(mem).has_table(b) ==> final(mem).table_at(b) == old(
                        mem,
                    ).table_at(b)
            }),
    {
        let map_addr = cap.get_pt_mapped_address();
        let pgd_index = addr_level_index(map_addr, 3);
        let e = mem.get_entry(self.0.raw(), pgd_index);
        let pud_base = PAddr(e.address()).pptr();
        let pud_index = addr_level_index(map_addr, 2);
        mem.set_entry(
            pud_base.raw(),
            pud_index,
            PTE::new_table(cap.get_pt_base_ptr().paddr().raw()),
        );
    }

    /// Install a fourth-level table: walk the root and the second level,
    /// then write the table descriptor into the third level.
    pub fn map_it_pt(&mut self, mem: &mut PTMem, cap: &PageTableCap)
        requires
            old(mem).wf(),
            old(mem).has_table(old(self).0.0),
            cap.pt_base_ptr.0 >= PPTR_BASE,
            walk_step_ok(*old(mem), old(self).0.0, cap.pt_mapped_address, 3),
            walk_step_ok(
                *old(mem),
                next_table(*old(mem), old(self).0.0, cap.pt_mapped_address, 3),
                cap.pt_mapped_address,
                2,
            ),
        ensures
            *final(self) == *old(self),
            final(mem).wf(),
            forall|b: u64| final(mem).has_table(b) == old(mem).has_table(b),
            ({
                let pud = next_table(*old(mem), old(self).0.0, cap.pt_mapped_address, 3);
                let pd = next_table(*old(mem), pud, cap.pt_mapped_address, 2);
                &&& final(mem).table_at(pd) == old(mem).table_at(pd).update(
                    level_index_spec(cap.pt_mapped_address, 1) as int,
                    PTE(table_desc((cap.pt_base_ptr.0 - PPTR_BASE) as u64)),
                )
                &&& forall|b: u64|
                    b != pd && old(mem).has_table(b) ==> final(mem).table_at(b) == old(
                        mem,
                    ).table_at(b)
            }),
    {
        let map_addr = cap.get_pt_mapped_address();
        let pgd_index = addr_level_index(map_addr, 3);
        let e3 = mem.get_entry(self.0.raw(), pgd_index);
        let pud_base = PAddr(e3.address()).pptr();
        let pud_index = addr_level_index(map_addr, 2);
        let e2 = mem.get_entry(pud_base.raw(), pud_index);
        let pd_base = PAddr(e2.address()).pptr();
        let pd_index = addr_level_index(map_addr, 1);
        mem.set_entry(
            pd_base.raw(),
            pd_index,
            PTE::new_table(cap.get_pt_base_ptr().paddr().raw()),
        );
    }

    /// Map one frame for the initial task: walk all four levels, write the
    /// leaf page descriptor, and return the frame capability recording the
    /// mapping.
    pub fn create_mapped_it_frame_cap(
        &mut self,
        mem: &mut PTMem,
        pptr: KAddr,
        vptr: VAddr,
        asid: u64,
        use_large: bool,
        executable: bool,
    ) -> (r: FrameCap)
        requires
            old(mem).wf(),
            old(mem).has_table(old(self).0.0),
            pptr.0 >= PPTR_BASE,
            pptr.0 % crate::addr::bit64(PAGE_BITS) == 0,
            use_large ==> pptr.0 % crate::addr::bit64(crate::consts::LARGE_PAGE_BITS) == 0,
            walk_step_ok(*old(mem), old(self).0.0, vptr.0, 3),
            walk_step_ok(
                *old(mem),
                next_table(*old(mem), old(self).0.0, vptr.0, 3),
                vptr.0,
                2,
            ),
            walk_step_ok(
                *old(mem),
                next_table(
                    *old(mem),
                    next_table(*old(mem), old(self).0.0, vptr.0, 3),
                    vptr.0,
                    2,
                ),
                vptr.0,
                1,
            ),
        ensures
            *final(self) == *old(self),
            final(mem).wf(),
            forall|b: u64| final(mem).has_table(b) == old(mem).has_table(b),
            r == (FrameCap {
                mapped_asid: asid,
                base_ptr: pptr,
                size: if use_large {
                    0x20_0000u64
                } else {
                    0x1000u64
                },
                mapped_address: vptr.0,
                is_device: false,
                fvm_rights: 2,
            }),
            ({
                let pud = next_table(*old(mem), old(self).0.0, vptr.0, 3);
                let pd = next_table(*old(mem), pud, vptr.0, 2);
                let pt = next_table(*old(mem), pd, vptr.0, 1);
                let flags = if executable {
                    boot_mapping_flags()
                } else {
                    boot_mapping_flags() | PTE_PXN
                };
                &&& final(mem).table_at(pt) == old(mem).table_at(pt).update(
                    level_index_spec(vptr.0, 0) as int,
                    PTE(page_desc((pptr.0 - PPTR_BASE) as u64, flags)),
                )
                &&& forall|b: u64|
                    b != pt && old(mem).has_table(b) ==> final(mem).table_at(b) == old(
                        mem,
                    ).table_at(b)
            }),
    {
        let frame_size: u64 = if use_large {
            0x20_0000
        } else {
            0x1000
        };
        let rights = VMRights::VMReadWrite;
        let cap = FrameCap::empty().with_mapped_asid(asid).with_base_ptr(pptr).with_size(
            frame_size,
        ).with_mapped_address(vptr.raw()).with_is_device(false).with_fvm_rights(rights.value());

        let mut flags = PTEFlags::new(PTE_VALID | PTE_AF | PTE_ATTR_INDX | PTE_NG);
        if !executable {
            flags = flags.union(PTEFlags::new(PTE_PXN));
        }

        let map_addr = cap.get_mapped_address();
        let pgd_index = addr_level_index(map_addr, 3);
        let e3 = mem.get_entry(self.0.raw(), pgd_index);
        let pud_base = PAddr(e3.address()).pptr();
        let pud_index = addr_level_index(map_addr, 2);
        let e2 = mem.get_entry(pud_base.raw(), pud_index);
        let pd_base = PAddr(e2.address()).pptr();
        let pd_index = addr_level_index(map_addr, 1);
        let e1 = mem.get_entry(pd_base.raw(), pd_index);
        let pt_base = PAddr(e1.address()).pptr();
        let pt_index = addr_level_index(map_addr, 0);
        proof {
            // The stored physical address keeps its page alignment and is
            // below the window size, well inside the translatable range.
            crate::addr::lemma_bit64_values();
            vstd::arithmetic::power2::lemma2_to64();
            lemma_frame_paddr_aligned(pptr.0);
        }
        mem.set_entry(
            pt_base.raw(),
            pt_index,
            PTE::new_page(cap.get_base_ptr().paddr().raw(), flags),
        );
        cap
    }
}

/// Subtracting the window base from a page-aligned kernel address leaves a
/// page-aligned physical address below the window size.
proof fn lemma_frame_paddr_aligned(k: u64)
    requires
        k >= PPTR_BASE,
        k % 0x1000 == 0,
    ensures
        ((k - PPTR_BASE) as u64) % 0x1000 == 0,
        ((k - PPTR_BASE) as u64) < 0x1_0000_0000_0000,
{
    assert(0xFFFF_FF80_0000_0000u64 % 0x1000u64 == 0) by (bit_vector);
    vstd::arithmetic::div_mod::lemma_sub_mod_noop(k as int, PPTR_BASE as int, 0x1000);
    vstd::arithmetic::div_mod::lemma_mod_self_0(0x1000);
    assert((k - PPTR_BASE) % 0x1000 == (k % 0x1000 - PPTR_BASE % 0x1000) % 0x1000);
    vstd::arithmetic::div_mod::lemma_small_mod(0nat, 4096nat);
}

/// The walk from the table at `base` can descend one level at `addr`: the
/// indexed entry is a valid table descriptor whose target lies in the
/// physical window and has been built.
pub open spec fn walk_step_ok(mem: PTMem, base: u64, addr: u64, level: u64) -> bool {
    let e = mem.table_at(base)[level_index_spec(addr, level) as int];
    &&& e.0 & (PTE_VALID | PTE_NON_BLOCK) == (PTE_VALID | PTE_NON_BLOCK)
    &&& pte_paddr_of(e.0) < WINDOW_SIZE
    &&& mem.has_table(next_table(mem, base, addr, level))
}

/// The kernel-window base address of the table the indexed entry points
/// to.
pub open spec fn next_table(mem: PTMem, base: u64, addr: u64, level: u64) -> u64 {
    (pte_paddr_of(mem.table_at(base)[level_index_spec(addr, level) as int].0) + PPTR_BASE) as u64
}

/// The second-level table the walk for `va` passes through.
pub open spec fn walk_pud(mem: PTMem, root: u64, va: u64) -> u64 {
    next_table(mem, root, va, 3)
}

/// The third-level table the walk for `va` passes through.
pub open spec fn walk_pd(mem: PTMem, root: u64, va: u64) -> u64 {
    next_table(mem, walk_pud(mem, root, va), va, 2)
}

/// The leaf table the walk for `va` ends at.
pub open spec fn walk_pt(mem: PTMem, root: u64, va: u64) -> u64 {
    next_table(mem, walk_pd(mem, root, va), va, 1)
}

/// The full four-level walk for `va` goes through: every level's entry is a
/// valid table descriptor naming a built table.
pub open spec fn frame_walk_ok(mem: PTMem, root: u64, va: u64) -> bool {
    &&& walk_step_ok(mem, root, va, 3)
    &&& walk_step_ok(mem, walk_pud(mem, root, va), va, 2)
    &&& walk_step_ok(mem, walk_pd(mem, root, va), va, 1)
}

/// No leaf table of a walk in `[lo, hi)` doubles as the root or as a
/// descriptor table of any walk in the range: writing leaf entries then
/// leaves every walk intact.
pub open spec fn leaf_tables_separate(mem: PTMem, root: u64, lo: u64, hi: u64) -> bool {
    forall|va: u64, va2: u64|
        lo <= va < hi && lo <= va2 < hi ==> (#[trigger] walk_pt(mem, root, va)) != root && walk_pt(
            mem,
            root,
            va,
        ) != (#[trigger] walk_pud(mem, root, va2)) && walk_pt(mem, root, va) != walk_pd(
            mem,
            root,
            va2,
        )
}

/// Walks of addresses in different 2-MiB chunks end at different leaf
/// tables, so a leaf write for one address cannot reach another chunk's
/// entries.
pub open spec fn leaf_tables_injective(mem: PTMem, root: u64, lo: u64, hi: u64) -> bool {
    forall|va: u64, va2: u64|
        lo <= va < hi && lo <= va2 < hi && va >> 21 != va2 >> 21 ==> (#[trigger] walk_pt(
            mem,
            root,
            va,
        )) != (#[trigger] walk_pt(mem, root, va2))
}

/// A leaf write at the end of one walk in the range leaves every walk of
/// the range intact.
pub proof fn lemma_leaf_write_preserves_walks(
    pre: PTMem,
    post: PTMem,
    root: u64,
    lo: u64,
    hi: u64,
    va0: u64,
)
    requires
        lo <= va0 < hi,
        pre.has_table(root),
        forall|va: u64| lo <= va < hi ==> #[trigger] frame_walk_ok(pre, root, va),
        leaf_tables_separate(pre, root, lo, hi),
        forall|b: u64| post.has_table(b) == pre.has_table(b),
        forall|b: u64|
            b != walk_pt(pre, root, va0) && pre.has_table(b) ==> post.table_at(b) == pre.table_at(
                b,
            ),
    ensures
        forall|va: u64| lo <= va < hi ==> #[trigger] frame_walk_ok(post, root, va),
        forall|va: u64|
            lo <= va < hi ==> (#[trigger] walk_pud(post, root, va)) == walk_pud(pre, root, va)
                && walk_pd(post, root, va) == walk_pd(pre, root, va) && walk_pt(post, root, va)
                == walk_pt(pre, root, va),
        leaf_tables_separate(post, root, lo, hi),
        leaf_tables_injective(pre, root, lo, hi) ==> leaf_tables_injective(post, root, lo, hi),
{
    let t = walk_pt(pre, root, va0);
    assert forall|va: u64|
        lo <= va < hi implies (#[trigger] walk_pud(post, root, va)) == walk_pud(pre, root, va)
        && walk_pd(post, root, va) == walk_pd(pre, root, va) && walk_pt(post, root, va) == walk_pt(
        pre,
        root,
        va,
    ) by {
        assert(frame_walk_ok(pre, root, va));
        assert(t != root);
        assert(post.table_at(root) == pre.table_at(root));
        assert(walk_pud(post, root, va) == walk_pud(pre, root, va));
        assert(t != walk_pud(pre, root, va));
        assert(post.table_at(walk_pud(pre, root, va)) == pre.table_at(walk_pud(pre, root, va)));
        assert(walk_pd(post, root, va) == walk_pd(pre, root, va));
        assert(t != walk_pd(pre, root, va));
        assert(post.table_at(walk_pd(pre, root, va)) == pre.table_at(walk_pd(pre, root, va)));
        assert(walk_pt(post, root, va) == walk_pt(pre, root, va));
    }
    assert forall|va: u64| lo <= va < hi implies #[trigger] frame_walk_ok(post, root, va) by {
        assert(frame_walk_ok(pre, root, va));
        assert(walk_pud(post, root, va) == walk_pud(pre, root, va));
        assert(post.table_at(root) == pre.table_at(root));
        assert(post.table_at(walk_pud(pre, root, va)) == pre.table_at(walk_pud(pre, root, va)));
        assert(post.table_at(walk_pd(pre, root, va)) == pre.table_at(walk_pd(pre, root, va)));
    }
    assert(leaf_tables_separate(post, root, lo, hi)) by {
        assert forall|va: u64, va2: u64|
            lo <= va < hi && lo <= va2 < hi implies (#[trigger] walk_pt(post, root, va)) != root
            && walk_pt(post, root, va) != (#[trigger] walk_pud(post, root, va2)) && walk_pt(
            post,
            root,
            va,
        ) != walk_pd(post, root, va2) by {
            assert(walk_pt(post, root, va) == walk_pt(pre, root, va));
            assert(walk_pud(post, root, va2) == walk_pud(pre, root, va2));
            assert(walk_pd(post, root, va2) == walk_pd(pre, root, va2));
        }
    }
    if leaf_tables_injective(pre, root, lo, hi) {
        assert forall|va: u64, va2: u64|
            lo <= va < hi && lo <= va2 < hi && va >> 21 != va2 >> 21 implies (#[trigger] walk_pt(
            post,
            root,
            va,
        )) != (#[trigger] walk_pt(post, root, va2)) by {
            assert(walk_pt(post, root, va) == walk_pt(pre, root, va));
            assert(walk_pt(post, root, va2) == walk_pt(pre, root, va2));
            assert(walk_pt(pre, root, va) != walk_pt(pre, root, va2));
        }
    }
}

/// Byte offset of the top-level table inside `GlobalPageTable`.
pub const GPT_PGD_OFFSET: u64 = 0x1000;

/// Byte offset of the second-level table inside `GlobalPageTable`.
pub const GPT_PUD_OFFSET: u64 = 0x2000;

/// Byte offset of the first third-level table inside `GlobalPageTable`;
/// the 512 third-level tables follow contiguously, 4 KiB each.
pub const GPT_PDS_OFFSET: u64 = 0x3000;

/// Byte offset of the kernel-device page table inside `GlobalPageTable`.
pub const GPT_PT_OFFSET: u64 = 0x20_3000;

/// Total bytes of `GlobalPageTable`.
pub const GPT_SIZE: u64 = 0x20_4000;

/// The kernel's own translation tables, laid out contiguously: the user
/// top-level slots, the kernel top-level table, one second-level table, 512
/// third-level tables (flattened here), and the kernel-device table.
pub struct GlobalPageTable {
    pub user_vspace: Vec<u64>,
    pub pgd: Vec<PTE>,
    pub pud: Vec<PTE>,
    pub pds: Vec<PTE>,
    pub pt: Vec<PTE>,
}

impl GlobalPageTable {
    pub open spec fn wf(self) -> bool {
        &&& self.user_vspace@.len() == PTE_LEN
        &&& self.pgd@.len() == PTE_LEN
        &&& self.pud@.len() == PTE_LEN
        &&& self.pds@.len() == PTE_LEN * PTE_LEN
        &&& self.pt@.len() == PTE_LEN
    }

    /// All-invalid tables: what the zero-initialised kernel image holds
    /// before the window is mapped.
    pub fn new() -> (r: Self)
        ensures
            r.wf(),
            forall|i: int| 0 <= i < PTE_LEN ==> r.user_vspace@[i] == 0u64,
            forall|i: int| 0 <= i < PTE_LEN ==> r.pgd@[i] == PTE(0u64),
            forall|i: int| 0 <= i < PTE_LEN ==> r.pud@[i] == PTE(0u64),
            forall|i: int| 0 <= i < PTE_LEN * PTE_LEN ==> r.pds@[i] == PTE(0u64),
            forall|i: int| 0 <= i < PTE_LEN ==> r.pt@[i] == PTE(0u64),
    {
        let mut user_vspace: Vec<u64> = Vec::new();
        let mut pgd: Vec<PTE> = Vec::new();
        let mut pud: Vec<PTE> = Vec::new();
        let mut pds: Vec<PTE> = Vec::new();
        let mut pt: Vec<PTE> = Vec::new();
        let mut i: usize = 0;
        while i < PTE_LEN
            invariant
                i <= PTE_LEN,
                user_vspace@.len() == i,
                pgd@.len() == i,
                pud@.len() == i,
                pt@.len() == i,
                forall|j: int| 0 <= j < i ==> user_vspace@[j] == 0u64,
                forall|j: int| 0 <= j < i ==> pgd@[j] == PTE(0u64),
                forall|j: int| 0 <= j < i ==> pud@[j] == PTE(0u64),
                forall|j: int| 0 <= j < i ==> pt@[j] == PTE(0u64),
            decreases PTE_LEN - i,
        {
            user_vspace.push(0);
            pgd.push(PTE(0));
            pud.push(PTE(0));
            pt.push(PTE(0));
            i = i + 1;
        }
        let mut k: usize = 0;
        while k < PTE_LEN * PTE_LEN
            invariant
                k <= PTE_LEN * PTE_LEN,
                pds@.len() == k,
                forall|j: int| 0 <= j < k ==> pds@[j] == PTE(0u64),
            decreases PTE_LEN * PTE_LEN - k,
        {
            pds.push(PTE(0));
            k = k + 1;
        }
        GlobalPageTable { user_vspace, pgd, pud, pds, pt }
    }

    /// Map the kernel window: the top-level table's last slot names the
    /// second level, every second-level entry names one third-level table,
    /// and every third-level entry maps one 2-MiB physical block with the
    /// bootstrap flags — covering the full window in 2-MiB steps.
    ///
    /// `base` is the physical address these tables themselves live at,
    /// which the written table descriptors must name.
    pub fn map_kernel_window(&mut self, base: PAddr)
        requires
            old(self).wf(),
            base.0 + GPT_SIZE <= u64::MAX,
        ensures
            final(self).wf(),
            final(self).pgd@ == old(self).pgd@.update(
                PTE_LEN - 1,
                PTE(table_desc((base.0 + GPT_PUD_OFFSET) as u64)),
            ),
            forall|i: int|
                0 <= i < PTE_LEN ==> final(self).pud@[i] == PTE(
                    table_desc((base.0 + GPT_PDS_OFFSET + i * 0x1000) as u64),
                ),
            forall|i: int|
                0 <= i < PTE_LEN * PTE_LEN ==> final(self).pds@[i] == PTE(
                    page_desc((i * 0x20_0000) as u64, boot_mapping_flags()),
                ),
            final(self).user_vspace == old(self).user_vspace,
            final(self).pt == old(self).pt,
    {
        let pud_paddr = base.raw() + GPT_PUD_OFFSET;
        self.pgd[PTE_LEN - 1] = PTE::new_table(pud_paddr);

        let mut i: usize = 0;
        while i < PTE_LEN
            invariant
                i <= PTE_LEN,
                self.wf(),
                base.0 + GPT_SIZE <= u64::MAX,
                forall|j: int|
                    0 <= j < i ==> self.pud@[j] == PTE(
                        table_desc((base.0 + GPT_PDS_OFFSET + j * 0x1000) as u64),
                    ),
                self.pds == old(self).pds,
                self.user_vspace == old(self).user_vspace,
                self.pt == old(self).pt,
                self.pgd@ == old(self).pgd@.update(
                    PTE_LEN - 1,
                    PTE(table_desc((base.0 + GPT_PUD_OFFSET) as u64)),
                ),
            decreases PTE_LEN - i,
        {
            let pd_paddr = base.raw() + GPT_PDS_OFFSET + (i as u64) * 0x1000;
            self.pud[i] = PTE::new_table(pd_paddr);
            i = i + 1;
        }

        let flags = PTEFlags::new(PTE_VALID | PTE_AF | PTE_ATTR_INDX | PTE_NG);
        let mut k: usize = 0;
        while k < PTE_LEN * PTE_LEN
            invariant
                k <= PTE_LEN * PTE_LEN,
                self.wf(),
                flags.0 == boot_mapping_flags(),
                forall|j: int|
                    0 <= j < k ==> self.pds@[j] == PTE(
                        page_desc((j * 0x20_0000) as u64, boot_mapping_flags()),
                    ),
                self.pgd@ == old(self).pgd@.update(
                    PTE_LEN - 1,
                    PTE(table_desc((base.0 + GPT_PUD_OFFSET) as u64)),
                ),
                forall|j: int|
                    0 <= j < PTE_LEN ==> self.pud@[j] == PTE(
                        table_desc((base.0 + GPT_PDS_OFFSET + j * 0x1000) as u64),
                    ),
                self.user_vspace == old(self).user_vspace,
                self.pt == old(self).pt,
            decreases PTE_LEN * PTE_LEN - k,
        {
            proof {
                let kk = k as u64;
                assert(kk * 0x20_0000 == (kk * 0x200) * 0x1000) by {
                    vstd::arithmetic::mul::lemma_mul_is_associative(kk as int, 0x200, 0x1000);
                }
                vstd::arithmetic::div_mod::lemma_mod_multiples_basic(
                    (k as u64 * 0x200) as int,
                    0x1000,
                );
            }
            self.pds[k] = PTE::new_page((k as u64) * 0x20_0000, flags);
            k = k + 1;
        }
    }
}

} // verus!
