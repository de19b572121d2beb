//! The free-memory registry: the bootstrap's record of reserved physical
//! regions and free kernel-window regions, with the merging insertion that
//! keeps the reserved list in canonical form.
use crate::addr::{bit64, KAddr, KVirtRegion, PhysRegion, VAddr, VirtRegion, PPTR_BASE, PPTR_TOP, WINDOW_SIZE};
use crate::consts::{MAX_NUM_FREEMEM_REG, MAX_NUM_RESV_REG};
use crate::region_vec::{
    free_get, free_insert, free_len, free_model, free_new, free_push, free_set, resv_get,
    resv_insert, resv_model, resv_new,
    resv_push, resv_remove, resv_set,
};
use arrayvec::ArrayVec;
use vstd::arithmetic::div_mod::{lemma_fundamental_div_mod, lemma_mod_multiples_basic};
use vstd::arithmetic::mul::{lemma_mul_is_commutative, lemma_mul_is_distributive_sub};
use vstd::bits::lemma_u64_pow2_no_overflow;
use vstd::prelude::*;

verus! {

/// The half-open interval `[r.0, r.1)` contains address `a`.
pub open spec fn in_region(r: (u64, u64), a: int) -> bool {
    r.0 <= a < r.1
}

/// Some interval of `s` contains address `a`.
pub open spec fn covers(s: Seq<(u64, u64)>, a: int) -> bool {
    exists|i: int| 0 <= i < s.len() && in_region(#[trigger] s[i], a)
}

/// Canonical form of an interval list: every interval nonempty, sorted, and
/// with a gap between consecutive intervals (non-overlapping, non-adjacent).
pub open spec fn regions_wf(s: Seq<(u64, u64)>) -> bool {
    &&& forall|i: int| 0 <= i < s.len() ==> (#[trigger] s[i]).0 < s[i].1
    &&& forall|i: int| 0 <= i < s.len() - 1 ==> (#[trigger] s[i]).1 < s[i + 1].0
}

/// Every interval nonempty and starts nondecreasing; intervals may still
/// overlap. This is the shape the merge pass accepts.
pub open spec fn regions_sorted_by_start(s: Seq<(u64, u64)>) -> bool {
    &&& forall|i: int| 0 <= i < s.len() ==> (#[trigger] s[i]).0 < s[i].1
    &&& forall|i: int| 0 <= i < s.len() - 1 ==> (#[trigger] s[i]).0 <= s[i + 1].0
}

/// `reg` shares no address with any interval of `s`; touching is allowed.
pub open spec fn region_disjoint(s: Seq<(u64, u64)>, reg: (u64, u64)) -> bool {
    forall|i: int| 0 <= i < s.len() ==> (#[trigger] s[i]).1 <= reg.0 || reg.1 <= s[i].0
}

/// `reg` exactly touches some interval of `s`, so a reservation of `reg`
/// merges instead of inserting.
pub open spec fn region_touches(s: Seq<(u64, u64)>, reg: (u64, u64)) -> bool {
    exists|i: int| 0 <= i < s.len()
        && ((#[trigger] s[i]).0 == reg.1 || s[i].1 == reg.0)
}

/// Every interval nonempty, and consecutive intervals ordered without
/// overlap; they may touch.
pub open spec fn regions_sorted_disjoint(s: Seq<(u64, u64)>) -> bool {
    &&& forall|i: int| 0 <= i < s.len() ==> (#[trigger] s[i]).0 < s[i].1
    &&& forall|i: int| 0 <= i < s.len() - 1 ==> (#[trigger] s[i]).1 <= s[i + 1].0
}

/// Intervals ordered without overlap; entries may be empty.
pub open spec fn regions_weakly_sorted(s: Seq<(u64, u64)>) -> bool {
    &&& forall|i: int| 0 <= i < s.len() ==> (#[trigger] s[i]).0 <= s[i].1
    &&& forall|i: int| 0 <= i < s.len() - 1 ==> (#[trigger] s[i]).1 <= s[i + 1].0
}

/// What went wrong during boot. Every variant is fatal: boot-time failures
/// are unrecoverable, and the caller halts the machine after surfacing the
/// diagnostic.
#[derive(Clone, Copy, PartialEq, Eq, Structural, Debug)]
pub enum BootError {
    /// A reservation was dropped because the reserved list was full: a
    /// configuration sizing failure.
    TooManyReservedRegions,
    /// The free list was full: a configuration sizing failure.
    TooManyFreememRegions,
    /// No single free region can host the root-server block.
    NoRootServerRegion,
}

/// Replacing `s[i]` by the union of `s[i]` and `reg` extends the covered
/// set by exactly `reg`.
proof fn lemma_covers_update_union(s: Seq<(u64, u64)>, i: int, m: (u64, u64), reg: (u64, u64))
    requires
        0 <= i < s.len(),
        forall|x: int| in_region(m, x) <==> (in_region(s[i], x) || in_region(reg, x)),
    ensures
        forall|x: int|
            covers(s.update(i, m), x) <==> (covers(s, x) || in_region(reg, x)),
{
    let u = s.update(i, m);
    assert forall|x: int| covers(u, x) <==> (covers(s, x) || in_region(reg, x)) by {
        if covers(u, x) {
            let j = choose|j: int| 0 <= j < u.len() && in_region(u[j], x);
            if j == i {
                if in_region(s[i], x) {
                    assert(covers(s, x));
                }
            } else {
                assert(in_region(s[j], x));
                assert(covers(s, x));
            }
        }
        if covers(s, x) {
            let j = choose|j: int| 0 <= j < s.len() && in_region(s[j], x);
            if j == i {
                assert(in_region(u[i], x));
            } else {
                assert(in_region(u[j], x));
            }
            assert(covers(u, x));
        }
        if in_region(reg, x) {
            assert(in_region(u[i], x));
            assert(covers(u, x));
        }
    }
}

/// Inserting `reg` into the list extends the covered set by exactly `reg`.
proof fn lemma_covers_insert(s: Seq<(u64, u64)>, i: int, reg: (u64, u64))
    requires
        0 <= i <= s.len(),
    ensures
        forall|x: int|
            covers(s.insert(i, reg), x) <==> (covers(s, x) || in_region(reg, x)),
{
    let u = s.insert(i, reg);
    assert forall|x: int| covers(u, x) <==> (covers(s, x) || in_region(reg, x)) by {
        if covers(u, x) {
            let j = choose|j: int| 0 <= j < u.len() && in_region(u[j], x);
            if j < i {
                assert(in_region(s[j], x));
                assert(covers(s, x));
            } else if j == i {
            } else {
                assert(in_region(s[j - 1], x));
                assert(covers(s, x));
            }
        }
        if covers(s, x) {
            let j = choose|j: int| 0 <= j < s.len() && in_region(s[j], x);
            if j < i {
                assert(in_region(u[j], x));
            } else {
                assert(in_region(u[j + 1], x));
            }
            assert(covers(u, x));
        }
        if in_region(reg, x) {
            assert(in_region(u[i], x));
            assert(covers(u, x));
        }
    }
}

/// Mutable state of the bootstrap: the reserved and free region lists, the
/// address of the boot-info frame, and the cursor handing out capability
/// slots.
pub struct NdksBoot {
    pub reserved: ArrayVec<PhysRegion, MAX_NUM_RESV_REG>,
    pub reserved_count: usize,
    pub freemem: ArrayVec<KVirtRegion, MAX_NUM_FREEMEM_REG>,
    pub bi_frame: VAddr,
    pub slot_pos_cur: usize,
}

impl NdksBoot {
    /// The reserved list as `(start, end)` physical address pairs.
    pub open spec fn resv(self) -> Seq<(u64, u64)> {
        resv_model(self.reserved)
    }

    /// The free list as `(start, end)` kernel-window address pairs.
    pub open spec fn free(self) -> Seq<(u64, u64)> {
        free_model(self.freemem)
    }

    /// The reserved list is in canonical form and the cached count agrees
    /// with it.
    pub open spec fn resv_wf(self) -> bool {
        &&& regions_wf(self.resv())
        &&& self.reserved_count == self.resv().len()
        &&& self.resv().len() <= MAX_NUM_RESV_REG
    }

    pub fn empty() -> (r: Self)
        ensures
            r.resv_wf(),
            r.resv().len() == 0,
            r.free().len() == 0,
            r.bi_frame.0 == 0,
            r.slot_pos_cur == 0,
    {
        NdksBoot {
            reserved: resv_new(),
            reserved_count: 0,
            freemem: free_new(),
            bi_frame: VAddr(0),
            slot_pos_cur: 0,
        }
    }

    /// One sweep over adjacent pairs, merging whenever an interval reaches
    /// its successor, until the list is in canonical form. The covered set
    /// of addresses is unchanged.
    #[verifier::rlimit(50)]
    fn merge_reserved_regions(&mut self)
        requires
            regions_sorted_by_start(old(self).resv()),
            old(self).reserved_count == old(self).resv().len(),
            old(self).resv().len() <= MAX_NUM_RESV_REG,
        ensures
            final(self).resv_wf(),
            forall|a: int| covers(final(self).resv(), a) <==> covers(old(self).resv(), a),
            final(self).resv().len() <= old(self).resv().len(),
            final(self).freemem == old(self).freemem,
            final(self).bi_frame == old(self).bi_frame,
            final(self).slot_pos_cur == old(self).slot_pos_cur,
    {
        let mut i: usize = 0;
        while i + 1 < self.reserved_count
            invariant
                i <= self.reserved_count,
                self.reserved_count <= MAX_NUM_RESV_REG,
                self.reserved_count == self.resv().len(),
                self.resv().len() <= old(self).resv().len(),
                regions_sorted_by_start(self.resv()),
                forall|j: int|
                    0 <= j < i ==> (#[trigger] self.resv()[j]).1 < self.resv()[j + 1].0,
                forall|a: int| covers(self.resv(), a) <==> covers(old(self).resv(), a),
                self.freemem == old(self).freemem,
                self.bi_frame == old(self).bi_frame,
                self.slot_pos_cur == old(self).slot_pos_cur,
            decreases self.reserved_count - i,
        {
            let ghost pre = self.resv();
            let a = resv_get(&self.reserved, i);
            let b = resv_get(&self.reserved, i + 1);
            if a.end.0 >= b.start.0 {
                let new_end = if a.end.0 >= b.end.0 {
                    a.end
                } else {
                    b.end
                };
                resv_set(&mut self.reserved, i, PhysRegion { start: a.start, end: new_end });
                let _ = resv_remove(&mut self.reserved, i + 1);
                self.reserved_count = self.reserved_count - 1;
                proof {
                    let s = self.resv();
                    let m = (a.start.0, if a.end.0 >= b.end.0 { a.end.0 } else { b.end.0 });
                    assert(s =~= pre.update(i as int, m).remove(i as int + 1));
                    assert(s.len() == pre.len() - 1);
                    // Indices below i are untouched, indices at or above i
                    // shift down by one past the removed slot.
                    assert(forall|j: int| 0 <= j < i ==> s[j] == pre[j]);
                    assert(s[i as int] == m);
                    assert(forall|j: int| i < j < s.len() ==> s[j] == pre[j + 1]);
                    // The merged interval is exactly the union of the two it
                    // replaces.
                    assert(forall|x: int| in_region(m, x) <==> (in_region(pre[i as int], x)
                        || in_region(pre[i as int + 1], x)));
                    assert forall|x: int| covers(s, x) <==> covers(pre, x) by {
                        if covers(s, x) {
                            let j = choose|j: int| 0 <= j < s.len() && in_region(s[j], x);
                            if j < i {
                                assert(in_region(pre[j], x));
                            } else if j == i {
                                if in_region(pre[i as int], x) {
                                    assert(in_region(pre[i as int], x));
                                } else {
                                    assert(in_region(pre[i as int + 1], x));
                                }
                            } else {
                                assert(in_region(pre[j + 1], x));
                            }
                            assert(covers(pre, x));
                        }
                        if covers(pre, x) {
                            let j = choose|j: int| 0 <= j < pre.len() && in_region(pre[j], x);
                            if j < i {
                                assert(in_region(s[j], x));
                            } else if j == i || j == i + 1 {
                                assert(in_region(s[i as int], x));
                            } else {
                                assert(in_region(s[j - 1], x));
                            }
                            assert(covers(s, x));
                        }
                    }
                    // Sorted by start is kept: the merged interval keeps its
                    // start, and everything after it moved down unchanged.
                    assert forall|j: int| 0 <= j < s.len() - 1 implies
                        (#[trigger] s[j]).0 <= s[j + 1].0 by {
                        if j == i {
                            assert(pre[i as int].0 <= pre[i as int + 1].0);
                            if i + 2 < pre.len() {
                                assert(pre[i as int + 1].0 <= pre[i as int + 2].0);
                            }
                        }
                    }
                }
            } else {
                i = i + 1;
            }
        }
        proof {
            // Every consecutive pair is now separated: pairs below i by the
            // prefix invariant, and the loop exit bound makes that all of
            // them.
            assert(forall|j: int|
                0 <= j < self.resv().len() - 1 ==> (#[trigger] self.resv()[j]).1
                    < self.resv()[j + 1].0);
        }
    }

    /// The entry at `i` starts exactly at `reg`'s end: extend it downward
    /// to also cover `reg`, then re-merge.
    fn extend_entry_down(&mut self, i: usize, reg: PhysRegion)
        requires
            old(self).resv_wf(),
            i < old(self).resv().len(),
            reg.start.0 < reg.end.0,
            reg.end.0 == old(self).resv()[i as int].0,
            forall|j: int| 0 <= j < i ==> (#[trigger] old(self).resv()[j]).1 < reg.start.0,
        ensures
            final(self).resv_wf(),
            forall|a: int|
                covers(final(self).resv(), a) <==> (covers(old(self).resv(), a) || (reg.start.0
                    <= a < reg.end.0)),
            final(self).resv().len() <= old(self).resv().len(),
            final(self).freemem == old(self).freemem,
            final(self).bi_frame == old(self).bi_frame,
            final(self).slot_pos_cur == old(self).slot_pos_cur,
    {
        let ghost orig = self.resv();
        let ghost rg = (reg.start.0, reg.end.0);
        let cur = resv_get(&self.reserved, i);
        resv_set(&mut self.reserved, i, PhysRegion { start: reg.start, end: cur.end });
        proof {
            let m = (reg.start.0, orig[i as int].1);
            lemma_covers_update_union(orig, i as int, m, rg);
            assert(regions_sorted_by_start(self.resv())) by {
                let s = self.resv();
                assert(s =~= orig.update(i as int, m));
                assert forall|j: int| 0 <= j < s.len() - 1 implies (#[trigger] s[j]).0 <= s[j
                    + 1].0 by {
                    if j == i - 1 {
                        assert(orig[j].1 < reg.start.0);
                    } else if j == i {
                        assert(reg.end.0 == orig[i as int].0);
                        if i + 1 < orig.len() {
                            assert(orig[i as int].1 < orig[i as int + 1].0);
                        }
                    }
                }
            }
        }
        self.merge_reserved_regions();
        proof {
            assert(forall|a: int|
                covers(self.resv(), a) <==> (covers(orig, a) || in_region(rg, a)));
        }
    }

    /// The entry at `i` ends exactly at `reg`'s start: extend it upward to
    /// also cover `reg`, then re-merge.
    #[verifier::rlimit(30)]
    fn extend_entry_up(&mut self, i: usize, reg: PhysRegion)
        requires
            old(self).resv_wf(),
            i < old(self).resv().len(),
            reg.start.0 < reg.end.0,
            reg.start.0 == old(self).resv()[i as int].1,
            i + 1 < old(self).resv().len() ==> reg.end.0 <= old(self).resv()[i as int + 1].0,
        ensures
            final(self).resv_wf(),
            forall|a: int|
                covers(final(self).resv(), a) <==> (covers(old(self).resv(), a) || (reg.start.0
                    <= a < reg.end.0)),
            final(self).resv().len() <= old(self).resv().len(),
            final(self).freemem == old(self).freemem,
            final(self).bi_frame == old(self).bi_frame,
            final(self).slot_pos_cur == old(self).slot_pos_cur,
    {
        let ghost orig = self.resv();
        let ghost rg = (reg.start.0, reg.end.0);
        let cur = resv_get(&self.reserved, i);
        resv_set(&mut self.reserved, i, PhysRegion { start: cur.start, end: reg.end });
        proof {
            let m = (orig[i as int].0, reg.end.0);
            lemma_covers_update_union(orig, i as int, m, rg);
            assert(regions_sorted_by_start(self.resv())) by {
                let s = self.resv();
                assert(s =~= orig.update(i as int, m));
            }
        }
        self.merge_reserved_regions();
        proof {
            assert(forall|a: int|
                covers(self.resv(), a) <==> (covers(orig, a) || in_region(rg, a)));
        }
    }

    /// Append one piece to the free list, keeping it ordered.
    fn push_free_piece(&mut self, piece: KVirtRegion)
        requires
            old(self).free().len() < MAX_NUM_FREEMEM_REG,
            piece.start.0 < piece.end.0,
            forall|i: int|
                0 <= i < old(self).free().len() ==> (#[trigger] old(self).free()[i]).1
                    <= piece.start.0,
            regions_sorted_disjoint(old(self).free()),
        ensures
            final(self).free() == old(self).free().push((piece.start.0, piece.end.0)),
            regions_sorted_disjoint(final(self).free()),
            forall|x: int|
                covers(final(self).free(), x) <==> (covers(old(self).free(), x) || in_region(
                    (piece.start.0, piece.end.0),
                    x,
                )),
            final(self).reserved == old(self).reserved,
            final(self).reserved_count == old(self).reserved_count,
            final(self).bi_frame == old(self).bi_frame,
            final(self).slot_pos_cur == old(self).slot_pos_cur,
    {
        let ghost orig = self.free();
        let ghost pc = (piece.start.0, piece.end.0);
        free_push(&mut self.freemem, piece);
        proof {
            let s = self.free();
            assert(s =~= orig.insert(orig.len() as int, pc));
            lemma_covers_insert(orig, orig.len() as int, pc);
            assert(forall|x: int| covers(s, x) <==> (covers(orig, x) || in_region(pc, x)));
        }
    }

    /// `reg` lies strictly between its neighbours: insert it at `i` so the
    /// list stays sorted. The list must have room.
    fn insert_entry(&mut self, i: usize, reg: PhysRegion)
        requires
            old(self).resv_wf(),
            i <= old(self).resv().len(),
            old(self).resv().len() + 1 < MAX_NUM_RESV_REG,
            reg.start.0 < reg.end.0,
            forall|j: int| 0 <= j < i ==> (#[trigger] old(self).resv()[j]).1 < reg.start.0,
            i < old(self).resv().len() ==> reg.end.0 < old(self).resv()[i as int].0,
        ensures
            final(self).resv_wf(),
            forall|a: int|
                covers(final(self).resv(), a) <==> (covers(old(self).resv(), a) || (reg.start.0
                    <= a < reg.end.0)),
            final(self).resv().len() == old(self).resv().len() + 1,
            final(self).freemem == old(self).freemem,
            final(self).bi_frame == old(self).bi_frame,
            final(self).slot_pos_cur == old(self).slot_pos_cur,
    {
        let ghost orig = self.resv();
        let ghost rg = (reg.start.0, reg.end.0);
        resv_insert(&mut self.reserved, i, reg);
        self.reserved_count = self.reserved_count + 1;
        proof {
            let s = self.resv();
            assert(s =~= orig.insert(i as int, rg));
            lemma_covers_insert(orig, i as int, rg);
            assert(forall|a: int| covers(s, a) <==> (covers(orig, a) || in_region(rg, a)));
            assert(regions_wf(s)) by {
                assert forall|j: int| 0 <= j < s.len() - 1 implies (#[trigger] s[j]).1 < s[j
                    + 1].0 by {
                    if j == i - 1 {
                        assert(orig[j].1 < reg.start.0);
                    } else if j == i {
                    }
                }
            }
        }
    }

    /// Record `reg` as a reserved physical region, keeping the reserved
    /// list canonical: a region touching an existing entry extends it, one
    /// between entries is inserted in place, one above all entries is
    /// appended. A region of zero length is a silent no-op. A nonempty
    /// region must not overlap what is already reserved — touching is how
    /// merges happen — since an overlapping insertion would break the
    /// list's canonical order.
    ///
    /// Returns whether the region is covered by the list afterwards.
    /// `false` means an insertion was needed but the list was full, and the
    /// reservation was dropped: a configuration sizing failure the caller
    /// must surface.
    pub fn reserve_region(&mut self, reg: PhysRegion) -> (recorded: bool)
        requires
            old(self).resv_wf(),
            reg.start.0 <= reg.end.0,
            reg.start.0 == reg.end.0 || region_disjoint(
                old(self).resv(),
                (reg.start.0, reg.end.0),
            ),
        ensures
            final(self).resv_wf(),
            recorded ==> forall|a: int|
                covers(final(self).resv(), a) <==> (covers(old(self).resv(), a) || (reg.start.0
                    <= a < reg.end.0)),
            recorded == (reg.start.0 == reg.end.0 || region_touches(
                old(self).resv(),
                (reg.start.0, reg.end.0),
            ) || old(self).resv().len() + 1 < MAX_NUM_RESV_REG),
            !recorded ==> final(self).resv() == old(self).resv(),
            final(self).resv().len() <= old(self).resv().len() + 1,
            final(self).freemem == old(self).freemem,
            final(self).bi_frame == old(self).bi_frame,
            final(self).slot_pos_cur == old(self).slot_pos_cur,
    {
        let ghost orig = self.resv();
        let ghost rg = (reg.start.0, reg.end.0);
        if reg.start.0 == reg.end.0 {
            return true;
        }
        let count = self.reserved_count;
        let mut i: usize = 0;
        while i < count
            invariant
                i <= count,
                count == self.reserved_count,
                self.resv_wf(),
                self.resv() == orig,
                self == old(self),
                reg.start.0 < reg.end.0,
                rg == (reg.start.0, reg.end.0),
                region_disjoint(orig, rg),
                forall|j: int| 0 <= j < i ==> (#[trigger] orig[j]).1 < reg.start.0,
            decreases count - i,
        {
            let cur = resv_get(&self.reserved, i);

            if cur.start.0 == reg.end.0 {
                self.extend_entry_down(i, reg);
                proof {
                    assert(orig[i as int].0 == rg.1);
                    assert(region_touches(orig, rg));
                }
                return true;
            }

            if cur.end.0 == reg.start.0 {
                proof {
                    if i + 1 < orig.len() {
                        assert(orig[i as int].1 < orig[i as int + 1].0);
                        assert(orig[i as int + 1].1 <= rg.0 || rg.1 <= orig[i as int + 1].0);
                    }
                }
                self.extend_entry_up(i, reg);
                proof {
                    assert(orig[i as int].1 == rg.0);
                    assert(region_touches(orig, rg));
                }
                return true;
            }

            if cur.start.0 > reg.end.0 {
                if self.reserved_count + 1 >= MAX_NUM_RESV_REG {
                    proof {
                        lemma_no_touch_around(orig, i as int, rg);
                    }
                    return false;
                }
                self.insert_entry(i, reg);
                return true;
            }

            proof {
                // This entry matched no case, so it lies strictly below the
                // new region.
                assert(orig[i as int].1 <= rg.0 || rg.1 <= orig[i as int].0);
                assert(orig[i as int].1 < reg.start.0);
            }
            i = i + 1;
        }

        // The new region lies above every entry: append it, if there is
        // room.
        if self.reserved_count + 1 >= MAX_NUM_RESV_REG {
            proof {
                assert(!region_touches(orig, rg)) by {
                    assert forall|j: int| 0 <= j < orig.len() implies !((#[trigger] orig[j]).0
                        == rg.1 || orig[j].1 == rg.0) by {
                        assert(orig[j].1 < reg.start.0);
                        assert(orig[j].0 < orig[j].1);
                    }
                }
            }
            return false;
        }
        resv_push(&mut self.reserved, reg);
        self.reserved_count = self.reserved_count + 1;
        proof {
            let s = self.resv();
            assert(s =~= orig.insert(orig.len() as int, rg));
            lemma_covers_insert(orig, orig.len() as int, rg);
            assert(regions_wf(s)) by {
                assert forall|j: int| 0 <= j < s.len() - 1 implies (#[trigger] s[j]).1 < s[j
                    + 1].0 by {
                    if j == s.len() - 2 {
                        assert(orig[j].1 < reg.start.0);
                    }
                }
            }
        }
        true
    }

    /// Record to-reserve region number `r` (already translated to physical)
    /// during the sweep. `rp` is the whole to-reserve list in physical
    /// terms; the reserved list so far covers exactly the regions before
    /// `r`.
    fn sweep_reserve(
        &mut self,
        regp: PhysRegion,
        Ghost(rp): Ghost<Seq<(u64, u64)>>,
        Ghost(r): Ghost<int>,
    ) -> (recorded: bool)
        requires
            old(self).resv_wf(),
            0 <= r < rp.len(),
            (regp.start.0, regp.end.0) == rp[r],
            forall|k: int| 0 <= k < rp.len() ==> (#[trigger] rp[k]).0 < rp[k].1,
            forall|k: int| 0 <= k < rp.len() - 1 ==> (#[trigger] rp[k]).1 <= rp[k + 1].0,
            forall|p: int|
                covers(old(self).resv(), p) <==> exists|j: int|
                    0 <= j < r && in_region(#[trigger] rp[j], p),
            old(self).resv().len() <= r,
        ensures
            final(self).resv_wf(),
            recorded ==> forall|p: int|
                covers(final(self).resv(), p) <==> exists|j: int|
                    0 <= j < r + 1 && in_region(#[trigger] rp[j], p),
            !recorded ==> old(self).resv().len() + 1 >= MAX_NUM_RESV_REG,
            final(self).resv().len() <= r + 1,
            final(self).freemem == old(self).freemem,
            final(self).bi_frame == old(self).bi_frame,
            final(self).slot_pos_cur == old(self).slot_pos_cur,
    {
        let ghost orig = self.resv();
        let ghost rg = (regp.start.0, regp.end.0);
        proof {
            // Nothing recorded so far reaches up to this region, so it is
            // disjoint from the whole reserved list.
            assert forall|x: int| in_region(rg, x) implies !covers(orig, x) by {
                if covers(orig, x) {
                    let j = choose|j: int| 0 <= j < r && in_region(#[trigger] rp[j], x);
                    if j < r - 1 || j == r - 1 {
                        lemma_sorted_disjoint_ordered(rp, j, r);
                        assert(rp[j].1 <= rp[r].0);
                    }
                }
            }
            lemma_disjoint_from_coverage(orig, rg);
        }
        let recorded = self.reserve_region(regp);
        proof {
            if recorded {
                assert forall|p: int|
                    covers(self.resv(), p) <==> exists|j: int|
                        0 <= j < r + 1 && in_region(#[trigger] rp[j], p) by {
                    if covers(self.resv(), p) {
                        if covers(orig, p) {
                            let j = choose|j: int| 0 <= j < r && in_region(#[trigger] rp[j], p);
                            assert(0 <= j < r + 1 && in_region(rp[j], p));
                        } else {
                            assert(in_region(rp[r], p));
                        }
                    }
                    if exists|j: int| 0 <= j < r + 1 && in_region(#[trigger] rp[j], p) {
                        let j = choose|j: int| 0 <= j < r + 1 && in_region(#[trigger] rp[j], p);
                        if j < r {
                            assert(covers(orig, p));
                        } else {
                            assert(in_region(rg, p));
                        }
                    }
                }
            } else {
                assert(orig.len() + 1 >= MAX_NUM_RESV_REG);
            }
        }
        recorded
    }
}

/// When the scan stops at `i` with everything below `i` strictly below
/// `reg` and the entry at `i` strictly above it, no entry touches `reg`.
proof fn lemma_no_touch_around(s: Seq<(u64, u64)>, i: int, rg: (u64, u64))
    requires
        regions_wf(s),
        0 <= i < s.len(),
        rg.0 < rg.1,
        rg.1 < s[i].0,
        forall|j: int| 0 <= j < i ==> (#[trigger] s[j]).1 < rg.0,
    ensures
        !region_touches(s, rg),
{
    assert forall|j: int| 0 <= j < s.len() implies !((#[trigger] s[j]).0 == rg.1 || s[j].1
        == rg.0) by {
        if j < i {
            assert(s[j].1 < rg.0);
            assert(s[j].0 < s[j].1);
        } else if j > i {
            lemma_wf_ordered(s, i, j);
            assert(s[j].0 > s[i].1);
            assert(s[i].1 >= s[i].0);
        }
    }
}

/// In a canonical list the intervals are ordered: everything after `i`
/// starts above where `i` ends.
proof fn lemma_wf_ordered(s: Seq<(u64, u64)>, i: int, j: int)
    requires
        regions_wf(s),
        0 <= i < j < s.len(),
    ensures
        s[i].1 < s[j].0,
    decreases j - i,
{
    if j == i + 1 {
    } else {
        lemma_wf_ordered(s, i + 1, j);
    }
}

/// An interval sharing no address with the covered set of a canonical list
/// is disjoint from each of its intervals.
proof fn lemma_disjoint_from_coverage(s: Seq<(u64, u64)>, rg: (u64, u64))
    requires
        regions_wf(s),
        rg.0 < rg.1,
        forall|x: int| in_region(rg, x) ==> !covers(s, x),
    ensures
        region_disjoint(s, rg),
{
    assert forall|i: int| 0 <= i < s.len() implies (#[trigger] s[i]).1 <= rg.0 || rg.1
        <= s[i].0 by {
        if s[i].1 > rg.0 && rg.1 > s[i].0 {
            let x = if s[i].0 >= rg.0 {
                s[i].0 as int
            } else {
                rg.0 as int
            };
            assert(in_region(s[i], x));
            assert(in_region(rg, x));
            assert(covers(s, x));
        }
    }
}

/// The kernel-window image of an available physical region, clipped to the
/// top of the window.
pub open spec fn clip_avail(r: PhysRegion) -> (u64, u64) {
    (
        if r.start.0 + PPTR_BASE >= PPTR_TOP {
            PPTR_TOP
        } else {
            (r.start.0 + PPTR_BASE) as u64
        },
        if r.end.0 + PPTR_BASE >= PPTR_TOP {
            PPTR_TOP
        } else {
            (r.end.0 + PPTR_BASE) as u64
        },
    )
}

/// The platform's available regions, translated into the kernel window and
/// clipped to its top.
pub open spec fn avail_clipped(av: Seq<PhysRegion>) -> Seq<(u64, u64)> {
    Seq::new(av.len(), |i: int| clip_avail(av[i]))
}

/// Kernel-window regions as raw address pairs.
pub open spec fn kvirt_pairs(rs: Seq<KVirtRegion>) -> Seq<(u64, u64)> {
    Seq::new(rs.len(), |i: int| (rs[i].start.0, rs[i].end.0))
}

/// The physical regions whose kernel-window images these regions are.
pub open spec fn kvirt_phys_pairs(rs: Seq<KVirtRegion>) -> Seq<(u64, u64)> {
    Seq::new(
        rs.len(),
        |i: int| ((rs[i].start.0 - PPTR_BASE) as u64, (rs[i].end.0 - PPTR_BASE) as u64),
    )
}

/// The available physical regions the sweep accepts: ordered, non-
/// overlapping, inside the physical window.
pub open spec fn avail_wf(av: Seq<PhysRegion>) -> bool {
    &&& forall|i: int|
        0 <= i < av.len() ==> (#[trigger] av[i]).start.0 <= av[i].end.0 && av[i].end.0
            < WINDOW_SIZE
    &&& forall|i: int| 0 <= i < av.len() - 1 ==> (#[trigger] av[i]).end.0 <= av[i + 1].start.0
}

/// A null to-reserve entry: both bounds zero. The sweep skips these, as
/// `Region::is_empty` defines emptiness.
pub open spec fn null_entry(r: KVirtRegion) -> bool {
    r.start.0 == 0 && r.end.0 == 0
}

/// The regions to subtract: each entry is either null (and skipped) or a
/// nonempty kernel-window region; the nonempty ones are ordered and
/// non-overlapping (touching allowed).
pub open spec fn to_reserve_wf(rs: Seq<KVirtRegion>) -> bool {
    &&& forall|i: int|
        0 <= i < rs.len() ==> (null_entry(#[trigger] rs[i]) || (PPTR_BASE <= rs[i].start.0
            && rs[i].start.0 < rs[i].end.0))
    &&& forall|i: int, j: int|
        0 <= i < j < rs.len() && !null_entry(#[trigger] rs[i]) && !null_entry(
            #[trigger] rs[j],
        ) ==> rs[i].end.0 <= rs[j].start.0
}

/// The to-reserve list with its null entries dropped, order kept.
pub open spec fn nonnull_entries(rs: Seq<KVirtRegion>) -> Seq<KVirtRegion>
    decreases rs.len(),
{
    if rs.len() == 0 {
        Seq::empty()
    } else {
        let rest = nonnull_entries(rs.drop_last());
        if null_entry(rs.last()) {
            rest
        } else {
            rest.push(rs.last())
        }
    }
}

/// Dropping null entries keeps a well-formed to-reserve list well formed,
/// makes every entry nonempty and consecutive entries ordered, and keeps
/// every entry one of the original's.
proof fn lemma_nonnull_entries_wf(rs: Seq<KVirtRegion>)
    requires
        to_reserve_wf(rs),
    ensures
        nonnull_entries(rs).len() <= rs.len(),
        forall|k: int|
            0 <= k < nonnull_entries(rs).len() ==> exists|i: int|
                0 <= i < rs.len() && #[trigger] nonnull_entries(rs)[k] == rs[i] && !null_entry(
                    rs[i],
                ),
        forall|k: int|
            0 <= k < nonnull_entries(rs).len() ==> PPTR_BASE <= (#[trigger] nonnull_entries(
                rs,
            )[k]).start.0 && nonnull_entries(rs)[k].start.0 < nonnull_entries(rs)[k].end.0,
        forall|k: int|
            0 <= k < nonnull_entries(rs).len() - 1 ==> (#[trigger] nonnull_entries(
                rs,
            )[k]).end.0 <= nonnull_entries(rs)[k + 1].start.0,
    decreases rs.len(),
{
    let f = nonnull_entries(rs);
    if rs.len() == 0 {
    } else {
        let pre = rs.drop_last();
        assert(to_reserve_wf(pre)) by {
            assert(forall|i: int| 0 <= i < pre.len() ==> pre[i] == rs[i]);
        }
        lemma_nonnull_entries_wf(pre);
        let fp = nonnull_entries(pre);
        if null_entry(rs.last()) {
            assert(f == fp);
            assert forall|k: int|
                0 <= k < f.len() implies exists|i: int|
                0 <= i < rs.len() && #[trigger] f[k] == rs[i] && !null_entry(rs[i]) by {
                let i = choose|i: int|
                    0 <= i < pre.len() && #[trigger] fp[k] == pre[i] && !null_entry(pre[i]);
                assert(pre[i] == rs[i]);
                assert(f[k] == rs[i] && !null_entry(rs[i]));
            }
        } else {
            assert(f == fp.push(rs.last()));
            assert forall|k: int|
                0 <= k < f.len() implies exists|i: int|
                0 <= i < rs.len() && #[trigger] f[k] == rs[i] && !null_entry(rs[i]) by {
                if k < fp.len() {
                    let i = choose|i: int|
                        0 <= i < pre.len() && #[trigger] fp[k] == pre[i] && !null_entry(pre[i]);
                    assert(pre[i] == rs[i]);
                    assert(f[k] == rs[i] && !null_entry(rs[i]));
                } else {
                    assert(f[k] == rs[rs.len() - 1] && !null_entry(rs[rs.len() - 1]));
                }
            }
            assert forall|k: int|
                0 <= k < f.len() - 1 implies (#[trigger] f[k]).end.0 <= f[k + 1].start.0 by {
                if k + 1 < fp.len() {
                    assert(fp[k].end.0 <= fp[k + 1].start.0);
                } else {
                    // The last pair: the earlier element is some nonnull
                    // original entry before the last.
                    let i = choose|i: int|
                        0 <= i < pre.len() && #[trigger] fp[k] == pre[i] && !null_entry(pre[i]);
                    assert(pre[i] == rs[i]);
                    assert(rs[i].end.0 <= rs[rs.len() - 1].start.0);
                }
            }
        }
    }
}

/// Dropping null entries changes no covered address, in kernel-window or
/// physical terms: a null entry covers nothing.
proof fn lemma_nonnull_entries_covers(rs: Seq<KVirtRegion>)
    ensures
        forall|x: int|
            covers(kvirt_pairs(nonnull_entries(rs)), x) == covers(kvirt_pairs(rs), x),
        forall|p: int|
            covers(kvirt_phys_pairs(nonnull_entries(rs)), p) == covers(kvirt_phys_pairs(rs), p),
    decreases rs.len(),
{
    let f = nonnull_entries(rs);
    if rs.len() == 0 {
        assert forall|x: int|
            covers(kvirt_pairs(f), x) == covers(kvirt_pairs(rs), x) by {
            assert(!covers(kvirt_pairs(rs), x));
            assert(!covers(kvirt_pairs(f), x));
        }
        assert forall|p: int|
            covers(kvirt_phys_pairs(f), p) == covers(kvirt_phys_pairs(rs), p) by {
            assert(!covers(kvirt_phys_pairs(rs), p));
            assert(!covers(kvirt_phys_pairs(f), p));
        }
    } else {
        let pre = rs.drop_last();
        lemma_nonnull_entries_covers(pre);
        let fp = nonnull_entries(pre);
        let last = rs.last();
        assert forall|x: int|
            covers(kvirt_pairs(f), x) == covers(kvirt_pairs(rs), x) by {
            lemma_covers_drop_last_kvirt(rs, x);
            if null_entry(last) {
                assert(f == fp);
                assert(!in_region((last.start.0, last.end.0), x));
            } else {
                assert(f == fp.push(last));
                lemma_covers_drop_last_kvirt(f, x);
                assert(f.drop_last() =~= fp);
                assert(f.last() == last);
            }
        }
        assert forall|p: int|
            covers(kvirt_phys_pairs(f), p) == covers(kvirt_phys_pairs(rs), p) by {
            lemma_covers_drop_last_phys(rs, p);
            if null_entry(last) {
                assert(f == fp);
                let v = (last.start.0 - PPTR_BASE) as u64;
                assert(!in_region((v, v), p));
            } else {
                assert(f == fp.push(last));
                lemma_covers_drop_last_phys(f, p);
                assert(f.drop_last() =~= fp);
                assert(f.last() == last);
            }
        }
    }
}

/// The sweep's conservation statements carry from the filtered to-reserve
/// list to the unfiltered one, since null entries cover nothing.
proof fn lemma_sweep_bridge(
    reserveds: Seq<KVirtRegion>,
    nbfree: Seq<(u64, u64)>,
    nbresv: Seq<(u64, u64)>,
    ac: Seq<(u64, u64)>,
)
    requires
        forall|x: int|
            covers(nbfree, x) <==> (covers(ac, x) && !covers(
                kvirt_pairs(nonnull_entries(reserveds)),
                x,
            )),
        forall|p: int|
            covers(nbresv, p) <==> covers(kvirt_phys_pairs(nonnull_entries(reserveds)), p),
    ensures
        forall|x: int|
            covers(nbfree, x) <==> (covers(ac, x) && !covers(kvirt_pairs(reserveds), x)),
        forall|p: int| covers(nbresv, p) <==> covers(kvirt_phys_pairs(reserveds), p),
{
    lemma_nonnull_entries_covers(reserveds);
}

/// Coverage of a list splits into its last entry and the rest.
proof fn lemma_covers_drop_last_kvirt(rs: Seq<KVirtRegion>, x: int)
    requires
        rs.len() > 0,
    ensures
        covers(kvirt_pairs(rs), x) == (covers(kvirt_pairs(rs.drop_last()), x) || in_region(
            (rs.last().start.0, rs.last().end.0),
            x,
        )),
{
    let full = kvirt_pairs(rs);
    let pre = kvirt_pairs(rs.drop_last());
    assert(forall|i: int| 0 <= i < pre.len() ==> pre[i] == full[i]);
    if covers(full, x) {
        let i = choose|i: int| 0 <= i < full.len() && in_region(#[trigger] full[i], x);
        if i < rs.len() - 1 {
            assert(in_region(pre[i], x));
            assert(covers(pre, x));
        }
    }
    if covers(pre, x) {
        let i = choose|i: int| 0 <= i < pre.len() && in_region(#[trigger] pre[i], x);
        assert(in_region(full[i], x));
        assert(covers(full, x));
    }
    if in_region((rs.last().start.0, rs.last().end.0), x) {
        assert(in_region(full[rs.len() - 1], x));
        assert(covers(full, x));
    }
}

/// The same split in physical terms.
proof fn lemma_covers_drop_last_phys(rs: Seq<KVirtRegion>, p: int)
    requires
        rs.len() > 0,
    ensures
        covers(kvirt_phys_pairs(rs), p) == (covers(kvirt_phys_pairs(rs.drop_last()), p)
            || in_region(
            ((rs.last().start.0 - PPTR_BASE) as u64, (rs.last().end.0 - PPTR_BASE) as u64),
            p,
        )),
{
    let full = kvirt_phys_pairs(rs);
    let pre = kvirt_phys_pairs(rs.drop_last());
    assert(forall|i: int| 0 <= i < pre.len() ==> pre[i] == full[i]);
    if covers(full, p) {
        let i = choose|i: int| 0 <= i < full.len() && in_region(#[trigger] full[i], p);
        if i < rs.len() - 1 {
            assert(in_region(pre[i], p));
            assert(covers(pre, p));
        }
    }
    if covers(pre, p) {
        let i = choose|i: int| 0 <= i < pre.len() && in_region(#[trigger] pre[i], p);
        assert(in_region(full[i], p));
        assert(covers(full, p));
    }
    if in_region(((rs.last().start.0 - PPTR_BASE) as u64, (rs.last().end.0 - PPTR_BASE) as u64), p) {
        assert(in_region(full[rs.len() - 1], p));
        assert(covers(full, p));
    }
}

/// The cursor the sweep starts region `a` with: the region's own start.
pub open spec fn cur_pair(ac: Seq<(u64, u64)>, a: int) -> u64 {
    if 0 <= a < ac.len() {
        ac[a].0
    } else {
        0
    }
}

/// The free pieces the sweep hands out from state `(a, cur, r)` onward:
/// the algorithm of `sweep_free_memory` as a function of its inputs, so
/// that contracts can name the swept free list itself. The whole list is
/// `sweep_free_list`.
pub open spec fn sweep_rest(
    ac: Seq<(u64, u64)>,
    rs: Seq<(u64, u64)>,
    a: int,
    cur: u64,
    r: int,
) -> Seq<(u64, u64)>
    decreases ac.len() - a, rs.len() - r, ac[a].1 - cur,
        when 0 <= a <= ac.len() && 0 <= r <= rs.len() && (a < ac.len() ==> cur <= ac[a].1)
{
    if a >= ac.len() {
        Seq::empty()
    } else if r >= rs.len() {
        // No reservations left: the rest of this region and every later
        // region are free in full.
        (if cur < ac[a].1 {
            seq![(cur, ac[a].1)]
        } else {
            Seq::<(u64, u64)>::empty()
        }) + sweep_rest(ac, rs, a + 1, cur_pair(ac, a + 1), r)
    } else if cur >= ac[a].1 {
        // This region is exhausted.
        sweep_rest(ac, rs, a + 1, cur_pair(ac, a + 1), r)
    } else if rs[r].1 <= cur {
        // This reservation lies entirely below the cursor.
        sweep_rest(ac, rs, a, cur, r + 1)
    } else if rs[r].0 >= ac[a].1 {
        // This reservation lies entirely above this region.
        seq![(cur, ac[a].1)] + sweep_rest(ac, rs, a + 1, cur_pair(ac, a + 1), r)
    } else if rs[r].0 <= cur {
        // Overlap reaching the cursor: skip the overlapped part.
        sweep_rest(
            ac,
            rs,
            a,
            if ac[a].1 <= rs[r].1 {
                ac[a].1
            } else {
                rs[r].1
            },
            r,
        )
    } else if ac[a].1 > rs[r].1 {
        // A free piece leads up to the reservation; the region continues
        // past it.
        seq![(cur, rs[r].0)] + sweep_rest(ac, rs, a, rs[r].1, r)
    } else {
        // A free piece leads up to the reservation, which covers the rest
        // of the region.
        seq![(cur, rs[r].0)] + sweep_rest(ac, rs, a + 1, cur_pair(ac, a + 1), r)
    }
}

/// The free list the sweep produces for these clipped available regions and
/// kernel-window reservations.
pub open spec fn sweep_free_list(ac: Seq<(u64, u64)>, rs: Seq<(u64, u64)>) -> Seq<(u64, u64)> {
    sweep_rest(ac, rs, 0, cur_pair(ac, 0), 0)
}

/// Addresses settled by the sweep so far: everything in an available region
/// before `a`, and the part of region `a` below the cursor `cur`.
pub open spec fn decided_below(ac: Seq<(u64, u64)>, a: int, cur: u64, x: int) -> bool {
    ||| exists|j: int| 0 <= j < a && in_region(#[trigger] ac[j], x)
    ||| (0 <= a < ac.len() && ac[a].0 <= x < cur)
}

/// The sweep's main invariant: the free list covers exactly the settled
/// addresses that no to-reserve region covers.
pub open spec fn free_iff(
    free: Seq<(u64, u64)>,
    ac: Seq<(u64, u64)>,
    a: int,
    cur: u64,
    rs: Seq<(u64, u64)>,
) -> bool {
    forall|x: int| covers(free, x) <==> (decided_below(ac, a, cur, x) && !covers(rs, x))
}

/// In an ordered disjoint list, later intervals start at or above where
/// earlier ones end.
proof fn lemma_sorted_disjoint_ordered(s: Seq<(u64, u64)>, i: int, j: int)
    requires
        forall|k: int| 0 <= k < s.len() ==> (#[trigger] s[k]).0 <= s[k].1,
        forall|k: int| 0 <= k < s.len() - 1 ==> (#[trigger] s[k]).1 <= s[k + 1].0,
        0 <= i < j < s.len(),
    ensures
        s[i].1 <= s[j].0,
    decreases j - i,
{
    if j == i + 1 {
    } else {
        lemma_sorted_disjoint_ordered(s, i + 1, j);
    }
}

/// A root-server block of `size` bytes aligned to 2^`max_bits` fits at the
/// top of this free interval.
pub open spec fn placement_fits(e: (u64, u64), size: u64, max_bits: u64) -> bool {
    &&& e.1 >= size
    &&& crate::addr::align_down64((e.1 - size) as u64, max_bits) >= e.0
}

impl NdksBoot {
    /// Find a place for the root-server block: scan the free list from the
    /// highest-address entry backward, and take the top of the first entry
    /// whose aligned placement still lies inside it. The chosen entry is
    /// split around the carved block; the two remaining pieces stay in the
    /// free list (either may be empty).
    ///
    /// Fails exactly when no free entry can host the block: the system
    /// cannot boot, and the caller halts.
    pub fn carve_rootserver_block(&mut self, size: u64, max_bits: u64) -> (result: Result<
        KAddr,
        BootError,
    >)
        requires
            max_bits < 64,
            regions_sorted_disjoint(old(self).free()),
            old(self).free().len() < MAX_NUM_FREEMEM_REG,
            forall|i: int|
                0 <= i < old(self).free().len() ==> PPTR_BASE <= (#[trigger] old(
                    self,
                ).free()[i]).0 && old(self).free()[i].1 <= PPTR_TOP,
        ensures
            final(self).reserved == old(self).reserved,
            final(self).reserved_count == old(self).reserved_count,
            final(self).bi_frame == old(self).bi_frame,
            final(self).slot_pos_cur == old(self).slot_pos_cur,
            match result {
                Ok(addr) => {
                    &&& addr.0 % bit64(max_bits) == 0
                    &&& PPTR_BASE <= addr.0
                    &&& addr.0 + size <= PPTR_TOP
                    &&& forall|x: int|
                        covers(final(self).free(), x) <==> (covers(old(self).free(), x) && !(
                        addr.0 <= x < addr.0 + size))
                    &&& forall|x: int| addr.0 <= x < addr.0 + size ==> covers(old(self).free(), x)
                    &&& regions_weakly_sorted(final(self).free())
                    &&& forall|i: int|
                        0 <= i < final(self).free().len() ==> PPTR_BASE
                            <= (#[trigger] final(self).free()[i]).0
                            && final(self).free()[i].1 <= PPTR_TOP
                    &&& exists|i: int|
                        {
                            let e = #[trigger] old(self).free()[i];
                            &&& 0 <= i < old(self).free().len()
                            &&& placement_fits(e, size, max_bits)
                            &&& addr.0 == crate::addr::align_down64((e.1 - size) as u64, max_bits)
                            &&& (forall|j: int|
                                i < j < old(self).free().len() ==> !placement_fits(
                                    #[trigger] old(self).free()[j],
                                    size,
                                    max_bits,
                                ))
                            &&& final(self).free() == old(self).free().update(
                                i,
                                (e.0, addr.0),
                            ).insert(i + 1, ((addr.0 + size) as u64, e.1))
                        }
                },
                Err(e) => {
                    &&& e == BootError::NoRootServerRegion
                    &&& final(self).free() == old(self).free()
                    &&& forall|i: int|
                        0 <= i < old(self).free().len() ==> !placement_fits(
                            #[trigger] old(self).free()[i],
                            size,
                            max_bits,
                        )
                },
            },
    {
        let ghost orig = self.free();
        let len = free_len(&self.freemem);
        let mut i = len;
        while i > 0
            invariant
                i <= len,
                len == self.free().len(),
                self.free() == orig,
                self == old(self),
                max_bits < 64,
                regions_sorted_disjoint(orig),
                orig.len() < MAX_NUM_FREEMEM_REG,
                forall|k: int|
                    0 <= k < orig.len() ==> PPTR_BASE <= (#[trigger] orig[k]).0 && orig[k].1
                        <= PPTR_TOP,
                forall|j: int| i <= j < len ==> !placement_fits(#[trigger] orig[j], size, max_bits),
            decreases i,
    {
            i = i - 1;
            let e = free_get(&self.freemem, i);
            if e.end.0 >= size {
                let s0 = KAddr(e.end.0 - size).align_down(max_bits);
                if s0.raw() >= e.start.0 {
                    // This entry hosts the block: split it around the
                    // carved range.
                    free_set(&mut self.freemem, i, KVirtRegion { start: e.start, end: s0 });
                    free_insert(
                        &mut self.freemem,
                        i + 1,
                        KVirtRegion { start: KAddr(s0.raw() + size), end: e.end },
                    );
                    proof {
                        lemma_carve_split(orig, i as int, s0.0, size, max_bits, self.free());
                        // The chosen entry is the highest that fits: every
                        // entry above it was scanned and rejected.
                        assert(placement_fits(orig[i as int], size, max_bits));
                        assert(self.free() == orig.update(
                            i as int,
                            (orig[i as int].0, s0.0),
                        ).insert(i as int + 1, ((s0.0 + size) as u64, orig[i as int].1)));
                    }
                    return Ok(s0);
                }
            }
            proof {
                assert(!placement_fits(orig[i as int], size, max_bits));
            }
        }
        Err(BootError::NoRootServerRegion)
    }
}

/// Splitting entry `i` of an ordered free list around a carved range that
/// lies inside it removes exactly that range from the covered set.
proof fn lemma_carve_split(
    orig: Seq<(u64, u64)>,
    i: int,
    s0: u64,
    size: u64,
    max_bits: u64,
    new: Seq<(u64, u64)>,
)
    requires
        regions_sorted_disjoint(orig),
        0 <= i < orig.len(),
        orig[i].0 <= s0,
        s0 + size <= orig[i].1,
        forall|k: int|
            0 <= k < orig.len() ==> PPTR_BASE <= (#[trigger] orig[k]).0 && orig[k].1 <= PPTR_TOP,
        new == orig.update(i, (orig[i].0, s0)).insert(i + 1, ((s0 + size) as u64, orig[i].1)),
    ensures
        forall|x: int| covers(new, x) <==> (covers(orig, x) && !(s0 <= x < s0 + size)),
        forall|x: int| s0 <= x < s0 + size ==> covers(orig, x),
        regions_weakly_sorted(new),
        forall|k: int|
            0 <= k < new.len() ==> PPTR_BASE <= (#[trigger] new[k]).0 && new[k].1 <= PPTR_TOP,
{
    assert(new.len() == orig.len() + 1);
    assert(forall|j: int| 0 <= j < i ==> new[j] == orig[j]);
    assert(new[i] == (orig[i].0, s0));
    assert(new[i + 1] == ((s0 + size) as u64, orig[i].1));
    assert(forall|j: int| i + 1 < j < new.len() ==> new[j] == orig[j - 1]);
    assert forall|x: int| s0 <= x < s0 + size implies covers(orig, x) by {
        assert(in_region(orig[i], x));
    }
    assert forall|x: int| covers(new, x) <==> (covers(orig, x) && !(s0 <= x < s0 + size)) by {
        if covers(new, x) {
            let j = choose|j: int| 0 <= j < new.len() && in_region(new[j], x);
            if j < i {
                assert(in_region(orig[j], x));
                if i < orig.len() && s0 <= x < s0 + size {
                    lemma_sorted_disjoint_ordered(orig, j, i);
                }
            } else if j == i || j == i + 1 {
                assert(in_region(orig[i], x));
            } else {
                assert(in_region(orig[j - 1], x));
                if s0 <= x < s0 + size {
                    lemma_sorted_disjoint_ordered(orig, i, j - 1);
                }
            }
            assert(covers(orig, x));
        }
        if covers(orig, x) && !(s0 <= x < s0 + size) {
            let j = choose|j: int| 0 <= j < orig.len() && in_region(orig[j], x);
            if j < i {
                assert(in_region(new[j], x));
            } else if j == i {
                if x < s0 {
                    assert(in_region(new[i], x));
                } else {
                    assert(in_region(new[i + 1], x));
                }
            } else {
                assert(in_region(new[j + 1], x));
            }
            assert(covers(new, x));
        }
    }
    assert forall|k: int| 0 <= k < new.len() - 1 implies (#[trigger] new[k]).1 <= new[k + 1].0 by {
        if k == i {
        } else if k == i + 1 {
            if i + 1 < orig.len() {
                assert(orig[i].1 <= orig[i + 1].0);
            }
        }
    }
}

/// How many paging objects of granularity 2^bits are needed to span a
/// virtual region: one per 2^bits-aligned chunk the region touches.
pub open spec fn n_paging_spec(start: u64, end: u64, bits: u64) -> int {
    (crate::addr::align_up64(end, bits) - crate::addr::align_down64(start, bits)) / (
    crate::addr::bit64(bits) as int)
}

/// Count the 2^bits-aligned chunks a virtual region touches.
pub fn get_n_paging(v_reg: VirtRegion, bits: u64) -> (r: u64)
    requires
        bits < 64,
        v_reg.start.0 <= v_reg.end.0,
        v_reg.end.0 + crate::addr::bit64(bits) - 1 <= u64::MAX,
    ensures
        r == n_paging_spec(v_reg.start.0, v_reg.end.0, bits),
        r * crate::addr::bit64(bits) == crate::addr::align_up64(v_reg.end.0, bits)
            - crate::addr::align_down64(v_reg.start.0, bits),
{
    let start = v_reg.start.align_down(bits).raw();
    let end = v_reg.end.align_up(bits).raw();
    let p = crate::addr::bit(bits);
    let d = end - start;
    proof {
        let pi = p as int;
        lemma_u64_pow2_no_overflow(bits as nat);
        assert(d % p == 0) by {
            lemma_fundamental_div_mod(start as int, pi);
            lemma_fundamental_div_mod(end as int, pi);
            let qs = start as int / pi;
            let qe = end as int / pi;
            assert(d as int == pi * qe - pi * qs);
            lemma_mul_is_distributive_sub(pi, qe, qs);
            assert(d as int == pi * (qe - qs));
            lemma_mul_is_commutative(pi, qe - qs);
            lemma_mod_multiples_basic(qe - qs, pi);
        }
        lemma_fundamental_div_mod(d as int, pi);
        assert(d as int == pi * (d as int / pi));
        lemma_mul_is_commutative(pi, d as int / pi);
    }
    d / p
}

/// The cursor of the sweep: where the undecided part of available region
/// `a` begins; zero once every region is decided.
pub open spec fn cur_of(v: Seq<KVirtRegion>, a: int) -> u64 {
    if 0 <= a < v.len() {
        v[a].start.0
    } else {
        0
    }
}

/// Copy a to-reserve list without its null entries.
fn drop_null_entries(reserveds: &Vec<KVirtRegion>) -> (r: Vec<KVirtRegion>)
    ensures
        r@ == nonnull_entries(reserveds@),
{
    let mut resv_regs: Vec<KVirtRegion> = Vec::new();
    let mut t: usize = 0;
    while t < reserveds.len()
        invariant
            t <= reserveds@.len(),
            resv_regs@ == nonnull_entries(reserveds@.take(t as int)),
        decreases reserveds@.len() - t,
    {
        let e = reserveds[t];
        proof {
            assert(reserveds@.take(t as int + 1).drop_last() =~= reserveds@.take(t as int));
            assert(reserveds@.take(t as int + 1).last() == reserveds@[t as int]);
        }
        if !(e.start.0 == 0 && e.end.0 == 0) {
            resv_regs.push(e);
        }
        t = t + 1;
    }
    proof {
        assert(reserveds@.take(reserveds@.len() as int) =~= reserveds@);
    }
    resv_regs
}

/// The sweep proper, over a to-reserve list already stripped of null
/// entries: every entry a nonempty kernel-window region, ordered and
/// non-overlapping.
#[verifier::rlimit(100)]
fn sweep_nonnull(availables: &Vec<PhysRegion>, resv_regs: &Vec<KVirtRegion>) -> (result: Result<
    NdksBoot,
    BootError,
>)
    requires
        avail_wf(availables@),
        forall|i: int|
            0 <= i < resv_regs@.len() ==> PPTR_BASE <= (#[trigger] resv_regs@[i]).start.0
                && resv_regs@[i].start.0 < resv_regs@[i].end.0,
        forall|i: int|
            0 <= i < resv_regs@.len() - 1 ==> (#[trigger] resv_regs@[i]).end.0 <= resv_regs@[i
                + 1].start.0,
    ensures
        match result {
            Ok(nb) => {
                &&& nb.resv_wf()
                &&& regions_sorted_disjoint(nb.free())
                &&& nb.free().len() < MAX_NUM_FREEMEM_REG
                &&& forall|x: int|
                    covers(nb.free(), x) <==> (covers(avail_clipped(availables@), x) && !covers(
                        kvirt_pairs(resv_regs@),
                        x,
                    ))
                &&& forall|p: int|
                    covers(nb.resv(), p) <==> covers(kvirt_phys_pairs(resv_regs@), p)
                &&& forall|i: int|
                    0 <= i < nb.free().len() ==> PPTR_BASE <= (#[trigger] nb.free()[i]).0
                        && nb.free()[i].1 <= PPTR_TOP
                &&& nb.slot_pos_cur == 0
                &&& nb.bi_frame.0 == 0
                &&& nb.free() == sweep_free_list(
                    avail_clipped(availables@),
                    kvirt_pairs(resv_regs@),
                )
            },
            Err(e) => {
                &&& (e == BootError::TooManyReservedRegions
                    || e == BootError::TooManyFreememRegions)
                &&& (e == BootError::TooManyReservedRegions ==> resv_regs@.len() + 1
                    >= MAX_NUM_RESV_REG)
                &&& (e == BootError::TooManyFreememRegions ==> availables@.len()
                    + resv_regs@.len() + 1 >= MAX_NUM_FREEMEM_REG)
            },
        },
        resv_regs@.len() + 1 < MAX_NUM_RESV_REG && availables@.len() + resv_regs@.len() + 1
            < MAX_NUM_FREEMEM_REG ==> result is Ok,
{
    let ghost ac = avail_clipped(availables@);
    let ghost rs = kvirt_pairs(resv_regs@);
    let ghost rp = kvirt_phys_pairs(resv_regs@);
    proof {
        assert forall|k: int| 0 <= k < rp.len() implies (#[trigger] rp[k]).0 < rp[k].1 by {
            assert(resv_regs@[k].start.0 >= PPTR_BASE);
        }
        assert(forall|k: int| 0 <= k < rp.len() - 1 ==> (#[trigger] rp[k]).1 <= rp[k + 1].0);
        assert forall|k: int| 0 <= k < ac.len() implies (#[trigger] ac[k]).0 <= ac[k].1
            && PPTR_BASE <= ac[k].0 && ac[k].1 <= PPTR_TOP by {
            assert(availables@[k].start.0 <= availables@[k].end.0);
        }
        assert(forall|k: int| 0 <= k < ac.len() - 1 ==> (#[trigger] ac[k]).1 <= ac[k + 1].0);
    }

    let avail_len = availables.len();
    let resv_len = resv_regs.len();

    // Translate the available regions into the kernel window, clipped to
    // its top.
    let mut avail_regs: Vec<KVirtRegion> = Vec::new();
    let mut k: usize = 0;
    while k < avail_len
        invariant
            k <= avail_len,
            avail_len == availables@.len(),
            avail_wf(availables@),
            ac == avail_clipped(availables@),
            avail_regs@.len() == k,
            forall|j: int|
                0 <= j < k ==> ((#[trigger] avail_regs@[j]).start.0, avail_regs@[j].end.0)
                    == ac[j],
        decreases avail_len - k,
    {
        let reg = availables[k];
        let s = reg.start.pptr();
        let e = reg.end.pptr();
        let s2 = if s.raw() >= PPTR_TOP {
            KAddr(PPTR_TOP)
        } else {
            s
        };
        let e2 = if e.raw() >= PPTR_TOP {
            KAddr(PPTR_TOP)
        } else {
            e
        };
        avail_regs.push(KVirtRegion { start: s2, end: e2 });
        k = k + 1;
    }

    let mut ndks = NdksBoot::empty();
    let mut a: usize = 0;
    let mut r: usize = 0;

    proof {
        assert(free_iff(ndks.free(), ac, 0, cur_of(avail_regs@, 0), rs));
        assert(cur_of(avail_regs@, 0) == cur_pair(ac, 0));
        assert(ndks.free() + sweep_rest(ac, rs, 0, cur_of(avail_regs@, 0), 0) =~= sweep_free_list(
            ac,
            rs,
        ));
    }

    while a < avail_len && r < resv_len
        invariant
            a <= avail_len,
            r <= resv_len,
            avail_len == availables@.len() == ac.len() == avail_regs@.len(),
            resv_len == rs.len() == rp.len() == resv_regs@.len(),
            ac == avail_clipped(availables@),
            rs == kvirt_pairs(resv_regs@),
            rp == kvirt_phys_pairs(resv_regs@),
            forall|kk: int|
                0 <= kk < resv_regs@.len() ==> PPTR_BASE <= (#[trigger] resv_regs@[kk]).start.0
                    && resv_regs@[kk].start.0 < resv_regs@[kk].end.0,
            forall|kk: int|
                0 <= kk < resv_regs@.len() - 1 ==> (#[trigger] resv_regs@[kk]).end.0
                    <= resv_regs@[kk + 1].start.0,
            forall|kk: int| 0 <= kk < rp.len() ==> (#[trigger] rp[kk]).0 < rp[kk].1,
            forall|kk: int| 0 <= kk < rp.len() - 1 ==> (#[trigger] rp[kk]).1 <= rp[kk + 1].0,
            forall|kk: int|
                0 <= kk < ac.len() ==> (#[trigger] ac[kk]).0 <= ac[kk].1 && PPTR_BASE <= ac[kk].0
                    && ac[kk].1 <= PPTR_TOP,
            forall|kk: int| 0 <= kk < ac.len() - 1 ==> (#[trigger] ac[kk]).1 <= ac[kk + 1].0,
            forall|j: int|
                a < j < avail_len ==> ((#[trigger] avail_regs@[j]).start.0, avail_regs@[j].end.0)
                    == ac[j],
            a < avail_len ==> avail_regs@[a as int].end.0 == ac[a as int].1 && ac[a as int].0
                <= avail_regs@[a as int].start.0 <= ac[a as int].1,
            ndks.resv_wf(),
            ndks.resv().len() <= r,
            forall|p: int|
                covers(ndks.resv(), p) <==> exists|j: int|
                    0 <= j < r && in_region(#[trigger] rp[j], p),
            ndks.free().len() <= a + r + 1,
            (a < avail_len && r < resv_len && cur_of(avail_regs@, a as int)
                < rs[r as int].1) ==> ndks.free().len() <= a + r,
            regions_sorted_disjoint(ndks.free()),
            forall|i: int|
                0 <= i < ndks.free().len() ==> PPTR_BASE <= (#[trigger] ndks.free()[i]).0
                    && ndks.free()[i].1 <= PPTR_TOP,
            a < avail_len ==> forall|i: int|
                0 <= i < ndks.free().len() ==> (#[trigger] ndks.free()[i]).1 <= cur_of(
                    avail_regs@,
                    a as int,
                ),
            a < avail_len ==> forall|j: int|
                0 <= j < r ==> (#[trigger] rs[j]).1 <= cur_of(avail_regs@, a as int),
            free_iff(ndks.free(), ac, a as int, cur_of(avail_regs@, a as int), rs),
            ndks.free() + sweep_rest(ac, rs, a as int, cur_of(avail_regs@, a as int), r as int)
                =~= sweep_free_list(ac, rs),
            ndks.slot_pos_cur == 0,
            ndks.bi_frame.0 == 0,
        decreases avail_len - a, resv_len - r, cur_span(avail_regs@, a as int),
    {
        let ghost cur = cur_of(avail_regs@, a as int);
        let resv_r = resv_regs[r];
        let av = avail_regs[a];

        if av.start.0 >= av.end.0 {
            // This available region is exhausted.
            proof {
                lemma_free_iff_advance(ndks.free(), ac, rs, a as int, cur_of(avail_regs@, a as int + 1));
                assert(cur_of(avail_regs@, a as int + 1) == cur_pair(ac, a as int + 1));
                assert(sweep_rest(ac, rs, a as int, cur, r as int) == sweep_rest(
                    ac,
                    rs,
                    a as int + 1,
                    cur_pair(ac, a as int + 1),
                    r as int,
                ));
            }
            a = a + 1;
        } else if resv_r.end.0 <= av.start.0 {
            // The to-reserve region lies entirely below the cursor: record
            // it in physical terms.
            let ghost prelen = ndks.resv().len();
            let recorded = ndks.sweep_reserve(resv_r.paddr(), Ghost(rp), Ghost(r as int));
            if !recorded {
                proof {
                    assert(prelen <= r && prelen + 1 >= MAX_NUM_RESV_REG);
                    assert(resv_regs@.len() + 1 >= MAX_NUM_RESV_REG);
                }
                return Err(BootError::TooManyReservedRegions);
            }
            proof {
                assert(sweep_rest(ac, rs, a as int, cur, r as int) == sweep_rest(
                    ac,
                    rs,
                    a as int,
                    cur,
                    r as int + 1,
                ));
            }
            r = r + 1;
        } else if resv_r.start.0 >= av.end.0 {
            // The to-reserve region lies entirely above this available
            // region: the whole remainder is free.
            if free_len(&ndks.freemem) >= MAX_NUM_FREEMEM_REG {
                proof {
                    assert(availables@.len() + resv_regs@.len() + 1 >= MAX_NUM_FREEMEM_REG);
                }
                return Err(BootError::TooManyFreememRegions);
            }
            let ghost before = ndks.free();
            ndks.push_free_piece(av);
            proof {
                lemma_free_iff_extend_free(
                    before,
                    ndks.free(),
                    ac,
                    rs,
                    a as int,
                    cur,
                    ac[a as int].1,
                    r as int,
                );
                lemma_free_iff_advance(ndks.free(), ac, rs, a as int, cur_of(avail_regs@, a as int + 1));
                assert(cur_of(avail_regs@, a as int + 1) == cur_pair(ac, a as int + 1));
                assert(sweep_rest(ac, rs, a as int, cur, r as int) == seq![(cur, ac[a as int].1)]
                    + sweep_rest(ac, rs, a as int + 1, cur_pair(ac, a as int + 1), r as int));
                assert(ndks.free() + sweep_rest(
                    ac,
                    rs,
                    a as int + 1,
                    cur_pair(ac, a as int + 1),
                    r as int,
                ) =~= before + sweep_rest(ac, rs, a as int, cur, r as int));
            }
            a = a + 1;
        } else if resv_r.start.0 <= av.start.0 {
            // Overlap with the to-reserve region reaching the cursor: skip
            // the overlapped part.
            let newstart = if av.end.0 <= resv_r.end.0 {
                av.end
            } else {
                resv_r.end
            };
            avail_regs[a] = KVirtRegion { start: newstart, end: av.end };
            proof {
                lemma_free_iff_trim(ndks.free(), ac, rs, a as int, cur, newstart.0, r as int);
                assert(sweep_rest(ac, rs, a as int, cur, r as int) == sweep_rest(
                    ac,
                    rs,
                    a as int,
                    newstart.0,
                    r as int,
                ));
            }
        } else {
            // Overlap with a free piece leading up to the to-reserve
            // region: split it off.
            if free_len(&ndks.freemem) >= MAX_NUM_FREEMEM_REG {
                proof {
                    assert(availables@.len() + resv_regs@.len() + 1 >= MAX_NUM_FREEMEM_REG);
                }
                return Err(BootError::TooManyFreememRegions);
            }
            let ghost before = ndks.free();
            ndks.push_free_piece(KVirtRegion { start: av.start, end: resv_r.start });
            proof {
                lemma_free_iff_extend_free(
                    before,
                    ndks.free(),
                    ac,
                    rs,
                    a as int,
                    cur,
                    resv_r.start.0,
                    r as int,
                );
            }
            if av.end.0 > resv_r.end.0 {
                // The available region continues past the to-reserve one.
                avail_regs[a] = KVirtRegion { start: resv_r.end, end: av.end };
                proof {
                    lemma_free_iff_trim(
                        ndks.free(),
                        ac,
                        rs,
                        a as int,
                        resv_r.start.0,
                        resv_r.end.0,
                        r as int,
                    );
                    assert(sweep_rest(ac, rs, a as int, cur, r as int) == seq![
                        (cur, rs[r as int].0),
                    ] + sweep_rest(ac, rs, a as int, rs[r as int].1, r as int));
                    assert(ndks.free() + sweep_rest(ac, rs, a as int, rs[r as int].1, r as int)
                        =~= before + sweep_rest(ac, rs, a as int, cur, r as int));
                }
            } else {
                // The rest of the available region is covered by the
                // to-reserve region.
                avail_regs[a] = KVirtRegion { start: av.end, end: av.end };
                proof {
                    lemma_free_iff_trim(
                        ndks.free(),
                        ac,
                        rs,
                        a as int,
                        resv_r.start.0,
                        av.end.0,
                        r as int,
                    );
                    lemma_free_iff_advance(
                        ndks.free(),
                        ac,
                        rs,
                        a as int,
                        cur_of(avail_regs@, a as int + 1),
                    );
                    assert(cur_of(avail_regs@, a as int + 1) == cur_pair(ac, a as int + 1));
                    assert(sweep_rest(ac, rs, a as int, cur, r as int) == seq![
                        (cur, rs[r as int].0),
                    ] + sweep_rest(ac, rs, a as int + 1, cur_pair(ac, a as int + 1), r as int));
                    assert(ndks.free() + sweep_rest(
                        ac,
                        rs,
                        a as int + 1,
                        cur_pair(ac, a as int + 1),
                        r as int,
                    ) =~= before + sweep_rest(ac, rs, a as int, cur, r as int));
                }
                a = a + 1;
            }
        }
    }

    // Record the to-reserve regions that lie above every available region.
    while r < resv_len
        invariant
            a <= avail_len,
            r <= resv_len,
            r < resv_len ==> a == avail_len,
            avail_len == availables@.len() == ac.len() == avail_regs@.len(),
            resv_len == rs.len() == rp.len() == resv_regs@.len(),
            rs == kvirt_pairs(resv_regs@),
            rp == kvirt_phys_pairs(resv_regs@),
            forall|kk: int|
                0 <= kk < resv_regs@.len() ==> PPTR_BASE <= (#[trigger] resv_regs@[kk]).start.0
                    && resv_regs@[kk].start.0 < resv_regs@[kk].end.0,
            forall|kk: int| 0 <= kk < rp.len() ==> (#[trigger] rp[kk]).0 < rp[kk].1,
            forall|kk: int| 0 <= kk < rp.len() - 1 ==> (#[trigger] rp[kk]).1 <= rp[kk + 1].0,
            ndks.resv_wf(),
            ndks.resv().len() <= r,
            forall|p: int|
                covers(ndks.resv(), p) <==> exists|j: int|
                    0 <= j < r && in_region(#[trigger] rp[j], p),
            ndks.free().len() <= a + r + 1,
            regions_sorted_disjoint(ndks.free()),
            forall|i: int|
                0 <= i < ndks.free().len() ==> PPTR_BASE <= (#[trigger] ndks.free()[i]).0
                    && ndks.free()[i].1 <= PPTR_TOP,
            ac == avail_clipped(availables@),
            forall|kk: int|
                0 <= kk < ac.len() ==> (#[trigger] ac[kk]).0 <= ac[kk].1 && PPTR_BASE <= ac[kk].0
                    && ac[kk].1 <= PPTR_TOP,
            forall|kk: int| 0 <= kk < ac.len() - 1 ==> (#[trigger] ac[kk]).1 <= ac[kk + 1].0,
            forall|j: int|
                a < j < avail_len ==> ((#[trigger] avail_regs@[j]).start.0, avail_regs@[j].end.0)
                    == ac[j],
            a < avail_len ==> avail_regs@[a as int].end.0 == ac[a as int].1 && ac[a as int].0
                <= avail_regs@[a as int].start.0 <= ac[a as int].1,
            a < avail_len ==> forall|i: int|
                0 <= i < ndks.free().len() ==> (#[trigger] ndks.free()[i]).1 <= cur_of(
                    avail_regs@,
                    a as int,
                ),
            a < avail_len ==> forall|j: int|
                0 <= j < rs.len() ==> (#[trigger] rs[j]).1 <= cur_of(avail_regs@, a as int),
            free_iff(ndks.free(), ac, a as int, cur_of(avail_regs@, a as int), rs),
            ndks.free() + sweep_rest(ac, rs, a as int, cur_of(avail_regs@, a as int), r as int)
                =~= sweep_free_list(ac, rs),
            ndks.slot_pos_cur == 0,
            ndks.bi_frame.0 == 0,
        decreases resv_len - r,
    {
        let resv_r = resv_regs[r];
        let ghost prelen = ndks.resv().len();
        let recorded = ndks.sweep_reserve(resv_r.paddr(), Ghost(rp), Ghost(r as int));
        if !recorded {
            proof {
                assert(prelen <= r && prelen + 1 >= MAX_NUM_RESV_REG);
                assert(resv_regs@.len() + 1 >= MAX_NUM_RESV_REG);
            }
            return Err(BootError::TooManyReservedRegions);
        }
        proof {
            // Every available region is already decided here, so the swept
            // remainder is empty whatever the reservation index.
            assert(sweep_rest(ac, rs, a as int, cur_of(avail_regs@, a as int), r as int)
                == Seq::<(u64, u64)>::empty());
            assert(sweep_rest(ac, rs, a as int, cur_of(avail_regs@, a as int), r as int + 1)
                == Seq::<(u64, u64)>::empty());
        }
        r = r + 1;
    }

    // Hand every remaining piece of the available regions to the free list.
    while a < avail_len
        invariant
            a <= avail_len,
            r == resv_len,
            avail_len == availables@.len() == ac.len() == avail_regs@.len(),
            resv_len == rs.len() == rp.len() == resv_regs@.len(),
            rs == kvirt_pairs(resv_regs@),
            rp == kvirt_phys_pairs(resv_regs@),
            ac == avail_clipped(availables@),
            forall|kk: int|
                0 <= kk < ac.len() ==> (#[trigger] ac[kk]).0 <= ac[kk].1 && PPTR_BASE <= ac[kk].0
                    && ac[kk].1 <= PPTR_TOP,
            forall|kk: int| 0 <= kk < ac.len() - 1 ==> (#[trigger] ac[kk]).1 <= ac[kk + 1].0,
            forall|j: int|
                a < j < avail_len ==> ((#[trigger] avail_regs@[j]).start.0, avail_regs@[j].end.0)
                    == ac[j],
            a < avail_len ==> avail_regs@[a as int].end.0 == ac[a as int].1 && ac[a as int].0
                <= avail_regs@[a as int].start.0 <= ac[a as int].1,
            regions_sorted_disjoint(rs),
            ndks.resv_wf(),
            ndks.resv().len() <= r,
            forall|p: int|
                covers(ndks.resv(), p) <==> exists|j: int|
                    0 <= j < r && in_region(#[trigger] rp[j], p),
            ndks.free().len() <= a + r + 1,
            regions_sorted_disjoint(ndks.free()),
            forall|i: int|
                0 <= i < ndks.free().len() ==> PPTR_BASE <= (#[trigger] ndks.free()[i]).0
                    && ndks.free()[i].1 <= PPTR_TOP,
            a < avail_len ==> forall|i: int|
                0 <= i < ndks.free().len() ==> (#[trigger] ndks.free()[i]).1 <= cur_of(
                    avail_regs@,
                    a as int,
                ),
            a < avail_len ==> forall|j: int|
                0 <= j < rs.len() ==> (#[trigger] rs[j]).1 <= cur_of(avail_regs@, a as int),
            free_iff(ndks.free(), ac, a as int, cur_of(avail_regs@, a as int), rs),
            ndks.free() + sweep_rest(ac, rs, a as int, cur_of(avail_regs@, a as int), r as int)
                =~= sweep_free_list(ac, rs),
            ndks.slot_pos_cur == 0,
            ndks.bi_frame.0 == 0,
        decreases avail_len - a,
    {
        let ghost cur = cur_of(avail_regs@, a as int);
        let av = avail_regs[a];
        if av.start.0 < av.end.0 {
            if free_len(&ndks.freemem) >= MAX_NUM_FREEMEM_REG {
                proof {
                    assert(availables@.len() + resv_regs@.len() + 1 >= MAX_NUM_FREEMEM_REG);
                }
                return Err(BootError::TooManyFreememRegions);
            }
            let ghost before = ndks.free();
            ndks.push_free_piece(av);
            proof {
                lemma_free_iff_extend_free(
                    before,
                    ndks.free(),
                    ac,
                    rs,
                    a as int,
                    cur,
                    ac[a as int].1,
                    rs.len() as int,
                );
                lemma_free_iff_advance(
                    ndks.free(),
                    ac,
                    rs,
                    a as int,
                    cur_of(avail_regs@, a as int + 1),
                );
                assert(cur_of(avail_regs@, a as int + 1) == cur_pair(ac, a as int + 1));
                assert(sweep_rest(ac, rs, a as int, cur, r as int) == seq![(cur, ac[a as int].1)]
                    + sweep_rest(ac, rs, a as int + 1, cur_pair(ac, a as int + 1), r as int));
                assert(ndks.free() + sweep_rest(
                    ac,
                    rs,
                    a as int + 1,
                    cur_pair(ac, a as int + 1),
                    r as int,
                ) =~= before + sweep_rest(ac, rs, a as int, cur, r as int));
            }
        } else {
            proof {
                lemma_free_iff_advance(
                    ndks.free(),
                    ac,
                    rs,
                    a as int,
                    cur_of(avail_regs@, a as int + 1),
                );
                assert(cur_of(avail_regs@, a as int + 1) == cur_pair(ac, a as int + 1));
                assert(sweep_rest(ac, rs, a as int, cur, r as int) == sweep_rest(
                    ac,
                    rs,
                    a as int + 1,
                    cur_pair(ac, a as int + 1),
                    r as int,
                ));
            }
        }
        a = a + 1;
    }

    if free_len(&ndks.freemem) >= MAX_NUM_FREEMEM_REG {
        proof {
            assert(availables@.len() + resv_regs@.len() + 1 >= MAX_NUM_FREEMEM_REG);
        }
        return Err(BootError::TooManyFreememRegions);
    }

    proof {
        // With every region decided, the settled addresses are exactly the
        // clipped available ones.
        assert forall|x: int|
            covers(ndks.free(), x) <==> (covers(ac, x) && !covers(rs, x)) by {
            assert(decided_below(ac, avail_len as int, 0, x) == covers(ac, x));
        }
        assert(forall|p: int| covers(ndks.resv(), p) <==> covers(rp, p));
        // The swept remainder is empty, so the free list is exactly the
        // swept list.
        assert(sweep_rest(ac, rs, avail_len as int, cur_of(avail_regs@, avail_len as int),
            resv_len as int) == Seq::<(u64, u64)>::empty());
        assert(ndks.free() + Seq::<(u64, u64)>::empty() =~= ndks.free());
        assert(ndks.free() =~= sweep_free_list(ac, rs));
        assert(ndks.free() == sweep_free_list(ac, rs));
    }
    Ok(ndks)
}

/// Subtract the to-reserve regions from the platform's available memory:
/// skip null to-reserve entries, record each remaining region in the
/// reserved list (in physical terms) and hand every remaining piece of the
/// available regions (translated into the kernel window and clipped to its
/// top) to the free list.
///
/// On success, the free list is exactly the swept list (`sweep_free_list`):
/// it covers exactly the available kernel-window addresses that no
/// to-reserve region covers — no byte is dropped or double-counted — and
/// the reserved list covers exactly the to-reserve regions. Each error
/// names a region list that ran out of room, a configuration sizing
/// failure, and can only occur when the corresponding input list is large
/// enough to exhaust it.
pub fn sweep_free_memory(availables: &Vec<PhysRegion>, reserveds: &Vec<KVirtRegion>) -> (result:
    Result<NdksBoot, BootError>)
    requires
        avail_wf(availables@),
        to_reserve_wf(reserveds@),
    ensures
        match result {
            Ok(nb) => {
                &&& nb.resv_wf()
                &&& regions_sorted_disjoint(nb.free())
                &&& nb.free().len() < MAX_NUM_FREEMEM_REG
                &&& forall|x: int|
                    covers(nb.free(), x) <==> (covers(avail_clipped(availables@), x) && !covers(
                        kvirt_pairs(reserveds@),
                        x,
                    ))
                &&& forall|p: int|
                    covers(nb.resv(), p) <==> covers(kvirt_phys_pairs(reserveds@), p)
                &&& forall|i: int|
                    0 <= i < nb.free().len() ==> PPTR_BASE <= (#[trigger] nb.free()[i]).0
                        && nb.free()[i].1 <= PPTR_TOP
                &&& nb.slot_pos_cur == 0
                &&& nb.bi_frame.0 == 0
                &&& nb.free() == sweep_free_list(
                    avail_clipped(availables@),
                    kvirt_pairs(nonnull_entries(reserveds@)),
                )
            },
            Err(e) => {
                &&& (e == BootError::TooManyReservedRegions
                    || e == BootError::TooManyFreememRegions)
                &&& (e == BootError::TooManyReservedRegions ==> reserveds@.len() + 1
                    >= MAX_NUM_RESV_REG)
                &&& (e == BootError::TooManyFreememRegions ==> availables@.len()
                    + reserveds@.len() + 1 >= MAX_NUM_FREEMEM_REG)
            },
        },
        reserveds@.len() + 1 < MAX_NUM_RESV_REG && availables@.len() + reserveds@.len() + 1
            < MAX_NUM_FREEMEM_REG ==> result is Ok,
{
    proof {
        lemma_nonnull_entries_wf(reserveds@);
    }
    // Drop the null entries: the sweep skips them, and what remains is
    // strictly ordered.
    let resv_regs = drop_null_entries(reserveds);
    let result = sweep_nonnull(availables, &resv_regs);
    proof {
        if result is Ok {
            let nb = result->Ok_0;
            // Null to-reserve entries cover nothing, so the conservation
            // statements hold of the unfiltered inputs too.
            lemma_sweep_bridge(
                reserveds@,
                nb.free(),
                nb.resv(),
                avail_clipped(availables@),
            );
        }
    }
    result
}

/// Initialise the free-memory registry and carve out the root server: run
/// the sweep that subtracts the to-reserve regions from the available ones,
/// place the root-server block at the top of the highest free region that
/// can host it, and carve the block into the root server's object regions.
///
/// On success, the registry's reserved list covers exactly the to-reserve
/// regions, its free list covers exactly the available kernel-window
/// addresses minus the to-reserve regions and minus the carved block, and
/// the returned root-server memory is laid out at an address aligned to the
/// block's alignment requirement. Each error names the stage that failed;
/// nothing of the failed boot is handed out.
pub fn init_free_mem(
    availables: &Vec<PhysRegion>,
    reserveds: &Vec<KVirtRegion>,
    it_v_reg: VirtRegion,
    extra_bi_size_bits: u64,
) -> (result: Result<(NdksBoot, crate::root_server::RootServerMem), BootError>)
    requires
        avail_wf(availables@),
        to_reserve_wf(reserveds@),
        it_v_reg.start.0 <= it_v_reg.end.0,
        it_v_reg.end.0 < crate::mem::USER_VADDR_CEIL,
        extra_bi_size_bits == 0 || crate::consts::PAGE_BITS <= extra_bi_size_bits < 48,
    ensures
        match result {
            Ok(pair) => {
                let nb = pair.0;
                let rsm = pair.1;
                let size = crate::root_server::rootserver_size_spec(
                    it_v_reg.start.0,
                    it_v_reg.end.0,
                    extra_bi_size_bits,
                );
                let base = ((rsm.tcb.0 + bit64(crate::consts::TCB_BITS)) - size) as u64;
                &&& nb.resv_wf()
                &&& (forall|p: int|
                    covers(nb.resv(), p) <==> covers(kvirt_phys_pairs(reserveds@), p))
                &&& crate::root_server::rsm_layout(
                    rsm,
                    base,
                    it_v_reg.start.0,
                    it_v_reg.end.0,
                    extra_bi_size_bits,
                )
                &&& base % bit64(
                    crate::root_server::max_size_bits_spec(extra_bi_size_bits),
                ) == 0
                &&& (forall|x: int|
                    covers(nb.free(), x) <==> (covers(avail_clipped(availables@), x) && !covers(
                        kvirt_pairs(reserveds@),
                        x,
                    ) && !(base <= x < base + size)))
                &&& (forall|x: int|
                    base <= x < base + size ==> (covers(avail_clipped(availables@), x) && !covers(
                        kvirt_pairs(reserveds@),
                        x,
                    )))
                &&& regions_weakly_sorted(nb.free())
                &&& ({
                    // The block was carved from the highest swept entry
                    // that fits, which splits around it.
                    let swept = sweep_free_list(
                        avail_clipped(availables@),
                        kvirt_pairs(nonnull_entries(reserveds@)),
                    );
                    let max = crate::root_server::max_size_bits_spec(extra_bi_size_bits);
                    exists|i: int|
                        {
                            let entry = #[trigger] swept[i];
                            &&& 0 <= i < swept.len()
                            &&& placement_fits(entry, size as u64, max)
                            &&& base == crate::addr::align_down64((entry.1 - size) as u64, max)
                            &&& (forall|j: int|
                                i < j < swept.len() ==> !placement_fits(
                                    #[trigger] swept[j],
                                    size as u64,
                                    max,
                                ))
                            &&& nb.free() == swept.update(i, (entry.0, base)).insert(
                                i + 1,
                                ((base + size) as u64, entry.1),
                            )
                        }
                })
                &&& nb.slot_pos_cur == 0
                &&& nb.bi_frame.0 == 0
            },
            Err(e) => e == BootError::TooManyReservedRegions
                || e == BootError::TooManyFreememRegions || e == BootError::NoRootServerRegion,
        },
        (result is Err && result->Err_0 == BootError::TooManyReservedRegions)
            ==> reserveds@.len() + 1 >= MAX_NUM_RESV_REG,
        (result is Err && result->Err_0 == BootError::TooManyFreememRegions)
            ==> availables@.len() + reserveds@.len() + 1 >= MAX_NUM_FREEMEM_REG,
        ({
            let swept = sweep_free_list(
                avail_clipped(availables@),
                kvirt_pairs(nonnull_entries(reserveds@)),
            );
            let size = crate::root_server::rootserver_size_spec(
                it_v_reg.start.0,
                it_v_reg.end.0,
                extra_bi_size_bits,
            ) as u64;
            let max = crate::root_server::max_size_bits_spec(extra_bi_size_bits);
            &&& ((result is Err && result->Err_0 == BootError::NoRootServerRegion)
                ==> forall|i: int|
                0 <= i < swept.len() ==> !placement_fits(#[trigger] swept[i], size, max))
            &&& (result is Ok ==> exists|i: int|
                0 <= i < swept.len() && placement_fits(#[trigger] swept[i], size, max))
            &&& ((reserveds@.len() + 1 < MAX_NUM_RESV_REG && availables@.len()
                + reserveds@.len() + 1 < MAX_NUM_FREEMEM_REG && exists|i: int|
                0 <= i < swept.len() && placement_fits(#[trigger] swept[i], size, max))
                ==> result is Ok)
        }),
{
    let mut ndks = match sweep_free_memory(availables, reserveds) {
        Ok(n) => n,
        Err(e) => {
            return Err(e);
        },
    };
    let size = crate::root_server::calculate_rootserver_size(it_v_reg, extra_bi_size_bits);
    let max = crate::root_server::rootserver_max_size_bits(extra_bi_size_bits);
    let ghost free_before = ndks.free();
    let start = match ndks.carve_rootserver_block(size, max) {
        Ok(a) => a,
        Err(e) => {
            return Err(e);
        },
    };
    let rsm = crate::root_server::create_rootserver_objects(start, it_v_reg, extra_bi_size_bits);
    proof {
        let ac = avail_clipped(availables@);
        let rs = kvirt_pairs(reserveds@);
        assert(rsm.tcb.0 + bit64(crate::consts::TCB_BITS) == start.0 + size);
        assert(free_before == sweep_free_list(ac, kvirt_pairs(nonnull_entries(reserveds@))));
        assert(((rsm.tcb.0 + bit64(crate::consts::TCB_BITS)) - size) as u64 == start.0);
        assert(forall|x: int|
            covers(ndks.free(), x) <==> (covers(ac, x) && !covers(rs, x) && !(start.0 <= x
                < start.0 + size)));
        assert forall|x: int| start.0 <= x < start.0 + size implies (covers(ac, x) && !covers(
            rs,
            x,
        )) by {
            assert(covers(free_before, x));
        }
    }
    Ok((ndks, rsm))
}

/// The undecided span of the current available region, a termination
/// measure for the sweep.
pub open spec fn cur_span(v: Seq<KVirtRegion>, a: int) -> int {
    if 0 <= a < v.len() {
        v[a].end.0 - v[a].start.0
    } else {
        0
    }
}

/// Moving the cursor across a piece that was handed to the free list keeps
/// the sweep invariant, provided no to-reserve region reaches the piece.
proof fn lemma_free_iff_extend_free(
    free: Seq<(u64, u64)>,
    free2: Seq<(u64, u64)>,
    ac: Seq<(u64, u64)>,
    rs: Seq<(u64, u64)>,
    a: int,
    cur: u64,
    newcur: u64,
    r: int,
)
    requires
        free_iff(free, ac, a, cur, rs),
        forall|x: int|
            covers(free2, x) <==> (covers(free, x) || in_region((cur, newcur), x)),
        0 <= a < ac.len(),
        ac[a].0 <= cur <= newcur <= ac[a].1,
        regions_sorted_disjoint(rs),
        0 <= r <= rs.len(),
        forall|j: int| 0 <= j < r ==> (#[trigger] rs[j]).1 <= cur,
        r < rs.len() ==> rs[r as int].0 >= newcur,
    ensures
        free_iff(free2, ac, a, newcur, rs),
{
    assert forall|x: int| cur <= x < newcur implies !covers(rs, x) by {
        if covers(rs, x) {
            let j = choose|j: int| 0 <= j < rs.len() && in_region(#[trigger] rs[j], x);
            if j < r {
                assert(rs[j].1 <= cur);
            } else {
                if j > r {
                    lemma_sorted_disjoint_ordered(rs, r, j);
                    assert(rs[r].1 <= rs[j].0);
                }
                assert(rs[j].0 >= newcur);
            }
        }
    }
    assert forall|x: int|
        covers(free2, x) <==> (decided_below(ac, a, newcur, x) && !covers(rs, x)) by {
        if covers(free2, x) {
            if covers(free, x) {
                assert(decided_below(ac, a, cur, x));
                assert(decided_below(ac, a, newcur, x));
            } else {
                assert(in_region((cur, newcur), x));
                assert(decided_below(ac, a, newcur, x));
            }
        }
        if decided_below(ac, a, newcur, x) && !covers(rs, x) {
            if decided_below(ac, a, cur, x) {
                assert(covers(free, x));
            } else {
                assert(ac[a].0 <= x < newcur);
                assert(cur <= x);
                assert(in_region((cur, newcur), x));
            }
            assert(covers(free2, x));
        }
    }
}

/// Moving the cursor across a piece inside the to-reserve region `rs[r]`
/// keeps the sweep invariant with the free list unchanged.
proof fn lemma_free_iff_trim(
    free: Seq<(u64, u64)>,
    ac: Seq<(u64, u64)>,
    rs: Seq<(u64, u64)>,
    a: int,
    cur: u64,
    newcur: u64,
    r: int,
)
    requires
        free_iff(free, ac, a, cur, rs),
        0 <= a < ac.len(),
        0 <= r < rs.len(),
        ac[a].0 <= cur <= newcur,
        rs[r].0 <= cur,
        newcur <= rs[r].1,
    ensures
        free_iff(free, ac, a, newcur, rs),
{
    assert forall|x: int|
        covers(free, x) <==> (decided_below(ac, a, newcur, x) && !covers(rs, x)) by {
        if covers(free, x) {
            assert(decided_below(ac, a, cur, x));
            assert(decided_below(ac, a, newcur, x));
        }
        if decided_below(ac, a, newcur, x) && !covers(rs, x) {
            if !decided_below(ac, a, cur, x) {
                assert(ac[a].0 <= x < newcur);
                assert(cur <= x);
                assert(in_region(rs[r], x));
                assert(covers(rs, x));
            }
            assert(covers(free, x));
        }
    }
}

/// When the cursor has reached the end of available region `a`, the sweep
/// invariant carries over to region `a + 1` with its cursor at its start.
proof fn lemma_free_iff_advance(
    free: Seq<(u64, u64)>,
    ac: Seq<(u64, u64)>,
    rs: Seq<(u64, u64)>,
    a: int,
    curnext: u64,
)
    requires
        free_iff(free, ac, a, ac[a].1, rs),
        0 <= a < ac.len(),
        ac[a].0 <= ac[a].1,
        a + 1 < ac.len() ==> curnext == ac[a + 1].0,
    ensures
        free_iff(free, ac, a + 1, curnext, rs),
{
    assert forall|x: int|
        covers(free, x) <==> (decided_below(ac, a + 1, curnext, x) && !covers(rs, x)) by {
        if covers(free, x) {
            assert(decided_below(ac, a, ac[a].1, x));
            if exists|j: int| 0 <= j < a && in_region(#[trigger] ac[j], x) {
                let j = choose|j: int| 0 <= j < a && in_region(#[trigger] ac[j], x);
                assert(0 <= j < a + 1 && in_region(ac[j], x));
            } else {
                assert(in_region(ac[a], x));
            }
            assert(decided_below(ac, a + 1, curnext, x));
        }
        if decided_below(ac, a + 1, curnext, x) && !covers(rs, x) {
            if exists|j: int| 0 <= j < a + 1 && in_region(#[trigger] ac[j], x) {
                let j = choose|j: int| 0 <= j < a + 1 && in_region(#[trigger] ac[j], x);
                if j < a {
                    assert(decided_below(ac, a, ac[a].1, x));
                } else {
                    assert(in_region(ac[a], x));
                    assert(decided_below(ac, a, ac[a].1, x));
                }
            } else {
                assert(a + 1 < ac.len() && ac[a + 1].0 <= x < curnext);
            }
            assert(covers(free, x));
        }
    }
}

} // verus!
