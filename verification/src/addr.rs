//! Typed physical, virtual and kernel-window addresses, and half-open
//! regions over each, with alignment and translation operators.
//!
//! Raw addresses are `u64` machine words. A physical address `p` inside the
//! platform's window is visible at virtual address `p + PPTR_BASE` once the
//! kernel window is mapped; because the window base has its low 39 bits
//! clear and the window spans less than 2^39 bytes, the translation is both
//! an OR and an addition, and it round-trips.
use vstd::arithmetic::div_mod::{
    lemma_add_mod_noop, lemma_fundamental_div_mod, lemma_mod_multiples_basic, lemma_mod_self_0,
    lemma_mod_twice, lemma_small_mod,
};
use vstd::arithmetic::mul::{lemma_mul_is_associative, lemma_mul_is_commutative};
use vstd::arithmetic::power2::{
    lemma2_to64, lemma2_to64_rest, lemma_pow2_adds, lemma_pow2_pos, pow2,
};
use vstd::bits::{lemma_u64_low_bits_mask_is_mod, lemma_u64_pow2_no_overflow, lemma_u64_shl_is_mul, low_bits_mask};
use vstd::prelude::*;

verus! {

/// Base of the kernel's permanently mapped window.
pub const PPTR_BASE: u64 = 0xFFFF_FF80_0000_0000;

/// Top of the kernel's permanently mapped window.
pub const PPTR_TOP: u64 = 0xFFFF_FFFF_C000_0000;

/// Size of the kernel window: physical addresses at or above this bound have
/// no kernel-window image. `PPTR_BASE` has its low 39 bits clear, so any
/// physical address below `WINDOW_SIZE` (2^39) translates by plain addition.
pub const WINDOW_SIZE: u64 = 0x80_0000_0000;

/// 2^bits, as a mathematical function of the bit width.
pub open spec fn bit64(bits: u64) -> u64
    recommends
        bits < 64,
{
    pow2(bits as nat) as u64
}

/// 2^bits computed as a left shift.
pub fn bit(bits: u64) -> (r: u64)
    requires
        bits < 64,
    ensures
        r == bit64(bits),
        r >= 1,
{
    proof {
        lemma_u64_pow2_no_overflow(bits as nat);
        lemma_u64_shl_is_mul(1u64, bits);
        lemma_pow2_pos(bits as nat);
    }
    1u64 << bits
}

/// `x` rounded down to a multiple of 2^bits.
pub open spec fn align_down64(x: u64, bits: u64) -> u64
    recommends
        bits < 64,
{
    (x - (x % bit64(bits))) as u64
}

/// `x` rounded up to a multiple of 2^bits (exact as a mathematical integer).
pub open spec fn align_up64(x: u64, bits: u64) -> int
    recommends
        bits < 64,
{
    if x % bit64(bits) == 0 {
        x as int
    } else {
        x - x % bit64(bits) + bit64(bits)
    }
}

fn align_down_raw(x: u64, bits: u64) -> (r: u64)
    requires
        bits < 64,
    ensures
        r == align_down64(x, bits),
        r % bit64(bits) == 0,
        r <= x < r + bit64(bits),
{
    let p = bit(bits);
    let m = p - 1;
    proof {
        lemma_u64_pow2_no_overflow(bits as nat);
        assert(low_bits_mask(bits as nat) == m);
        lemma_u64_low_bits_mask_is_mod(x, bits as nat);
        assert(m == (1u64 << bits) - 1) by {
            lemma_u64_shl_is_mul(1u64, bits);
        }
        assert(x & !m == x - (x & m)) by (bit_vector)
            requires
                m == (1u64 << bits) - 1 && bits < 64,
        ;
        lemma_mod_self_0(p as int);
        lemma_mod_twice(x as int, p as int);
        lemma_add_mod_noop((x - (x % p)) as int, 0, p as int);
        assert((x - (x % p)) as int % p as int == 0) by {
            let s = (x % p) as int;
            lemma_sub_mod_eq_zero(x as int, s, p as int);
        }
    }
    x & !m
}

proof fn lemma_sub_mod_eq_zero(x: int, s: int, p: int)
    requires
        0 < p,
        s == x % p,
        0 <= x,
    ensures
        (x - s) % p == 0,
{
    lemma_add_mod_noop(x, -s, p);
    lemma_mod_self_0(p);
    assert((-s) % p == (p - s) % p) by {
        lemma_add_mod_noop(-s, p, p);
        lemma_mod_twice(-s, p);
    }
    assert((x % p + (-s) % p) % p == 0) by {
        if s == 0 {
            lemma_small_mod(0nat, p as nat);
        } else {
            lemma_small_mod((p - s) as nat, p as nat);
            assert((s + (p - s)) % p == 0) by {
                lemma_mod_self_0(p);
            }
        }
    }
}

fn align_up_raw(x: u64, bits: u64) -> (r: u64)
    requires
        bits < 64,
        x + bit64(bits) - 1 <= u64::MAX,
    ensures
        r == align_up64(x, bits),
        r % bit64(bits) == 0,
        x <= r < x + bit64(bits),
{
    let p = bit(bits);
    let r = align_down_raw(x + (p - 1), bits);
    proof {
        let s = (x % p) as int;
        lemma_add_mod_noop(x as int, (p - 1) as int, p as int);
        lemma_mod_twice((x + p - 1) as int, p as int);
        if s == 0 {
            lemma_small_mod((p - 1) as nat, p as nat);
            assert((x + p - 1) % (p as int) == p - 1) by {
                lemma_mod_twice((x + p - 1) as int, p as int);
            }
        } else {
            assert(((x % p) + (p - 1) % (p as int)) % (p as int) == s - 1) by {
                lemma_small_mod((p - 1) as nat, p as nat);
                lemma_add_mod_noop(s, (p as int) - 1, p as int);
                lemma_small_mod((s - 1) as nat, p as nat);
                assert((s + p - 1) % (p as int) == ((s - 1) + p) % (p as int));
                lemma_add_mod_noop(s - 1, p as int, p as int);
                lemma_mod_self_0(p as int);
                lemma_mod_twice(s - 1, p as int);
            }
        }
    }
    r
}

/// A physical address.
#[derive(Clone, Copy, PartialEq, Eq, Structural, Debug)]
pub struct PAddr(pub u64);

/// An arbitrary virtual address.
#[derive(Clone, Copy, PartialEq, Eq, Structural, Debug)]
pub struct VAddr(pub u64);

/// A virtual address inside the kernel's permanently mapped window.
#[derive(Clone, Copy, PartialEq, Eq, Structural, Debug)]
pub struct KAddr(pub u64);

impl PAddr {
    pub fn new(addr: u64) -> (r: Self)
        ensures
            r.0 == addr,
    {
        PAddr(addr)
    }

    pub fn raw(&self) -> (r: u64)
        ensures
            r == self.0,
    {
        self.0
    }

    pub fn is_null(&self) -> (r: bool)
        ensures
            r == (self.0 == 0),
    {
        self.0 == 0
    }

    pub fn align_up(&self, bits: u64) -> (r: Self)
        requires
            bits < 64,
            self.0 + bit64(bits) - 1 <= u64::MAX,
        ensures
            r.0 == align_up64(self.0, bits),
            r.0 % bit64(bits) == 0,
            self.0 <= r.0 < self.0 + bit64(bits),
    {
        PAddr(align_up_raw(self.0, bits))
    }

    pub fn align_down(&self, bits: u64) -> (r: Self)
        requires
            bits < 64,
        ensures
            r.0 == align_down64(self.0, bits),
            r.0 % bit64(bits) == 0,
            r.0 <= self.0 < r.0 + bit64(bits),
    {
        PAddr(align_down_raw(self.0, bits))
    }

    /// The kernel-window image of this physical address.
    pub fn pptr(&self) -> (r: KAddr)
        requires
            self.0 < WINDOW_SIZE,
        ensures
            r.0 == self.0 + PPTR_BASE,
    {
        proof {
            let a = self.0;
            assert(a < 0x80_0000_0000 ==> (a | 0xFFFF_FF80_0000_0000u64)
                == a + 0xFFFF_FF80_0000_0000u64) by (bit_vector);
        }
        KAddr(self.0 | PPTR_BASE)
    }
}

impl VAddr {
    pub fn new(addr: u64) -> (r: Self)
        ensures
            r.0 == addr,
    {
        VAddr(addr)
    }

    pub fn raw(&self) -> (r: u64)
        ensures
            r == self.0,
    {
        self.0
    }

    pub fn is_null(&self) -> (r: bool)
        ensures
            r == (self.0 == 0),
    {
        self.0 == 0
    }

    pub fn align_up(&self, bits: u64) -> (r: Self)
        requires
            bits < 64,
            self.0 + bit64(bits) - 1 <= u64::MAX,
        ensures
            r.0 == align_up64(self.0, bits),
            r.0 % bit64(bits) == 0,
            self.0 <= r.0 < self.0 + bit64(bits),
    {
        VAddr(align_up_raw(self.0, bits))
    }

    pub fn align_down(&self, bits: u64) -> (r: Self)
        requires
            bits < 64,
        ensures
            r.0 == align_down64(self.0, bits),
            r.0 % bit64(bits) == 0,
            r.0 <= self.0 < r.0 + bit64(bits),
    {
        VAddr(align_down_raw(self.0, bits))
    }
}

impl KAddr {
    pub fn new(addr: u64) -> (r: Self)
        ensures
            r.0 == addr,
    {
        KAddr(addr)
    }

    pub fn raw(&self) -> (r: u64)
        ensures
            r == self.0,
    {
        self.0
    }

    pub fn is_null(&self) -> (r: bool)
        ensures
            r == (self.0 == 0),
    {
        self.0 == 0
    }

    pub fn align_up(&self, bits: u64) -> (r: Self)
        requires
            bits < 64,
            self.0 + bit64(bits) - 1 <= u64::MAX,
        ensures
            r.0 == align_up64(self.0, bits),
            r.0 % bit64(bits) == 0,
            self.0 <= r.0 < self.0 + bit64(bits),
    {
        KAddr(align_up_raw(self.0, bits))
    }

    pub fn align_down(&self, bits: u64) -> (r: Self)
        requires
            bits < 64,
        ensures
            r.0 == align_down64(self.0, bits),
            r.0 % bit64(bits) == 0,
            r.0 <= self.0 < r.0 + bit64(bits),
    {
        KAddr(align_down_raw(self.0, bits))
    }

    /// The physical address whose kernel-window image this address is.
    pub fn paddr(&self) -> (r: PAddr)
        requires
            self.0 >= PPTR_BASE,
        ensures
            r.0 == self.0 - PPTR_BASE,
    {
        PAddr(self.0 - PPTR_BASE)
    }
}

/// Translating a physical address into the kernel window and back returns
/// the same address, for every physical address inside the window: the
/// window base has its low 39 bits clear, so OR-ing it in is an addition,
/// and subtracting it afterwards undoes it.
pub proof fn lemma_pptr_paddr_round_trip(p: u64)
    requires
        p < WINDOW_SIZE,
    ensures
        (p | PPTR_BASE) == p + PPTR_BASE,
        ((p | PPTR_BASE) - PPTR_BASE) as u64 == p,
        (p | PPTR_BASE) >= PPTR_BASE,
{
    assert(p < 0x80_0000_0000 ==> (p | 0xFFFF_FF80_0000_0000u64) == p
        + 0xFFFF_FF80_0000_0000u64) by (bit_vector);
}

/// A region of arbitrary virtual addresses, half-open.
#[derive(Clone, Copy, PartialEq, Eq, Structural, Debug)]
pub struct VirtRegion {
    pub start: VAddr,
    pub end: VAddr,
}

/// A region of physical addresses, half-open.
#[derive(Clone, Copy, PartialEq, Eq, Structural, Debug)]
pub struct PhysRegion {
    pub start: PAddr,
    pub end: PAddr,
}

/// A region of kernel-window addresses, half-open.
#[derive(Clone, Copy, PartialEq, Eq, Structural, Debug)]
pub struct KVirtRegion {
    pub start: KAddr,
    pub end: KAddr,
}

impl VirtRegion {
    pub fn new(start: VAddr, end: VAddr) -> (r: Self)
        ensures
            r.start == start,
            r.end == end,
    {
        VirtRegion { start, end }
    }

    pub fn empty() -> (r: Self)
        ensures
            r.start.0 == 0,
            r.end.0 == 0,
    {
        VirtRegion { start: VAddr(0), end: VAddr(0) }
    }

    /// The null region. A zero-length region elsewhere in the address space
    /// does not count as empty here; the free-memory sweep instead tests
    /// `start >= end` for exhaustion.
    pub fn is_empty(&self) -> (r: bool)
        ensures
            r == (self.start.0 == 0 && self.end.0 == 0),
    {
        self.start.0 == 0 && self.end.0 == 0
    }
}

impl PhysRegion {
    pub fn new(start: PAddr, end: PAddr) -> (r: Self)
        ensures
            r.start == start,
            r.end == end,
    {
        PhysRegion { start, end }
    }

    pub fn empty() -> (r: Self)
        ensures
            r.start.0 == 0,
            r.end.0 == 0,
    {
        PhysRegion { start: PAddr(0), end: PAddr(0) }
    }

    pub fn is_empty(&self) -> (r: bool)
        ensures
            r == (self.start.0 == 0 && self.end.0 == 0),
    {
        self.start.0 == 0 && self.end.0 == 0
    }

    /// The kernel-window image of this physical region.
    pub fn pptr(&self) -> (r: KVirtRegion)
        requires
            self.start.0 < WINDOW_SIZE,
            self.end.0 < WINDOW_SIZE,
        ensures
            r.start.0 == self.start.0 + PPTR_BASE,
            r.end.0 == self.end.0 + PPTR_BASE,
    {
        KVirtRegion { start: self.start.pptr(), end: self.end.pptr() }
    }
}

impl KVirtRegion {
    pub fn new(start: KAddr, end: KAddr) -> (r: Self)
        ensures
            r.start == start,
            r.end == end,
    {
        KVirtRegion { start, end }
    }

    pub fn empty() -> (r: Self)
        ensures
            r.start.0 == 0,
            r.end.0 == 0,
    {
        KVirtRegion { start: KAddr(0), end: KAddr(0) }
    }

    pub fn is_empty(&self) -> (r: bool)
        ensures
            r == (self.start.0 == 0 && self.end.0 == 0),
    {
        self.start.0 == 0 && self.end.0 == 0
    }

    /// The physical region whose kernel-window image this region is.
    pub fn paddr(&self) -> (r: PhysRegion)
        requires
            self.start.0 >= PPTR_BASE,
            self.end.0 >= PPTR_BASE,
        ensures
            r.start.0 == self.start.0 - PPTR_BASE,
            r.end.0 == self.end.0 - PPTR_BASE,
    {
        PhysRegion { start: self.start.paddr(), end: self.end.paddr() }
    }
}

impl KVirtRegion {
    /// Bump-allocate `num` objects of 2^`size_bits` bytes each from the
    /// front of this region. The cursor must be aligned to the object size
    /// and the region must have room; in the machine, the allocated bytes
    /// are zero-filled, which the model of the object later built in them
    /// accounts for.
    pub fn alloc_rootserver_obj(&mut self, size_bits: u64, num: u64) -> (r: KAddr)
        requires
            size_bits < 64,
            old(self).start.0 % bit64(size_bits) == 0,
            old(self).start.0 + num * bit64(size_bits) <= old(self).end.0,
        ensures
            r == old(self).start,
            r.0 % bit64(size_bits) == 0,
            final(self).start.0 == old(self).start.0 + num * bit64(size_bits),
            final(self).end == old(self).end,
    {
        let allocated = self.start;
        self.start = KAddr(self.start.0 + num * bit(size_bits));
        allocated
    }
}

/// An address aligned to 2^m is aligned to every smaller power of two.
pub proof fn lemma_aligned_weaken(x: u64, m: u64, k: u64)
    requires
        k <= m < 64,
        x % bit64(m) == 0,
    ensures
        x % bit64(k) == 0,
{
    let pm = pow2(m as nat) as int;
    let pk = pow2(k as nat) as int;
    let pd = pow2((m - k) as nat) as int;
    lemma_u64_pow2_no_overflow(m as nat);
    lemma_u64_pow2_no_overflow(k as nat);
    lemma_pow2_pos((m - k) as nat);
    lemma_pow2_adds(k as nat, (m - k) as nat);
    assert(pm == pk * pd);
    let q = x as int / pm;
    lemma_fundamental_div_mod(x as int, pm);
    assert(x as int == pm * q);
    assert(pm * q == (pk * pd) * q);
    lemma_mul_is_associative(pk, pd, q);
    assert(x as int == pk * (pd * q));
    lemma_mul_is_commutative(pk, pd * q);
    lemma_mod_multiples_basic(pd * q, pk);
    assert(((pd * q) * pk) % pk == 0);
}

/// The sum of two addresses aligned to 2^k is aligned to 2^k.
pub proof fn lemma_aligned_add(x: u64, y: u64, k: u64)
    requires
        k < 64,
        x % bit64(k) == 0,
        y % bit64(k) == 0,
        x + y <= u64::MAX,
    ensures
        ((x + y) as u64) % bit64(k) == 0,
{
    let pk = pow2(k as nat) as int;
    lemma_u64_pow2_no_overflow(k as nat);
    lemma_add_mod_noop(x as int, y as int, pk);
    lemma_small_mod(0nat, pow2(k as nat));
    assert((x + y) % pk == ((x as int % pk) + (y as int % pk)) % pk);
    assert(((x + y) as u64) as int == x + y);
}

/// A power of two is aligned to every power of two not above it.
pub proof fn lemma_pow2_aligned(e: u64, k: u64)
    requires
        k <= e < 64,
    ensures
        bit64(e) % bit64(k) == 0,
{
    lemma_u64_pow2_no_overflow(e as nat);
    lemma_mod_self_0(pow2(e as nat) as int);
    lemma_aligned_weaken(bit64(e), e, k);
}

/// The machine-width remainder agrees with the mathematical one.
proof fn lemma_mod_u64_int(x: u64, p: u64)
    requires
        p > 0,
    ensures
        (x % p) as int == (x as int) % (p as int),
{
}

/// Two distinct multiples of `p` lie at least `p` apart.
pub proof fn lemma_multiple_gap(a: int, b: int, p: int)
    requires
        0 < p,
        a % p == 0,
        b % p == 0,
        a < b,
    ensures
        a + p <= b,
{
    let d = b - a;
    lemma_sub_mod_noop_int(b, a, p);
    if d < p {
        lemma_small_mod(d as nat, p as nat);
    }
}

proof fn lemma_sub_mod_noop_int(b: int, a: int, p: int)
    requires
        0 < p,
        a % p == 0,
        b % p == 0,
    ensures
        (b - a) % p == 0,
{
    let qa = a / p;
    let qb = b / p;
    lemma_fundamental_div_mod(a, p);
    lemma_fundamental_div_mod(b, p);
    assert(b - a == p * qb - p * qa);
    vstd::arithmetic::mul::lemma_mul_is_distributive_sub(p, qb, qa);
    assert(b - a == p * (qb - qa));
    lemma_mul_is_commutative(p, qb - qa);
    lemma_mod_multiples_basic(qb - qa, p);
}

/// A multiple of 2^bits below the 48-bit ceiling plus one chunk stays at or
/// below the ceiling.
pub proof fn lemma_multiple_gap_pow2_48(a: int, bits: u64)
    requires
        bits < 48,
        a % (bit64(bits) as int) == 0,
        0 <= a,
    ensures
        a < 0x1_0000_0000_0000 ==> a + bit64(bits) <= 0x1_0000_0000_0000,
{
    lemma_u64_pow2_no_overflow(bits as nat);
    if a < 0x1_0000_0000_0000 {
        assert(0x1_0000_0000_0000int % (bit64(bits) as int) == 0) by {
            lemma2_to64_rest();
            assert(bit64(48) == 0x1_0000_0000_0000);
            lemma_mod_self_0(pow2(48) as int);
            lemma_aligned_weaken(0x1_0000_0000_0000u64, 48, bits);
        }
        lemma_multiple_gap(a, 0x1_0000_0000_0000int, bit64(bits) as int);
    }
}

/// Alignment at a larger power of two nests inside alignment at a smaller
/// one: rounding down moves at least as far, rounding up at least as far
/// the other way.
pub proof fn lemma_align_nesting(x: u64, k: u64, m: u64)
    requires
        k <= m < 64,
    ensures
        align_down64(x, m) <= align_down64(x, k),
        align_up64(x, k) <= align_up64(x, m),
        align_down64(x, m) % bit64(k) == 0,
        align_up64(x, m) % (bit64(k) as int) == 0,
{
    let pk = bit64(k) as int;
    let pm = bit64(m) as int;
    lemma_u64_pow2_no_overflow(k as nat);
    lemma_u64_pow2_no_overflow(m as nat);
    lemma_pow2_pos(k as nat);
    lemma_pow2_pos(m as nat);
    vstd::arithmetic::div_mod::lemma_mod_bound(x as int, pk);
    vstd::arithmetic::div_mod::lemma_mod_bound(x as int, pm);
    vstd::arithmetic::div_mod::lemma_mod_decreases(x as nat, bit64(k) as nat);
    vstd::arithmetic::div_mod::lemma_mod_decreases(x as nat, bit64(m) as nat);
    let dm = align_down64(x, m);
    let dk = align_down64(x, k);
    assert(dm % bit64(m) == 0) by {
        lemma_sub_mod_eq_zero(x as int, (x % bit64(m)) as int, pm);
        assert(dm == (x - (x % bit64(m))) as u64);
        assert(dm as int == x - (x % bit64(m)));
        assert((x - (x % bit64(m))) % pm == 0);
        lemma_mod_u64_int(dm, bit64(m));
    }
    lemma_aligned_weaken(dm, m, k);
    assert(dk % bit64(k) == 0) by {
        lemma_sub_mod_eq_zero(x as int, (x % bit64(k)) as int, pk);
        assert(dk as int == x - (x % bit64(k)));
        assert((x - (x % bit64(k))) % pk == 0);
        lemma_mod_u64_int(dk, bit64(k));
    }
    assert(dm <= dk) by {
        if dk < dm {
            lemma_multiple_gap(dk as int, dm as int, pk);
        }
    }
    let uk = align_up64(x, k);
    let um = align_up64(x, m);
    assert(um % pm == 0) by {
        if x % bit64(m) == 0 {
        } else {
            lemma_mod_self_0(pm);
            lemma_add_mod_noop((x - x % bit64(m)) as int, pm, pm);
            lemma_sub_mod_eq_zero(x as int, (x % bit64(m)) as int, pm);
            lemma_mod_twice((x - x % bit64(m)) as int, pm);
            lemma_small_mod(0nat, pm as nat);
        }
    }
    assert(um % pk == 0) by {
        let qm = um / pm;
        lemma_fundamental_div_mod(um, pm);
        assert(um == pm * qm);
        lemma_pow2_adds(k as nat, (m - k) as nat);
        assert(pm == pk * pow2((m - k) as nat));
        vstd::arithmetic::mul::lemma_mul_is_associative(pk, pow2((m - k) as nat) as int, qm);
        lemma_mul_is_commutative(pk, pow2((m - k) as nat) as int * qm);
        lemma_mod_multiples_basic(pow2((m - k) as nat) as int * qm, pk);
    }
    assert(uk % pk == 0) by {
        if x % bit64(k) == 0 {
        } else {
            lemma_mod_self_0(pk);
            lemma_add_mod_noop((x - x % bit64(k)) as int, pk, pk);
            lemma_sub_mod_eq_zero(x as int, (x % bit64(k)) as int, pk);
            lemma_mod_twice((x - x % bit64(k)) as int, pk);
            lemma_small_mod(0nat, pk as nat);
        }
    }
    assert(uk <= um) by {
        assert(uk < x + pk);
        assert(um >= x);
        if um < uk {
            lemma_multiple_gap(um, uk, pk);
        }
    }
}

/// The useful power-of-two values up to 2^63, made concrete.
pub proof fn lemma_bit64_values()
    ensures
        forall|b: u64| b < 64 ==> #[trigger] bit64(b) > 0,
        bit64(12) == 0x1000,
        bit64(21) == 0x20_0000,
        bit64(30) == 0x4000_0000,
        bit64(39) == 0x80_0000_0000,
{
    lemma2_to64();
    lemma2_to64_rest();
    assert forall|b: u64| b < 64 implies #[trigger] bit64(b) > 0 by {
        lemma_u64_pow2_no_overflow(b as nat);
    }
}

} // verus!
