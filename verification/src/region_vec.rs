//! The bounded region lists of the free-memory registry, backed by
//! `arrayvec::ArrayVec`: a vector of fixed capacity that stores its
//! elements inline.
//!
//! The two list types used by the registry are declared here together with
//! their mathematical contents — a sequence of `(start, end)` raw address
//! pairs — and small trusted wrappers around the `ArrayVec` methods the
//! registry calls. Everything downstream is verified against these
//! contracts.
use crate::addr::{KVirtRegion, PhysRegion};
use crate::consts::{MAX_NUM_FREEMEM_REG, MAX_NUM_RESV_REG};
use arrayvec::ArrayVec;
use vstd::prelude::*;

verus! {

#[verifier::external_type_specification]
#[verifier::external_body]
#[verifier::reject_recursive_types(T)]
pub struct ExArrayVec<T, const CAP: usize>(ArrayVec<T, CAP>);

/// The contents of a reserved-region list, as `(start, end)` raw physical
/// addresses, first element first.
pub uninterp spec fn resv_model(v: ArrayVec<PhysRegion, MAX_NUM_RESV_REG>) -> Seq<(u64, u64)>;

/// The contents of a free-region list, as `(start, end)` raw kernel-window
/// addresses, first element first.
pub uninterp spec fn free_model(v: ArrayVec<KVirtRegion, MAX_NUM_FREEMEM_REG>) -> Seq<(u64, u64)>;

/// Relies on ArrayVec::new: a new vector is empty.
#[verifier::external_body]
pub fn resv_new() -> (r: ArrayVec<PhysRegion, MAX_NUM_RESV_REG>)
    ensures
        resv_model(r) == Seq::<(u64, u64)>::empty(),
{
    ArrayVec::new()
}

/// Relies on ArrayVec::len: the number of stored elements.
#[verifier::external_body]
pub fn resv_len(v: &ArrayVec<PhysRegion, MAX_NUM_RESV_REG>) -> (r: usize)
    ensures
        r == resv_model(*v).len(),
{
    v.len()
}

/// Relies on ArrayVec's `Index` impl (through its slice view): the element
/// at `i`.
#[verifier::external_body]
pub fn resv_get(v: &ArrayVec<PhysRegion, MAX_NUM_RESV_REG>, i: usize) -> (r: PhysRegion)
    requires
        i < resv_model(*v).len(),
    ensures
        (r.start.0, r.end.0) == resv_model(*v)[i as int],
{
    v[i]
}

/// Relies on ArrayVec's `IndexMut` impl (through its slice view): replaces
/// the element at `i` and nothing else.
#[verifier::external_body]
pub fn resv_set(v: &mut ArrayVec<PhysRegion, MAX_NUM_RESV_REG>, i: usize, val: PhysRegion)
    requires
        i < resv_model(*old(v)).len(),
    ensures
        resv_model(*final(v)) == resv_model(*old(v)).update(i as int, (val.start.0, val.end.0)),
{
    v[i] = val;
}

/// Relies on ArrayVec::push: appends at the end; panics only on a full
/// vector, which the precondition rules out.
#[verifier::external_body]
pub fn resv_push(v: &mut ArrayVec<PhysRegion, MAX_NUM_RESV_REG>, val: PhysRegion)
    requires
        resv_model(*old(v)).len() < MAX_NUM_RESV_REG,
    ensures
        resv_model(*final(v)) == resv_model(*old(v)).push((val.start.0, val.end.0)),
{
    v.push(val);
}

/// Relies on ArrayVec::insert: inserts at `i`, shifting later elements up;
/// panics only on a full vector or `i` beyond the end, which the
/// preconditions rule out.
#[verifier::external_body]
pub fn resv_insert(v: &mut ArrayVec<PhysRegion, MAX_NUM_RESV_REG>, i: usize, val: PhysRegion)
    requires
        i <= resv_model(*old(v)).len(),
        resv_model(*old(v)).len() < MAX_NUM_RESV_REG,
    ensures
        resv_model(*final(v)) == resv_model(*old(v)).insert(i as int, (val.start.0, val.end.0)),
{
    v.insert(i, val);
}

/// Relies on ArrayVec::remove: removes the element at `i`, shifting later
/// elements down; panics only on `i` out of bounds, which the precondition
/// rules out.
#[verifier::external_body]
pub fn resv_remove(v: &mut ArrayVec<PhysRegion, MAX_NUM_RESV_REG>, i: usize) -> (r: PhysRegion)
    requires
        i < resv_model(*old(v)).len(),
    ensures
        resv_model(*final(v)) == resv_model(*old(v)).remove(i as int),
        (r.start.0, r.end.0) == resv_model(*old(v))[i as int],
{
    v.remove(i)
}

/// Relies on ArrayVec::new: a new vector is empty.
#[verifier::external_body]
pub fn free_new() -> (r: ArrayVec<KVirtRegion, MAX_NUM_FREEMEM_REG>)
    ensures
        free_model(r) == Seq::<(u64, u64)>::empty(),
{
    ArrayVec::new()
}

/// Relies on ArrayVec::len: the number of stored elements.
#[verifier::external_body]
pub fn free_len(v: &ArrayVec<KVirtRegion, MAX_NUM_FREEMEM_REG>) -> (r: usize)
    ensures
        r == free_model(*v).len(),
{
    v.len()
}

/// Relies on ArrayVec's `Index` impl (through its slice view): the element
/// at `i`.
#[verifier::external_body]
pub fn free_get(v: &ArrayVec<KVirtRegion, MAX_NUM_FREEMEM_REG>, i: usize) -> (r: KVirtRegion)
    requires
        i < free_model(*v).len(),
    ensures
        (r.start.0, r.end.0) == free_model(*v)[i as int],
{
    v[i]
}

/// Relies on ArrayVec's `IndexMut` impl (through its slice view): replaces
/// the element at `i` and nothing else.
#[verifier::external_body]
pub fn free_set(v: &mut ArrayVec<KVirtRegion, MAX_NUM_FREEMEM_REG>, i: usize, val: KVirtRegion)
    requires
        i < free_model(*old(v)).len(),
    ensures
        free_model(*final(v)) == free_model(*old(v)).update(i as int, (val.start.0, val.end.0)),
{
    v[i] = val;
}

/// Relies on ArrayVec::push: appends at the end; panics only on a full
/// vector, which the precondition rules out.
#[verifier::external_body]
pub fn free_push(v: &mut ArrayVec<KVirtRegion, MAX_NUM_FREEMEM_REG>, val: KVirtRegion)
    requires
        free_model(*old(v)).len() < MAX_NUM_FREEMEM_REG,
    ensures
        free_model(*final(v)) == free_model(*old(v)).push((val.start.0, val.end.0)),
{
    v.push(val);
}

/// Relies on ArrayVec::insert: inserts at `i`, shifting later elements up;
/// panics only on a full vector or `i` beyond the end, which the
/// preconditions rule out.
#[verifier::external_body]
pub fn free_insert(v: &mut ArrayVec<KVirtRegion, MAX_NUM_FREEMEM_REG>, i: usize, val: KVirtRegion)
    requires
        i <= free_model(*old(v)).len(),
        free_model(*old(v)).len() < MAX_NUM_FREEMEM_REG,
    ensures
        free_model(*final(v)) == free_model(*old(v)).insert(i as int, (val.start.0, val.end.0)),
{
    v.insert(i, val);
}

} // verus!
