//! Mapping-database nodes: the doubly-linked bookkeeping wrapped around
//! each stored capability, used to track capability derivations for later
//! revocation.
//!
//! The `next` link carries two flag bits in its low bits — bit 0 is
//! `revocable`, bit 1 is `first badged` — so the link is only ever read and
//! written through the accessors here, and a link value must have its low
//! two bits clear.
use vstd::prelude::*;

verus! {

/// The forward pointer encoded in a `next` word: the low two bits are
/// flags, never address bits.
pub open spec fn next_ptr_of(next: u64) -> u64 {
    next & !0x3u64
}

/// The `first badged` flag encoded in a `next` word.
pub open spec fn first_badged_of(next: u64) -> bool {
    next & 0x2u64 != 0
}

/// The `revocable` flag encoded in a `next` word.
pub open spec fn revocable_of(next: u64) -> bool {
    next & 0x1u64 != 0
}

/// A stored value together with its mapping-database linkage.
#[derive(Clone, Copy, PartialEq, Eq, Structural, Debug)]
pub struct MDBNode<T> {
    pub value: T,
    pub next: u64,
    pub prev: u64,
}

impl<T> MDBNode<T> {
    /// Wrap a value with empty linkage: no neighbours, no flags.
    pub fn new(value: T) -> (r: Self)
        ensures
            r.value == value,
            r.next == 0,
            r.prev == 0,
    {
        MDBNode { value, next: 0, prev: 0 }
    }

    /// The forward pointer, with the flag bits masked off.
    pub fn next(&self) -> (r: u64)
        ensures
            r == next_ptr_of(self.next),
    {
        self.next & !0x3
    }

    /// Replace the forward pointer, keeping the flag bits.
    pub fn set_next(&mut self, next: u64)
        requires
            next & 0x3u64 == 0,
        ensures
            final(self).next == old(self).next & 0x3u64 | next,
            next_ptr_of(final(self).next) == next,
            first_badged_of(final(self).next) == first_badged_of(old(self).next),
            revocable_of(final(self).next) == revocable_of(old(self).next),
            final(self).value == old(self).value,
            final(self).prev == old(self).prev,
    {
        proof {
            let o = self.next;
            assert(next & 0x3u64 == 0 ==> ((o & 0x3 | next) & !0x3u64 == next && ((o & 0x3
                | next) & 0x2u64) == (o & 0x2u64) && ((o & 0x3 | next) & 0x1u64) == (
            o & 0x1u64))) by (bit_vector);
        }
        self.next = self.next & 0x3 | next;
    }

    /// Set or clear the `first badged` flag, touching nothing else.
    pub fn set_first_badged(&mut self, first_badge: bool)
        ensures
            final(self).next == old(self).next & !0x2u64 | (if first_badge {
                0x2u64
            } else {
                0u64
            }),
            first_badged_of(final(self).next) == first_badge,
            revocable_of(final(self).next) == revocable_of(old(self).next),
            next_ptr_of(final(self).next) == next_ptr_of(old(self).next),
            final(self).value == old(self).value,
            final(self).prev == old(self).prev,
    {
        let b: u64 = if first_badge {
            0x2
        } else {
            0
        };
        proof {
            let o = self.next;
            assert((b == 0 || b == 0x2u64) ==> (((o & !0x2u64 | b) & 0x2u64 != 0) == (b
                == 0x2u64) && ((o & !0x2u64 | b) & 0x1u64) == (o & 0x1u64) && ((o & !0x2u64 | b)
                & !0x3u64) == (o & !0x3u64))) by (bit_vector);
        }
        self.next = self.next & !0x2 | b;
    }

    /// The `first badged` flag.
    pub fn first_badge(&self) -> (r: bool)
        ensures
            r == first_badged_of(self.next),
    {
        self.next & 0x2 != 0
    }

    /// Set or clear the `revocable` flag, touching nothing else.
    pub fn set_revocable(&mut self, revocable: bool)
        ensures
            final(self).next == old(self).next & !0x1u64 | (if revocable {
                0x1u64
            } else {
                0u64
            }),
            revocable_of(final(self).next) == revocable,
            first_badged_of(final(self).next) == first_badged_of(old(self).next),
            next_ptr_of(final(self).next) == next_ptr_of(old(self).next),
            final(self).value == old(self).value,
            final(self).prev == old(self).prev,
    {
        let b: u64 = if revocable {
            0x1
        } else {
            0
        };
        proof {
            let o = self.next;
            assert((b == 0 || b == 0x1u64) ==> (((o & !0x1u64 | b) & 0x1u64 != 0) == (b
                == 0x1u64) && ((o & !0x1u64 | b) & 0x2u64) == (o & 0x2u64) && ((o & !0x1u64 | b)
                & !0x3u64) == (o & !0x3u64))) by (bit_vector);
        }
        self.next = self.next & !0x1 | b;
    }

    /// The `revocable` flag.
    pub fn revocable(&self) -> (r: bool)
        ensures
            r == revocable_of(self.next),
    {
        self.next & 0x1 != 0
    }

    /// The backward pointer; it carries no flags.
    pub fn prev(&self) -> (r: u64)
        ensures
            r == self.prev,
    {
        self.prev
    }

    pub fn set_prev(&mut self, prev: u64)
        ensures
            final(self).prev == prev,
            final(self).next == old(self).next,
            final(self).value == old(self).value,
    {
        self.prev = prev;
    }
}

} // verus!
