//! The order of Lamport timestamps: by value, ties broken by replica id.
use vstd::prelude::*;
use vstd::std_specs::cmp::PartialOrdSpecImpl;
use core::cmp::Ordering;
use crate::clock::Lamport;

verus! {

/// `a` happened before `b`: a lower value, or the same value and a lower replica id.
pub open spec fn lamport_lt(a: Lamport, b: Lamport) -> bool {
    a.value < b.value || (a.value == b.value && a.replica_id@ < b.replica_id@)
}

impl PartialOrd for Lamport {
    fn partial_cmp(&self, other: &Self) -> (r: Option<Ordering>) {
        if self.value < other.value {
            Some(Ordering::Less)
        } else if self.value > other.value {
            Some(Ordering::Greater)
        } else if self.replica_id.as_u16() < other.replica_id.as_u16() {
            Some(Ordering::Less)
        } else if self.replica_id.as_u16() > other.replica_id.as_u16() {
            Some(Ordering::Greater)
        } else {
            Some(Ordering::Equal)
        }
    }
}

impl PartialOrdSpecImpl for Lamport {
    open spec fn obeys_partial_cmp_spec() -> bool {
        true
    }

    open spec fn partial_cmp_spec(&self, other: &Self) -> Option<Ordering> {
        if lamport_lt(*self, *other) {
            Some(Ordering::Less)
        } else if lamport_lt(*other, *self) {
            Some(Ordering::Greater)
        } else {
            Some(Ordering::Equal)
        }
    }
}

/// Timestamps are totally ordered: of two timestamps exactly one is earlier, unless they
/// are equal, and the order is transitive.
pub proof fn lamport_order_is_total(a: Lamport, b: Lamport, c: Lamport)
    ensures
        a == b || lamport_lt(a, b) || lamport_lt(b, a),
        !(lamport_lt(a, b) && lamport_lt(b, a)),
        !lamport_lt(a, a),
        lamport_lt(a, b) && lamport_lt(b, c) ==> lamport_lt(a, c),
{
    if a.value == b.value && a.replica_id@ == b.replica_id@ {
        a.replica_id.lemma_view_injective(b.replica_id);
    }
}

/// The earliest timestamp comes before every other and the latest after every other.
pub proof fn lamport_min_max_bound(min: Lamport, max: Lamport, t: Lamport)
    requires
        min.value == 0 && min.replica_id@ == 0,
        max.value == u32::MAX && max.replica_id@ == u16::MAX,
    ensures
        t == min || lamport_lt(min, t),
        t == max || lamport_lt(t, max),
{
    if t.value == 0 && t.replica_id@ == 0 {
        t.replica_id.lemma_view_injective(min.replica_id);
    }
    if t.value == u32::MAX && t.replica_id@ == u16::MAX {
        t.replica_id.lemma_view_injective(max.replica_id);
    }
}

} // verus!
