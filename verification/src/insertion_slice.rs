//! Slices of insertions, ordered by the edit that made them.
use vstd::prelude::*;
use core::cmp::Ordering;
use std::ops::Range;
use crate::clock::{Lamport, ReplicaId};
use crate::lamport_order::{lamport_lt, lamport_order_is_total};

verus! {

/// The part `range` of the insertion `insertion_id` that the edit `edit_id` touched, with
/// the two timestamps held inline.
#[derive(Clone, Debug, Eq, PartialEq)]
pub struct InsertionSlice {
    pub edit_id_value: u32,
    pub edit_id_replica_id: ReplicaId,
    pub insertion_id_value: u32,
    pub insertion_id_replica_id: ReplicaId,
    pub range: Range<u32>,
}

/// The timestamp of the edit.
pub open spec fn slice_edit_id(s: InsertionSlice) -> Lamport {
    Lamport { value: s.edit_id_value, replica_id: s.edit_id_replica_id }
}

/// The timestamp of the insertion.
pub open spec fn slice_insertion_id(s: InsertionSlice) -> Lamport {
    Lamport { value: s.insertion_id_value, replica_id: s.insertion_id_replica_id }
}

/// `a` comes before `b`: by edit, then by insertion, then by the start and the end of
/// the range.
pub open spec fn slice_lt(a: InsertionSlice, b: InsertionSlice) -> bool {
    let (ea, eb) = (slice_edit_id(a), slice_edit_id(b));
    let (ia, ib) = (slice_insertion_id(a), slice_insertion_id(b));
    ||| lamport_lt(ea, eb)
    ||| (ea == eb && lamport_lt(ia, ib))
    ||| (ea == eb && ia == ib && a.range.start < b.range.start)
    ||| (ea == eb && ia == ib && a.range.start == b.range.start && a.range.end < b.range.end)
}

/// The same position in the order: every field the order reads is equal.
pub open spec fn slice_same(a: InsertionSlice, b: InsertionSlice) -> bool {
    &&& slice_edit_id(a) == slice_edit_id(b)
    &&& slice_insertion_id(a) == slice_insertion_id(b)
    &&& a.range.start == b.range.start
    &&& a.range.end == b.range.end
}

/// Slices are totally ordered by what the order reads: of two slices exactly one comes
/// first unless they read the same, and the order is transitive.
pub proof fn slice_order_is_total(a: InsertionSlice, b: InsertionSlice, c: InsertionSlice)
    ensures
        slice_lt(a, b) || slice_same(a, b) || slice_lt(b, a),
        !(slice_lt(a, b) && slice_lt(b, a)),
        !(slice_lt(a, b) && slice_same(a, b)),
        slice_lt(a, b) && slice_lt(b, c) ==> slice_lt(a, c),
{
    lamport_order_is_total(slice_edit_id(a), slice_edit_id(b), slice_edit_id(c));
    lamport_order_is_total(slice_insertion_id(a), slice_insertion_id(b), slice_insertion_id(c));
    lamport_order_is_total(slice_edit_id(b), slice_edit_id(a), slice_edit_id(c));
    lamport_order_is_total(slice_insertion_id(b), slice_insertion_id(a), slice_insertion_id(c));
}

fn cmp_lamport(a: Lamport, b: Lamport) -> (r: Ordering)
    ensures
        r == Ordering::Less <==> lamport_lt(a, b),
        r == Ordering::Greater <==> lamport_lt(b, a),
        r == Ordering::Equal <==> a == b,
{
    if a.value < b.value {
        Ordering::Less
    } else if a.value > b.value {
        Ordering::Greater
    } else if a.replica_id.as_u16() < b.replica_id.as_u16() {
        Ordering::Less
    } else if a.replica_id.as_u16() > b.replica_id.as_u16() {
        Ordering::Greater
    } else {
        proof {
            a.replica_id.lemma_view_injective(b.replica_id);
        }
        Ordering::Equal
    }
}

fn cmp_u32(a: u32, b: u32) -> (r: Ordering)
    ensures
        r == Ordering::Less <==> a < b,
        r == Ordering::Greater <==> a > b,
        r == Ordering::Equal <==> a == b,
{
    if a < b {
        Ordering::Less
    } else if a > b {
        Ordering::Greater
    } else {
        Ordering::Equal
    }
}

impl InsertionSlice {
    /// Compares by edit, then by insertion, then by the start and the end of the range.
    pub fn cmp(&self, other: &Self) -> (r: Ordering)
        ensures
            r == Ordering::Less <==> slice_lt(*self, *other),
            r == Ordering::Greater <==> slice_lt(*other, *self),
            r == Ordering::Equal <==> slice_same(*self, *other),
    {
        let edit = cmp_lamport(
            Lamport { value: self.edit_id_value, replica_id: self.edit_id_replica_id },
            Lamport { value: other.edit_id_value, replica_id: other.edit_id_replica_id },
        );
        match edit {
            Ordering::Equal => {},
            _ => {
                return edit;
            },
        }
        let insertion = cmp_lamport(
            Lamport { value: self.insertion_id_value, replica_id: self.insertion_id_replica_id },
            Lamport { value: other.insertion_id_value, replica_id: other.insertion_id_replica_id },
        );
        match insertion {
            Ordering::Equal => {},
            _ => {
                return insertion;
            },
        }
        let start = cmp_u32(self.range.start, other.range.start);
        match start {
            Ordering::Equal => {},
            _ => {
                return start;
            },
        }
        cmp_u32(self.range.end, other.range.end)
    }
}

} // verus!
