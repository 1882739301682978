//! Edit operations of a replicated buffer and the keys that order them.
use vstd::prelude::*;
use std::collections::HashMap;
use std::ops::Range;
use std::sync::Arc;
use crate::clock::{Global, Lamport, ReplicaId};
use crate::lamport_order::lamport_lt;
use smallvec::SmallVec;

verus! {

#[derive(Clone, Copy, Debug, PartialEq, Structural)]
pub enum LineEnding {
    Unix,
    Windows,
}

/// An offset into the full text of a buffer, deleted text included.
#[derive(Copy, Clone, Debug, Default, PartialEq, Eq, PartialOrd, Ord, Hash, Structural)]
pub struct FullOffset(pub usize);

impl FullOffset {
    /// Moves the offset forward by `rhs`.
    pub fn add_assign(&mut self, rhs: usize)
        requires
            old(self).0 + rhs <= usize::MAX,
        ensures
            final(self).0 == old(self).0 + rhs,
    {
        self.0 = self.0 + rhs;
    }
}

/// `Range::clone`: a copy of the range (nothing is stated of it here).
pub assume_specification<Idx>[ <Range<Idx> as Clone>::clone ](range: &Range<Idx>) -> Range<Idx>
    where
        Idx: Clone,
;

#[derive(Clone, Debug, Default, Eq, PartialEq)]
pub struct Edit<D> {
    pub old: Range<D>,
    pub new: Range<D>,
}

/// Something that happened to a buffer, stamped with the time it happened.
pub trait Operation: Clone {
    /// The time the operation happened.
    spec fn timestamp(&self) -> Lamport;

    fn lamport_timestamp(&self) -> (r: Lamport)
        ensures
            r == self.timestamp(),
    ;
}

#[derive(Clone, Debug, Eq, PartialEq)]
pub struct EditOperation {
    pub timestamp: Lamport,
    pub version: Global,
    pub ranges: Vec<Range<FullOffset>>,
    pub new_text: Vec<Arc<str>>,
}

#[derive(Clone, Debug, Eq, PartialEq)]
pub struct UndoOperation {
    pub timestamp: Lamport,
    pub version: Global,
    pub counts: HashMap<Lamport, u32>,
}

#[derive(Clone, Debug, Eq, PartialEq)]
pub enum BufferOperation {
    Edit(EditOperation),
    Undo(UndoOperation),
}

/// The time an operation happened.
pub open spec fn operation_timestamp(op: BufferOperation) -> Lamport {
    match op {
        BufferOperation::Edit(edit) => edit.timestamp,
        BufferOperation::Undo(undo) => undo.timestamp,
    }
}

impl Operation for BufferOperation {
    open spec fn timestamp(&self) -> Lamport {
        operation_timestamp(*self)
    }

    fn lamport_timestamp(&self) -> (r: Lamport)
        ensures
            self matches BufferOperation::Edit(e) ==> r == e.timestamp,
            self matches BufferOperation::Undo(u) ==> r == u.timestamp,
    {
        match self {
            BufferOperation::Edit(edit) => edit.timestamp,
            BufferOperation::Undo(undo) => undo.timestamp,
        }
    }
}

/// An operation happened at the timestamp it carries: an edit's or an undo's own timestamp.
/// Two operations carrying the same timestamp happened at the same time.
pub proof fn operation_time_is_stored(op: BufferOperation, other: BufferOperation)
    ensures
        op matches BufferOperation::Edit(e) ==> op.timestamp() == e.timestamp,
        op matches BufferOperation::Undo(u) ==> op.timestamp() == u.timestamp,
        (op matches BufferOperation::Undo(u) && other matches BufferOperation::Undo(v)
            && u.timestamp == v.timestamp) ==> op.timestamp() == other.timestamp(),
        (op matches BufferOperation::Edit(e) && other matches BufferOperation::Undo(u)
            && e.timestamp == u.timestamp) ==> op.timestamp() == other.timestamp(),
{
}

/// The key of a queued operation: its timestamp.
#[derive(Clone, Copy, Debug, Eq, Ord, PartialEq, PartialOrd, Structural)]
pub struct OperationKey(pub Lamport);

impl OperationKey {
    pub fn new(timestamp: Lamport) -> (r: Self)
        ensures
            r.0 == timestamp,
    {
        Self(timestamp)
    }
}

/// What a run of queued operations sums to: the latest key and how many there are.
#[derive(Clone, Copy, Debug, Eq, PartialEq, Structural)]
pub struct OperationSummary {
    pub key: OperationKey,
    pub len: usize,
}

impl OperationSummary {
    /// The summary of no operations.
    pub fn zero() -> (r: Self)
        ensures
            r.key.0.value == 0,
            r.key.0.replica_id@ == 0,
            r.len == 0,
    {
        OperationSummary { key: OperationKey::new(Lamport::min_timestamp()), len: 0 }
    }

    /// Appends the summary of later operations, whose key must be later.
    pub fn add_summary(&mut self, other: &Self)
        requires
            lamport_lt(old(self).key.0, other.key.0),
            old(self).len + other.len <= usize::MAX,
        ensures
            final(self).key == other.key,
            final(self).len == old(self).len + other.len,
    {
        self.key = other.key;
        self.len = self.len + other.len;
    }
}

/// One queued operation.
#[derive(Clone, Debug)]
pub struct OperationItem<T>(pub T);

impl<T: Operation> OperationItem<T> {
    /// A single operation sums to its own key and a count of one.
    pub fn summary(&self) -> (r: OperationSummary)
        ensures
            r.key.0 == self.0.timestamp(),
            r.len == 1,
    {
        OperationSummary { key: OperationKey::new(self.0.lamport_timestamp()), len: 1 }
    }
}

/// Where a piece of an insertion lies: the insertion's timestamp and the offset it was
/// split at.
#[derive(Clone, Copy, Debug, PartialEq, Eq, Structural)]
pub struct InsertionFragmentKey {
    pub timestamp: Lamport,
    pub split_offset: u32,
}

impl InsertionFragmentKey {
    pub fn zero() -> (r: Self)
        ensures
            r.timestamp.value == 0,
            r.timestamp.replica_id@ == 0,
            r.split_offset == 0,
    {
        InsertionFragmentKey { timestamp: Lamport::min_timestamp(), split_offset: 0 }
    }

    /// A run of pieces sums to the key of its last piece.
    pub fn add_summary(&mut self, summary: &Self)
        ensures
            *final(self) == *summary,
    {
        *self = *summary;
    }
}

/// How much text a run of fragments holds, visible and deleted.
#[derive(Copy, Default, Clone, Debug, PartialEq, Eq, Structural)]
pub struct FragmentTextSummary {
    pub visible: usize,
    pub deleted: usize,
}

/// An identifier for a position in an ordered collection: a sequence of digits held in a
/// `smallvec::SmallVec` that keeps up to two of them inline.
#[verifier::external_body]
#[derive(Debug, PartialEq, Eq, PartialOrd, Ord, Hash)]
pub struct Locator(SmallVec<[u64; 2]>);

/// The digits of a locator, in order.
pub uninterp spec fn locator_digits(l: Locator) -> Seq<u64>;

/// `SmallVec::from_slice`: a vector holding a copy of the slice's elements.
#[verifier::external_body]
fn locator_from_slice(digits: &[u64]) -> (r: Locator)
    ensures
        locator_digits(r) == digits@,
{
    Locator(SmallVec::from_slice(digits))
}

/// `SmallVec::as_slice`: the elements as a slice.
#[verifier::external_body]
fn locator_as_slice(l: &Locator) -> (r: &[u64])
    ensures
        r@ == locator_digits(*l),
{
    l.0.as_slice()
}

impl Locator {
    /// The locator before every other.
    pub fn min() -> (r: Self)
        ensures
            locator_digits(r) == seq![u64::MIN],
    {
        let digits = [u64::MIN];
        proof {
            assert(digits@ =~= seq![u64::MIN]);
        }
        locator_from_slice(digits.as_slice())
    }

    /// The locator after every other.
    pub fn max() -> (r: Self)
        ensures
            locator_digits(r) == seq![u64::MAX],
    {
        let digits = [u64::MAX];
        proof {
            assert(digits@ =~= seq![u64::MAX]);
        }
        locator_from_slice(digits.as_slice())
    }

    /// The locator with the given digits.
    pub fn from_digits(digits: &[u64]) -> (r: Self)
        ensures
            locator_digits(r) == digits@,
    {
        locator_from_slice(digits)
    }

    /// The digits of the locator.
    pub fn digits(&self) -> (r: &[u64])
        ensures
            r@ == locator_digits(*self),
    {
        locator_as_slice(self)
    }
}

impl Clone for Locator {
    fn clone(&self) -> (r: Self)
        ensures
            locator_digits(r) == locator_digits(*self),
    {
        locator_from_slice(locator_as_slice(self))
    }
}

/// A piece of an insertion, and the fragment that holds it.
#[derive(Eq, PartialEq, Clone, Debug)]
pub struct InsertionFragment {
    pub timestamp: Lamport,
    pub split_offset: u32,
    pub fragment_id: Locator,
}

impl InsertionFragment {
    /// A piece sums to its key.
    pub fn summary(&self) -> (r: InsertionFragmentKey)
        ensures
            r.timestamp == self.timestamp,
            r.split_offset == self.split_offset,
    {
        InsertionFragmentKey { timestamp: self.timestamp, split_offset: self.split_offset }
    }

    /// The key a piece is found by: its insertion's timestamp and its split offset.
    pub fn key(&self) -> (r: InsertionFragmentKey)
        ensures
            r.timestamp == self.timestamp,
            r.split_offset == self.split_offset,
    {
        self.summary()
    }
}

} // verus!
