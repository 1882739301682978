//! Anchors: positions in a buffer that stay attached to the text around them as the
//! buffer is edited.
use vstd::prelude::*;
use crate::clock::{Lamport, ReplicaId};

verus! {

/// Which side of a position an anchor, or a search for a position, leans to.
#[derive(Copy, Clone, Debug, Default, Eq, Hash, PartialEq, PartialOrd, Ord, Structural)]
pub enum Bias {
    #[default]
    Left,
    Right,
}

/// The identifier of a buffer, never zero.
#[derive(Copy, Clone, Debug, Hash, PartialEq, Eq, PartialOrd, Ord, Structural)]
pub struct BufferId(u64);

impl View for BufferId {
    type V = u64;

    closed spec fn view(&self) -> u64 {
        self.0
    }
}

impl BufferId {
    #[verifier::type_invariant]
    closed spec fn nonzero(self) -> bool {
        self.0 != 0
    }

    /// The identifier `id`, or `None` for zero.
    pub fn new(id: u64) -> (r: Option<Self>)
        ensures
            r matches Some(b) ==> b@ == id,
            r is None <==> id == 0,
    {
        if id == 0 {
            None
        } else {
            Some(BufferId(id))
        }
    }

    /// The identifier as a number.
    pub fn to_u64(&self) -> (r: u64)
        ensures
            r == self@,
            r != 0,
    {
        proof {
            use_type_invariant(self);
        }
        self.0
    }
}

/// A position in a buffer: an offset into the text of the insertion with the given
/// timestamp, leaning to one side. Two anchors stand for the start and the end of every
/// buffer.
#[derive(Copy, Clone, Debug, PartialEq, Eq, Hash, Structural)]
pub struct Anchor {
    pub timestamp: Lamport,
    /// The offset into the insertion's text.
    pub offset: u32,
    pub bias: Bias,
    pub buffer_id: BufferId,
}

/// Whether the anchor stands for the start of its buffer.
pub open spec fn anchor_is_min(a: Anchor) -> bool {
    &&& a.timestamp.value == 0
    &&& a.timestamp.replica_id@ == 0
    &&& a.offset == 0
    &&& a.bias is Left
}

/// Whether the anchor stands for the end of its buffer.
pub open spec fn anchor_is_max(a: Anchor) -> bool {
    &&& a.timestamp.value == u32::MAX
    &&& a.timestamp.replica_id@ == u16::MAX
    &&& a.offset == u32::MAX
    &&& a.bias is Right
}

/// The anchor at the start of the buffer `buffer_id`.
pub open spec fn min_anchor(buffer_id: BufferId) -> Anchor {
    Anchor {
        timestamp: Lamport { value: 0, replica_id: ReplicaId::from_u16(0) },
        offset: 0,
        bias: Bias::Left,
        buffer_id,
    }
}

/// The anchor at the end of the buffer `buffer_id`.
pub open spec fn max_anchor(buffer_id: BufferId) -> Anchor {
    Anchor {
        timestamp: Lamport { value: u32::MAX, replica_id: ReplicaId::from_u16(u16::MAX) },
        offset: u32::MAX,
        bias: Bias::Right,
        buffer_id,
    }
}

impl Anchor {
    /// The anchor at the start of the buffer `buffer_id`.
    pub fn min_for_buffer(buffer_id: BufferId) -> (r: Self)
        ensures
            r == min_anchor(buffer_id),
            anchor_is_min(r),
    {
        let t = Lamport::min_timestamp();
        proof {
            ReplicaId::lemma_from_u16(0);
            t.replica_id.lemma_view_injective(ReplicaId::from_u16(0));
        }
        Anchor { timestamp: t, offset: 0, bias: Bias::Left, buffer_id }
    }

    /// The anchor at the end of the buffer `buffer_id`.
    pub fn max_for_buffer(buffer_id: BufferId) -> (r: Self)
        ensures
            r == max_anchor(buffer_id),
            anchor_is_max(r),
    {
        let t = Lamport::max_timestamp();
        proof {
            ReplicaId::lemma_from_u16(u16::MAX);
            t.replica_id.lemma_view_injective(ReplicaId::from_u16(u16::MAX));
        }
        Anchor { timestamp: t, offset: u32::MAX, bias: Bias::Right, buffer_id }
    }

    /// The timestamp of the insertion the anchor lies in.
    pub fn timestamp(&self) -> (r: Lamport)
        ensures
            r == self.timestamp,
    {
        self.timestamp
    }

    /// Whether the anchor stands for the start of its buffer.
    pub fn is_min(&self) -> (r: bool)
        ensures
            r == anchor_is_min(*self),
    {
        self.timestamp.value == 0 && self.timestamp.replica_id.as_u16() == 0 && self.offset == 0
            && self.bias == Bias::Left
    }

    /// Whether the anchor stands for the end of its buffer.
    pub fn is_max(&self) -> (r: bool)
        ensures
            r == anchor_is_max(*self),
    {
        self.timestamp.value == u32::MAX && self.timestamp.replica_id.as_u16() == u16::MAX
            && self.offset == u32::MAX && self.bias == Bias::Right
    }
}

} // verus!
