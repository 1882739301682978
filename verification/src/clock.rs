//! Replica identifiers, Lamport timestamps and version vectors.
use vstd::prelude::*;
use vstd::string::StringExecFns;
use smallvec::SmallVec;
use crate::decimal::{decimal, push_decimal};

verus! {

/// A unique identifier for each distributed node.
#[derive(Clone, Copy, PartialEq, Eq, Hash, Structural, PartialOrd, Ord, Debug)]
pub struct ReplicaId(u16);

impl View for ReplicaId {
    type V = u16;

    closed spec fn view(&self) -> u16 {
        self.0
    }
}

impl ReplicaId {
    /// The replica with the number `id`.
    pub closed spec fn from_u16(id: u16) -> ReplicaId {
        ReplicaId(id)
    }

    /// The replica with the number `id` has that number.
    pub proof fn lemma_from_u16(id: u16)
        ensures
            Self::from_u16(id)@ == id,
    {
    }

    /// The local replica
    pub fn local() -> (r: ReplicaId)
        ensures
            r@ == 0,
    {
        ReplicaId(0)
    }

    /// The remote replica of the connected remote server.
    pub fn remote_server() -> (r: ReplicaId)
        ensures
            r@ == 1,
    {
        ReplicaId(1)
    }

    /// The agent's unique identifier.
    pub fn agent() -> (r: ReplicaId)
        ensures
            r@ == 2,
    {
        ReplicaId(2)
    }

    /// A local branch.
    pub fn local_branch() -> (r: ReplicaId)
        ensures
            r@ == 3,
    {
        ReplicaId(3)
    }

    /// The first collaborative replica ID, any replica equal or greater than this is a collaborative replica.
    pub fn first_collab_id() -> (r: ReplicaId)
        ensures
            r@ == 8,
    {
        ReplicaId(8)
    }

    pub fn new(id: u16) -> (r: Self)
        ensures
            r@ == id,
    {
        ReplicaId(id)
    }

    pub fn as_u16(&self) -> (r: u16)
        ensures
            r == self@,
    {
        self.0
    }

    pub fn is_remote(self) -> (r: bool)
        ensures
            r == (self@ == 1 || self@ >= 8),
    {
        self.0 == 1 || self.0 >= 8
    }
}

impl ReplicaId {
    /// Replicas with the same number are the same replica.
    pub proof fn lemma_view_injective(self, other: Self)
        ensures
            self@ == other@ ==> self == other,
    {
    }
}

impl Default for ReplicaId {
    fn default() -> (r: Self)
        ensures
            r@ == 0,
    {
        ReplicaId(0)
    }
}

/// How a replica is written in debug output: its role, or its number.
pub open spec fn replica_text(id: u16) -> Seq<char> {
    if id == 0 {
        seq!['<', 'l', 'o', 'c', 'a', 'l', '>']
    } else if id == 1 {
        seq!['<', 'r', 'e', 'm', 'o', 't', 'e', '>']
    } else if id == 2 {
        seq!['<', 'a', 'g', 'e', 'n', 't', '>']
    } else if id == 3 {
        seq!['<', 'b', 'r', 'a', 'n', 'c', 'h', '>']
    } else {
        decimal(id as nat)
    }
}

impl ReplicaId {
    /// Appends the debug text of this replica.
    fn write_debug(&self, s: &mut String)
        ensures
            final(s)@ == old(s)@ + replica_text(self@),
    {
        if self.0 == 0 {
            proof { reveal_strlit("<local>"); }
            s.append("<local>");
        } else if self.0 == 1 {
            proof { reveal_strlit("<remote>"); }
            s.append("<remote>");
        } else if self.0 == 2 {
            proof { reveal_strlit("<agent>"); }
            s.append("<agent>");
        } else if self.0 == 3 {
            proof { reveal_strlit("<branch>"); }
            s.append("<branch>");
        } else {
            push_decimal(s, self.0 as u32);
        }
    }

    /// The debug text of this replica: `<local>`, `<remote>`, `<agent>`, `<branch>`, or
    /// its number.
    pub fn debug_string(&self) -> (r: String)
        ensures
            r@ == replica_text(self@),
    {
        let mut s = String::new();
        self.write_debug(&mut s);
        proof {
            assert(Seq::<char>::empty() + replica_text(self@) =~= replica_text(self@));
        }
        s
    }
}

/// A [Lamport timestamp](https://en.wikipedia.org/wiki/Lamport_timestamp),
/// used to determine the ordering of events in the editor.
#[derive(Clone, Copy, PartialEq, Eq, Hash, Structural, Ord, Debug)]
pub struct Lamport {
    pub value: u32,
    pub replica_id: ReplicaId,
}

impl Lamport {
    /// The earliest timestamp.
    pub fn min_timestamp() -> (r: Self)
        ensures
            r.value == 0,
            r.replica_id@ == 0,
    {
        Lamport { replica_id: ReplicaId(0), value: 0 }
    }

    /// The latest timestamp.
    pub fn max_timestamp() -> (r: Self)
        ensures
            r.value == u32::MAX,
            r.replica_id@ == u16::MAX,
    {
        Lamport { replica_id: ReplicaId(u16::MAX), value: u32::MAX }
    }
}

/// How a timestamp is written in debug output.
pub open spec fn lamport_text(t: Lamport) -> Seq<char> {
    if t.value == u32::MAX && t.replica_id@ == u16::MAX {
        seq!['L', 'a', 'm', 'p', 'o', 'r', 't', ' ', '{', 'M', 'A', 'X', '}']
    } else if t.value == 0 && t.replica_id@ == 0 {
        seq!['L', 'a', 'm', 'p', 'o', 'r', 't', ' ', '{', 'M', 'I', 'N', '}']
    } else {
        seq!['L', 'a', 'm', 'p', 'o', 'r', 't', ' ', '{'] + replica_text(t.replica_id@) + seq![
            ':',
            ' ',
        ] + decimal(t.value as nat) + seq!['}']
    }
}

impl Lamport {
    /// The debug text of this timestamp: `Lamport {MAX}`, `Lamport {MIN}`, or the replica
    /// and the value.
    pub fn debug_string(&self) -> (r: String)
        ensures
            r@ == lamport_text(*self),
    {
        proof {
            reveal_strlit("Lamport {MAX}");
            reveal_strlit("Lamport {MIN}");
            reveal_strlit("Lamport {");
            reveal_strlit(": ");
            reveal_strlit("}");
        }
        if self.value == u32::MAX && self.replica_id.0 == u16::MAX {
            String::from_str("Lamport {MAX}")
        } else if self.value == 0 && self.replica_id.0 == 0 {
            String::from_str("Lamport {MIN}")
        } else {
            let mut s = String::from_str("Lamport {");
            self.replica_id.write_debug(&mut s);
            s.append(": ");
            push_decimal(&mut s, self.value);
            s.append("}");
            s
        }
    }
}

/// The sequence numbers of a version vector, held in a `smallvec::SmallVec` that keeps up
/// to four of them inline.
#[verifier::external_body]
#[derive(Hash, PartialEq, Eq, Debug)]
pub struct ReplicaSeqs {
    inner: SmallVec<[u32; 4]>,
}

/// The sequence numbers held, in order.
pub uninterp spec fn replica_seqs(v: ReplicaSeqs) -> Seq<u32>;

/// `SmallVec::new`: an empty vector.
#[verifier::external_body]
fn replica_seqs_new() -> (r: ReplicaSeqs)
    ensures
        replica_seqs(r) == Seq::<u32>::empty(),
{
    ReplicaSeqs { inner: SmallVec::new() }
}

/// `SmallVec::from_slice`: a vector holding a copy of the slice's elements.
#[verifier::external_body]
fn replica_seqs_from_slice(slice: &[u32]) -> (r: ReplicaSeqs)
    ensures
        replica_seqs(r) == slice@,
{
    ReplicaSeqs { inner: SmallVec::from_slice(slice) }
}

/// `SmallVec::as_slice`: the elements as a slice.
#[verifier::external_body]
fn replica_seqs_as_slice(v: &ReplicaSeqs) -> (r: &[u32])
    ensures
        r@ == replica_seqs(*v),
{
    v.inner.as_slice()
}

/// A [version vector](https://en.wikipedia.org/wiki/Version_vector): the highest sequence
/// number observed of each replica, indexed by replica id.
#[derive(Hash, Eq, PartialEq, Debug)]
pub struct Global {
    values: ReplicaSeqs,
}

impl View for Global {
    type V = Seq<u32>;

    closed spec fn view(&self) -> Seq<u32> {
        replica_seqs(self.values)
    }
}

impl Default for Global {
    fn default() -> (r: Self)
        ensures
            r@ == Seq::<u32>::empty(),
    {
        Global { values: replica_seqs_new() }
    }
}

impl Clone for Global {
    fn clone(&self) -> (r: Self)
        ensures
            r@ == self@,
    {
        Global { values: replica_seqs_from_slice(replica_seqs_as_slice(&self.values)) }
    }
}

/// `t` is the timestamp of the replica with index `i` at sequence number `v`.
pub open spec fn is_replica_timestamp(t: Lamport, i: int, v: u32) -> bool {
    t.value == v && t.replica_id@ == (i as u16)
}

/// How an entry of a version vector is written in debug output: nothing for a replica
/// not yet observed, else its replica and sequence number, after a comma unless it is
/// replica 0.
pub open spec fn global_entry_text(i: int, v: u32) -> Seq<char> {
    if v > 0 {
        (if (i as u16) > 0 {
            seq![',', ' ']
        } else {
            Seq::<char>::empty()
        }) + replica_text(i as u16) + seq![':', ' '] + decimal(v as nat)
    } else {
        Seq::<char>::empty()
    }
}

/// The debug text of the entries of a version vector.
pub open spec fn global_entries_text(values: Seq<u32>) -> Seq<char>
    decreases values.len(),
{
    if values.len() == 0 {
        Seq::empty()
    } else {
        global_entries_text(values.drop_last()) + global_entry_text(
            values.len() - 1,
            values.last(),
        )
    }
}

impl Global {
    /// Iterates all replicas observed by this global as well as any unobserved replicas whose ID is lower than the highest observed replica.
    pub fn iter(&self) -> (r: Vec<Lamport>)
        ensures
            r@.len() == self@.len(),
            forall|i: int| 0 <= i < r@.len() ==> is_replica_timestamp(#[trigger] r@[i], i, self@[i]),
    {
        let values = replica_seqs_as_slice(&self.values);
        let mut r: Vec<Lamport> = Vec::new();
        let mut i: usize = 0;
        while i < values.len()
            invariant
                values@ == self@,
                i <= values@.len(),
                r@.len() == i,
                forall|k: int| 0 <= k < i ==> is_replica_timestamp(#[trigger] r@[k], k, values@[k]),
            decreases values@.len() - i,
        {
            r.push(Lamport { replica_id: ReplicaId(i as u16), value: values[i] });
            i += 1;
        }
        r
    }

    /// The debug text of this version vector: `Global {`, the observed replicas with
    /// their sequence numbers, `}`.
    pub fn debug_string(&self) -> (r: String)
        ensures
            r@ == seq!['G', 'l', 'o', 'b', 'a', 'l', ' ', '{'] + global_entries_text(self@) + seq![
                '}',
            ],
    {
        proof {
            reveal_strlit("Global {");
            reveal_strlit(", ");
            reveal_strlit(": ");
            reveal_strlit("}");
        }
        let timestamps = self.iter();
        let mut s = String::from_str("Global {");
        let mut i: usize = 0;
        proof {
            assert(self@.subrange(0, 0) =~= Seq::<u32>::empty());
            assert(s@ =~= seq!['G', 'l', 'o', 'b', 'a', 'l', ' ', '{'] + global_entries_text(
                self@.subrange(0, 0),
            ));
        }
        while i < timestamps.len()
            invariant
                timestamps@.len() == self@.len(),
                forall|k: int|
                    0 <= k < timestamps@.len() ==> is_replica_timestamp(
                        #[trigger] timestamps@[k],
                        k,
                        self@[k],
                    ),
                i <= timestamps@.len(),
                s@ == seq!['G', 'l', 'o', 'b', 'a', 'l', ' ', '{'] + global_entries_text(
                    self@.subrange(0, i as int),
                ),
                ", "@ == seq![',', ' '],
                ": "@ == seq![':', ' '],
            decreases timestamps@.len() - i,
        {
            let t = timestamps[i];
            let ghost before = s@;
            if t.value > 0 {
                if t.replica_id.0 > 0 {
                    s.append(", ");
                }
                t.replica_id.write_debug(&mut s);
                s.append(": ");
                push_decimal(&mut s, t.value);
            }
            proof {
                let vs = self@.subrange(0, i + 1);
                assert(vs.drop_last() =~= self@.subrange(0, i as int));
                assert(vs.last() == self@[i as int]);
                assert(is_replica_timestamp(t, i as int, self@[i as int]));
                assert(s@ =~= before + global_entry_text(i as int, self@[i as int]));
            }
            i += 1;
        }
        s.append("}");
        proof {
            assert(self@.subrange(0, self@.len() as int) =~= self@);
        }
        s
    }
}

} // verus!
