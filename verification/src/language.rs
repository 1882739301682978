//! What a buffer may do with its text, where its file stands on disk, and the
//! identifiers of running language servers.
use vstd::prelude::*;
use crate::file_system::MTime;

verus! {

#[derive(PartialEq, Clone, Copy, Debug, Structural)]
pub enum Capability {
    ReadWrite,
    Read,
    ReadOnly,
}

impl Capability {
    /// Only a read-write buffer can be edited.
    pub fn editable(self) -> (r: bool)
        ensures
            r == (self == Capability::ReadWrite),
    {
        matches!(self, Capability::ReadWrite)
    }
}

#[derive(Copy, Clone, Debug, PartialEq)]
pub enum DiskState {
    New,
    Present { mtime: MTime, size: u64 },
    Deleted,
    Historic { was_deleted: bool },
}

/// Identifies a running language server.
#[derive(Copy, Clone, Debug, PartialEq, Eq, PartialOrd, Ord, Hash, Structural)]
pub struct LanguageServerId(pub usize);

impl LanguageServerId {
    /// The identifier a protocol message carries, as a `usize`.
    pub fn from_proto(id: u64) -> (r: Self)
        ensures
            r.0 == id as usize,
    {
        Self(id as usize)
    }

    /// The identifier as a protocol message carries it.
    pub fn to_proto(self) -> (r: u64)
        ensures
            r == self.0 as u64,
    {
        self.0 as u64
    }
}

/// An identifier survives the trip to a protocol message and back; a protocol identifier
/// survives the trip back and forth whenever it fits a `usize`.
pub proof fn server_id_round_trip(id: LanguageServerId, proto: u64)
    ensures
        (id.0 as u64) as usize == id.0,
        proto <= usize::MAX ==> (proto as usize) as u64 == proto,
{
}

} // verus!
