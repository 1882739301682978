//! Who takes part in a shared project, and the connections they use.
use vstd::prelude::*;
use crate::clock::ReplicaId;

verus! {

pub type LegacyUserId = u64;

#[derive(Clone, Debug, PartialEq, Eq)]
pub struct Collaborator {
    pub replica_id: ReplicaId,
    pub user_id: LegacyUserId,
    pub is_host: bool,
    pub committer_name: Option<String>,
    pub committer_email: Option<String>,
}

#[derive(Clone, Copy, PartialEq, Eq, PartialOrd, Ord, Hash, Debug, Structural)]
pub struct ConnectionId {
    pub owner_id: u32,
    pub id: u32,
}

} // verus!
