//! Replication roles.

use vstd::prelude::*;

verus! {

/// Replication role for a machine.
#[derive(Debug, Clone, Copy, PartialEq, Eq, Structural)]
pub enum ReplicationRole {
    /// Master node: can write and creates snapshots.
    Master,
    /// Replica node: read-only, syncs from master.
    Replica,
}

impl ReplicationRole {
    /// Check if this role can write.
    pub fn can_write(&self) -> (r: bool)
        ensures
            r == (*self == ReplicationRole::Master),
    {
        match self {
            ReplicationRole::Master => true,
            ReplicationRole::Replica => false,
        }
    }

    /// Check if this role is a replica.
    pub fn is_replica(&self) -> (r: bool)
        ensures
            r == (*self == ReplicationRole::Replica),
    {
        match self {
            ReplicationRole::Master => false,
            ReplicationRole::Replica => true,
        }
    }
}

} // verus!
