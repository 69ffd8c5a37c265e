//! Types of the distribution modes: permissions and replication roles.

pub mod replication;
pub mod types;

pub use replication::ReplicationRole;
pub use types::Permissions;
