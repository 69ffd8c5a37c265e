//! Point-in-time snapshots of the inode set.

pub mod codec;
pub mod snapshot;

pub use snapshot::{Snapshot, SnapshotManager};
