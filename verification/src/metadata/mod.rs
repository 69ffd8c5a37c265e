//! Filesystem metadata: the inode graph, the chunk reference counts and the
//! key schema under which they are persisted.

pub mod codec;
pub mod hardlinks;
pub mod inode;
pub mod store;
pub mod xattr;

pub use hardlinks::HardLinkStore;
pub use inode::{FileType, Inode, InodeAttributes};
pub use store::{FsStats, MetadataStore};
pub use xattr::XattrStore;
