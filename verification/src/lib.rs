//! Storage engine of an encrypted, content-addressed, cloud-backed filesystem.
//!
//! Files are cut into chunks, each chunk is compressed, encrypted and
//! identified by the hash of what is stored, and optionally striped with
//! Reed-Solomon parity over several remote accounts. A local cache tracks the
//! hot chunks with an LRU policy.

pub mod bytes;
pub mod cache;
pub mod chunk;
mod clock;
pub mod codec;
pub mod config;
pub mod crypto;
pub mod distributed;
pub mod error;
pub mod metadata;
pub mod raid;
pub mod snapshot;
pub mod storage;
pub mod table;
pub mod telegram;

pub use config::Config;
pub use error::{Error, Result};
