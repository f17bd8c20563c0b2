//! Tool support for making and verifying checksums of directory trees.
//!
//! The library carries the logic of the tool: the algorithm table, the
//! depth policy of the directory walk, the hash-store collection, its
//! on-disk text format, the reconciliation of two stores, and the mapping
//! of an outcome to an exit status.  Byte-level digests are delegated to
//! the crates that implement them.

pub mod algorithms;
pub mod error;
pub mod hashing;
pub mod ops;
pub mod options;
pub mod store;
pub mod util;

pub use algorithms::Algorithm;
pub use error::Error;
pub use hashing::{hash_reader, hash_string};
pub use options::{DepthSetting, Options};
pub use store::HashStore;
