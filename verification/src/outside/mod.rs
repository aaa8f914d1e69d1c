//! The outside functions that the library calls, each behind a small trusted
//! item that states what the rest of the library relies on.

pub mod blob;
pub mod cache;
pub mod ct;
pub mod errno;
pub mod shards;
pub mod text;
pub mod xxh3;
