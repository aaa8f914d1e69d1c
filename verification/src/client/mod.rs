//! The client: what a mount does to read and write files of the cluster.

pub mod attr;
pub mod cache;
pub mod fetch;
pub mod flush;
pub mod fs;
pub mod laws;
pub mod open_file;
pub mod outcomes;
pub mod pool;
pub mod read;
pub mod write;
