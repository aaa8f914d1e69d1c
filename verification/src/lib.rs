//! A distributed in-memory filesystem: placement, metadata, block storage and
//! the client's read, write and publish paths, as verified functions over
//! plain values.

pub mod auth;
pub mod client;
pub mod config;
pub mod error;
pub mod hash;
pub mod id;
pub mod meta;
pub mod names;
pub mod ordered;
pub mod outside;
pub mod proto;
pub mod store;
pub mod time;
