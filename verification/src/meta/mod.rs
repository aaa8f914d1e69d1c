//! The metadata server: which files exist, and where their blocks lie.

pub mod directory;
pub mod edits;
pub mod history;
pub mod laws;
pub mod model;
pub mod outcomes;
pub mod service;
pub mod state;
