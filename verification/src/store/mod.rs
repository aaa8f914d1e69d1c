//! A storage node: blocks in memory, within a budget.

pub mod heartbeat;
pub mod laws;
pub mod model;
pub mod service;
pub mod state;
