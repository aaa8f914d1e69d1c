//! The state of a storage node.

use bytes::Bytes;
use dashmap::DashMap;
use vstd::prelude::*;

use crate::id::NodeId;
use crate::outside::shards::{blocks_new, marks_new, stored_blocks, stored_marks};
use crate::store::model::StoreView;

verus! {

/// What a storage node holds.
pub struct StoreState {
    pub blocks: DashMap<(u64, u64, u64), Bytes>,
    pub high_water: DashMap<(u64, u64), u64>,
    pub node_id: NodeId,
    pub meta_addr: String,
    pub ram_budget: u64,
    pub ram_used: u64,
}

impl View for StoreState {
    type V = StoreView;

    open spec fn view(&self) -> StoreView {
        StoreView {
            blocks: stored_blocks(self.blocks),
            high_water: stored_marks(self.high_water),
            ram_budget: self.ram_budget,
            ram_used: self.ram_used,
        }
    }
}

impl StoreState {
    pub fn new(node_id: NodeId, meta_addr: String, ram_budget: u64) -> (s: StoreState)
        ensures
            s.node_id == node_id,
            s.meta_addr == meta_addr,
            s@ == StoreView::initial(ram_budget),
    {
        StoreState {
            blocks: blocks_new(),
            high_water: marks_new(),
            node_id,
            meta_addr,
            ram_budget,
            ram_used: 0,
        }
    }
}

} // verus!
