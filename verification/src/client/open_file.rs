//! An open file: where its blocks lie, and what was written to it.

use bytes::BytesMut;
use std::collections::BTreeMap;
use vstd::prelude::*;

use crate::client::fs::DtmpfsFs;
use crate::id::{
    node_names, placements, BlockPlacement, Generation, InodeId, NodeId, PlacementView,
};
use crate::ordered::map_insert;
use crate::outside::blob::buffer_view;
use crate::proto::{block_map_view, texts, Attr, BlockLoc};

verus! {

/// What is known of an open file.
#[verifier::ext_equal]
pub struct OpenView {
    pub ino: u64,
    pub generation: u64,
    pub block_map: Map<u64, PlacementView>,
    pub dirty: Map<u64, Seq<u8>>,
    pub size_hint: u64,
    pub flags: i32,
}

/// The bytes that were written and not yet published, block by block.
pub open spec fn dirty_views(m: Map<u64, BytesMut>) -> Map<u64, Seq<u8>> {
    m.map_values(|b: BytesMut| buffer_view(b))
}

/// An open file.
pub struct OpenFile {
    pub ino: InodeId,
    pub generation: Generation,
    pub block_map: BTreeMap<u64, BlockPlacement>,
    pub dirty: BTreeMap<u64, BytesMut>,
    pub size_hint: u64,
    pub flags: i32,
}

impl View for OpenFile {
    type V = OpenView;

    open spec fn view(&self) -> OpenView {
        OpenView {
            ino: self.ino.0,
            generation: self.generation.0,
            block_map: placements(self.block_map@),
            dirty: dirty_views(self.dirty@),
            size_hint: self.size_hint,
            flags: self.flags,
        }
    }
}

impl OpenView {
    /// Every block that was written to is there as a whole.
    pub open spec fn wf(self, block_size: nat) -> bool {
        forall|k: u64|
            #![trigger self.dirty[k]]
            self.dirty.contains_key(k) ==> self.dirty[k].len() >= block_size
    }
}

/// `known` with the places that a list gives; of two for the same block the
/// later one holds.
pub open spec fn with_locations(
    known: Map<u64, PlacementView>,
    locs: Seq<(u64, PlacementView)>,
) -> Map<u64, PlacementView>
    decreases locs.len(),
{
    if locs.len() == 0 {
        known
    } else {
        with_locations(known, locs.drop_last()).insert(locs.last().0, locs.last().1)
    }
}

/// The names of a list of nodes.
fn to_nodes(names: &Vec<String>) -> (r: Vec<NodeId>)
    ensures
        node_names(r@) == texts(names@),
{
    let mut out: Vec<NodeId> = Vec::new();
    let mut i: usize = 0;
    let ghost all = texts(names@);
    while i < names.len()
        invariant
            i <= names@.len(),
            all == texts(names@),
            node_names(out@) == all.take(i as int),
        decreases names.len() - i,
    {
        let ghost before = out@;
        out.push(NodeId::new(names[i].clone()));
        assert(node_names(out@) =~= node_names(before).push(all[i as int]));
        assert(node_names(out@) =~= all.take(i + 1));
        i += 1;
    }
    assert(all.take(i as int) =~= all);
    out
}

/// Takes the places that a list gives.
pub fn add_locations(block_map: &mut BTreeMap<u64, BlockPlacement>, locs: &Vec<BlockLoc>)
    ensures
        placements(final(block_map)@) == with_locations(
            placements(old(block_map)@),
            block_map_view(locs@),
        ),
{
    let ghost known = placements(block_map@);
    let ghost all = block_map_view(locs@);
    let mut i: usize = 0;
    assert(all.take(0) =~= Seq::empty());
    while i < locs.len()
        invariant
            i <= locs@.len(),
            all == block_map_view(locs@),
            placements(block_map@) == with_locations(known, all.take(i as int)),
        decreases locs.len() - i,
    {
        let ghost before = placements(block_map@);
        let placement = BlockPlacement {
            primary: NodeId::new(locs[i].primary.clone()),
            replicas: to_nodes(&locs[i].replicas),
        };
        let ghost place = placement@;
        map_insert(block_map, locs[i].block_idx, placement);
        proof {
            assert(placements(block_map@) =~= before.insert(all[i as int].0, place));
            assert(all[i as int].1 =~= place);
            assert(all.take(i + 1).drop_last() =~= all.take(i as int));
        }
        i += 1;
    }
    assert(all.take(i as int) =~= all);
}

impl DtmpfsFs {
    /// The file that an answer to an open or a create opens, under its handle.
    pub fn build_open_file(
        ino: InodeId,
        fh: u64,
        attr: &Attr,
        block_map: Vec<BlockLoc>,
        flags: i32,
    ) -> (r: (u64, OpenFile))
        ensures
            r.0 == fh,
            r.1@ == (OpenView {
                ino: ino.0,
                generation: attr.generation,
                block_map: with_locations(Map::empty(), block_map_view(block_map@)),
                dirty: Map::empty(),
                size_hint: attr.size,
                flags,
            }),
    {
        let mut bm: BTreeMap<u64, BlockPlacement> = BTreeMap::new();
        assert(placements(bm@) =~= Map::empty());
        add_locations(&mut bm, &block_map);
        let of = OpenFile {
            ino,
            generation: Generation(attr.generation),
            block_map: bm,
            dirty: BTreeMap::new(),
            size_hint: attr.size,
            flags,
        };
        assert(of@.dirty =~= Map::empty());
        (fh, of)
    }
}

} // verus!
