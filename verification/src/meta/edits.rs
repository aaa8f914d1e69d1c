//! Small changes to the state of the metadata server.

use std::collections::BTreeMap;
use vstd::prelude::*;

use crate::id::{
    holders, placements, BlockIdx, BlockKey, BlockPlacement, Generation, InodeId, InodeKind, NodeId,
    PlacementView,
};
use crate::meta::directory::Directory;
use crate::meta::model::{
    block_deletes, block_list, blocks_past, blocks_up_to, node_deletes, node_index, DeleteView,
    MetaView,
};
use crate::meta::state::{dir_views, inode_views, lemma_node_index, Inode, MetaState};
use crate::ordered::{ascending, is_ascending, lemma_ascending, map_get, map_remove, sorted_keys};

verus! {

/// A request to delete a block from one storage node.
#[derive(Debug, PartialEq, Eq)]
pub struct BlockDelete {
    pub addr: String,
    pub key: BlockKey,
}

/// What a list of requests to delete says.
pub open spec fn deletes_view(v: Seq<BlockDelete>) -> Seq<DeleteView> {
    Seq::new(v.len(), |i: int| (v[i].addr@, v[i].key))
}

/// What a list of blocks with their places says.
pub open spec fn placed_view(v: Seq<(u64, BlockPlacement)>) -> Seq<(u64, PlacementView)> {
    Seq::new(v.len(), |i: int| (v[i].0, v[i].1@))
}

impl MetaState {
    /// The inode under a name in a directory.
    pub(crate) fn entry(&self, parent: u64, name: &String) -> (r: Option<u64>)
        requires
            self.wf(),
        ensures
            r == self@.entry(parent, name@),
    {
        broadcast use vstd::std_specs::hash::group_hash_axioms;

        match self.dirs.get(&parent) {
            Some(d) => d.get(name),
            None => None,
        }
    }

    /// The kind of an inode.
    pub(crate) fn kind_of(&self, ino: u64) -> (r: Option<InodeKind>)
        ensures
            r == self@.kind_of(ino),
    {
        broadcast use vstd::std_specs::hash::group_hash_axioms;

        match self.inodes.get(&ino) {
            Some(i) => Some(i.kind),
            None => None,
        }
    }

    pub(crate) fn put_inode(&mut self, ino: u64, inode: Inode)
        ensures
            final(self)@ == old(self)@.with_inode(ino, inode@),
            final(self).dirs == old(self).dirs,
            old(self).wf() ==> final(self).wf(),
    {
        broadcast use vstd::std_specs::hash::group_hash_axioms;

        let ghost before = *self;
        let ghost view = inode@;
        self.inodes.insert(ino, inode);
        assert(inode_views(self.inodes@) =~= inode_views(before.inodes@).insert(ino, view));
    }

    pub(crate) fn take_inode(&mut self, ino: u64) -> (r: Option<Inode>)
        ensures
            final(self)@ == (MetaView { inodes: old(self)@.inodes.remove(ino), ..old(self)@ }),
            final(self).dirs == old(self).dirs,
            old(self).wf() ==> final(self).wf(),
            r is Some <==> old(self)@.inodes.contains_key(ino),
            r matches Some(i) ==> i@ == old(self)@.inodes[ino],
    {
        broadcast use vstd::std_specs::hash::group_hash_axioms;

        let ghost before = *self;
        let r = self.inodes.remove(&ino);
        assert(inode_views(self.inodes@) =~= inode_views(before.inodes@).remove(ino));
        r
    }

    /// Makes `ino` an empty directory.
    pub(crate) fn put_dir(&mut self, ino: u64)
        requires
            old(self).wf(),
        ensures
            final(self).wf(),
            final(self)@ == (MetaView {
                dirs: old(self)@.dirs.insert(ino, Map::empty()),
                ..old(self)@
            }),
    {
        broadcast use vstd::std_specs::hash::group_hash_axioms;

        let ghost before = *self;
        self.dirs.insert(ino, Directory::new());
        assert(dir_views(self.dirs@) =~= dir_views(before.dirs@).insert(ino, Map::empty()));
    }

    pub(crate) fn drop_dir(&mut self, ino: u64)
        requires
            old(self).wf(),
        ensures
            final(self).wf(),
            final(self)@ == (MetaView { dirs: old(self)@.dirs.remove(ino), ..old(self)@ }),
    {
        broadcast use vstd::std_specs::hash::group_hash_axioms;

        let ghost before = *self;
        self.dirs.remove(&ino);
        assert(dir_views(self.dirs@) =~= dir_views(before.dirs@).remove(ino));
    }

    /// Whether `ino` is a directory, and whether it is empty.
    pub(crate) fn dir_emptiness(&self, ino: u64) -> (r: Option<bool>)
        requires
            self.wf(),
        ensures
            r is Some <==> self@.dirs.contains_key(ino),
            r matches Some(b) ==> b == (self@.dirs[ino] == Map::<Seq<char>, u64>::empty()),
    {
        broadcast use vstd::std_specs::hash::group_hash_axioms;

        match self.dirs.get(&ino) {
            Some(d) => Some(d.is_empty()),
            None => None,
        }
    }

    pub(crate) fn put_entry(&mut self, parent: u64, name: String, ino: u64)
        requires
            old(self).wf(),
            old(self)@.dirs.contains_key(parent),
        ensures
            final(self).wf(),
            final(self)@ == old(self)@.with_entry(parent, name@, ino),
    {
        broadcast use vstd::std_specs::hash::group_hash_axioms;

        let ghost before = *self;
        let ghost n = name@;
        let dir = self.dirs.remove(&parent);
        let mut dir = dir.unwrap();
        dir.insert(name, ino);
        let ghost view = dir@;
        self.dirs.insert(parent, dir);
        assert(dir_views(self.dirs@) =~= dir_views(before.dirs@).insert(parent, view));
    }

    pub(crate) fn drop_entry(&mut self, parent: u64, name: &String)
        requires
            old(self).wf(),
            old(self)@.dirs.contains_key(parent),
        ensures
            final(self).wf(),
            final(self)@ == old(self)@.without_entry(parent, name@),
    {
        broadcast use vstd::std_specs::hash::group_hash_axioms;

        let ghost before = *self;
        let dir = self.dirs.remove(&parent);
        let mut dir = dir.unwrap();
        dir.remove(name);
        let ghost view = dir@;
        self.dirs.insert(parent, dir);
        assert(dir_views(self.dirs@) =~= dir_views(before.dirs@).insert(parent, view));
    }

    /// One link to `ino` less, down to none.
    pub(crate) fn drop_link(&mut self, ino: u64)
        requires
            old(self).wf(),
        ensures
            final(self).wf(),
            final(self)@ == old(self)@.link_dropped(ino),
    {
        let ghost before = *self;
        match self.take_inode(ino) {
            Some(mut i) => {
                i.nlink = i.nlink.saturating_sub(1);
                self.put_inode(ino, i);
                assert(self@ =~= before@.link_dropped(ino));
            },
            None => {
                assert(self@ =~= before@);
            },
        }
    }

    /// One link to `ino` more.
    pub(crate) fn add_link(&mut self, ino: u64)
        requires
            old(self).wf(),
            old(self)@.link_fits(ino),
        ensures
            final(self).wf(),
            final(self)@ == old(self)@.link_added(ino),
    {
        let ghost before = *self;
        match self.take_inode(ino) {
            Some(mut i) => {
                i.nlink = i.nlink + 1;
                self.put_inode(ino, i);
                assert(self@ =~= before@.link_added(ino));
            },
            None => {
                assert(self@ =~= before@);
            },
        }
    }

    /// The requests that delete `blocks` of `ino` from the nodes that hold
    /// them, as far as their addresses are known.
    pub(crate) fn fire_delete_blocks(
        &self,
        blocks: &Vec<(u64, BlockPlacement)>,
        ino: InodeId,
    ) -> (r: Vec<BlockDelete>)
        ensures
            deletes_view(r@) == block_deletes(self@.nodes, ino.0, placed_view(blocks@)),
    {
        let mut out: Vec<BlockDelete> = Vec::new();
        let ghost all = placed_view(blocks@);
        let mut i: usize = 0;
        assert(deletes_view(out@) =~= block_deletes(self@.nodes, ino.0, all.take(0)));
        while i < blocks.len()
            invariant
                i <= blocks@.len(),
                all == placed_view(blocks@),
                deletes_view(out@) == block_deletes(self@.nodes, ino.0, all.take(i as int)),
            decreases blocks.len() - i,
        {
            let idx: u64 = blocks[i].0;
            let p = &blocks[i].1;
            let ghost so_far = deletes_view(out@);
            let ghost nodes = self@.nodes;
            let ghost hs = holders(p@);
            self.push_delete(&mut out, ino, idx, &p.primary);
            proof {
                assert(hs.take(0) =~= Seq::empty());
                assert(hs.take(1).drop_last() =~= hs.take(0));
                assert(hs.take(1).last() == p.primary@);
                assert(node_deletes(nodes, ino.0, idx, hs.take(0)) =~= Seq::empty());
                reveal_with_fuel(node_deletes, 2);
                assert(deletes_view(out@) =~= so_far + node_deletes(
                    nodes,
                    ino.0,
                    idx,
                    hs.take(1),
                ));
            }
            let mut j: usize = 0;
            while j < p.replicas.len()
                invariant
                    j <= p.replicas@.len(),
                    hs == holders(p@),
                    nodes == self@.nodes,
                    deletes_view(out@) == so_far + node_deletes(nodes, ino.0, idx, hs.take(j + 1)),
                decreases p.replicas.len() - j,
            {
                let ghost mid = deletes_view(out@);
                self.push_delete(&mut out, ino, idx, &p.replicas[j]);
                proof {
                    assert(hs.take(j + 2).drop_last() =~= hs.take(j + 1));
                    assert(hs.take(j + 2).last() == p.replicas@[j as int]@);
                    assert(deletes_view(out@) =~= so_far + node_deletes(
                        nodes,
                        ino.0,
                        idx,
                        hs.take(j + 2),
                    ));
                }
                j += 1;
            }
            proof {
                assert(hs.take(j + 1) =~= hs);
                assert(all.take(i + 1).drop_last() =~= all.take(i as int));
                assert(all.take(i + 1).last() == (idx, p@));
            }
            i += 1;
        }
        assert(all.take(i as int) =~= all);
        out
    }

    /// Adds the request that deletes a block from the node `id`, if the
    /// address of that node is known.
    fn push_delete(
        &self,
        out: &mut Vec<BlockDelete>,
        ino: InodeId,
        idx: u64,
        id: &NodeId,
    )
        ensures
            deletes_view(final(out)@) == match node_index(self@.nodes, id@) {
                Some(i) => deletes_view(old(out)@).push(
                    (
                        "http://"@ + self@.nodes[i].addr,
                        BlockKey { ino, block_idx: BlockIdx(idx), generation: Generation(0) },
                    ),
                ),
                None => deletes_view(old(out)@),
            },
    {
        let ghost before = out@;
        proof {
            lemma_node_index(self@.nodes, id@);
        }
        if let Some(i) = self.find_node(id) {
            let mut addr = "http://".to_owned();
            addr.append(self.nodes[i].addr.as_str());
            let key = BlockKey { ino, block_idx: BlockIdx(idx), generation: Generation(0) };
            let ghost made = (addr@, key);
            out.push(BlockDelete { addr, key });
            assert(deletes_view(out@) =~= deletes_view(before).push(made));
        }
    }
}

/// The blocks of a file in the order of their positions.
pub(crate) fn list_blocks(blocks: &BTreeMap<u64, BlockPlacement>) -> (r: Vec<(u64, BlockPlacement)>)
    ensures
        placed_view(r@) == block_list(placements(blocks@)),
{
    let keys = sorted_keys(blocks);
    let mut out: Vec<(u64, BlockPlacement)> = Vec::new();
    let mut i: usize = 0;
    let ghost view = placements(blocks@);
    assert(view.dom() =~= blocks@.dom());
    while i < keys.len()
        invariant
            i <= keys@.len(),
            view == placements(blocks@),
            keys@ == ascending(view.dom()),
            keys@.to_set() == blocks@.dom(),
            placed_view(out@) == block_list(view).take(i as int),
        decreases keys.len() - i,
    {
        let ghost before = out@;
        let k: u64 = keys[i];
        assert(keys@.to_set().contains(k));
        let p = map_get(blocks, k);
        let p = p.unwrap();
        out.push((k, p.clone()));
        assert(placed_view(out@) =~= placed_view(before).push((k, view[k])));
        assert(placed_view(out@) =~= block_list(view).take(i + 1));
        i += 1;
    }
    assert(block_list(view).take(i as int) =~= block_list(view));
    out
}

/// Cuts off the blocks past `last`, and returns them in the order of their
/// positions.
pub(crate) fn cut_blocks(blocks: &mut BTreeMap<u64, BlockPlacement>, last: u64) -> (r: Vec<
    (u64, BlockPlacement),
>)
    ensures
        placements(final(blocks)@) == blocks_up_to(placements(old(blocks)@), last),
        placed_view(r@) == block_list(blocks_past(placements(old(blocks)@), last)),
{
    let ghost all = placements(blocks@);
    let keys = sorted_keys(blocks);
    let mut out: Vec<(u64, BlockPlacement)> = Vec::new();
    let mut i: usize = 0;
    while i < keys.len()
        invariant
            i <= keys@.len(),
            is_ascending(keys@),
            keys@.to_set() == all.dom(),
            forall|k: u64|
                #![trigger blocks@.contains_key(k)]
                blocks@.contains_key(k) <==> all.contains_key(k) && (k <= last
                    || !keys@.take(i as int).contains(k)),
            forall|k: u64|
                #![trigger blocks@[k]]
                blocks@.contains_key(k) ==> blocks@[k]@ == all[k],
            forall|j: int|
                #![trigger out@[j]]
                0 <= j < out@.len() ==> all.contains_key(out@[j].0) && out@[j].0 > last
                    && out@[j].1@ == all[out@[j].0] && keys@.take(i as int).contains(out@[j].0),
            forall|a: int, b: int|
                #![trigger out@[a], out@[b]]
                0 <= a < b < out@.len() ==> out@[a].0 < out@[b].0,
            forall|k: u64|
                #![trigger all.contains_key(k)]
                all.contains_key(k) && k > last && keys@.take(i as int).contains(k) ==> exists|
                    j: int,
                |
                    0 <= j < out@.len() && (#[trigger] out@[j]).0 == k,
        decreases keys.len() - i,
    {
        let ghost before = out@;
        let ghost was = blocks@;
        let k: u64 = keys[i];
        assert(keys@.to_set().contains(k));
        assert(all.contains_key(k));
        assert(keys@.take(i + 1) =~= keys@.take(i as int).push(k));
        assert(!keys@.take(i as int).contains(k));
        assert forall|x: u64| keys@.take(i + 1).contains(x) <==> keys@.take(i as int).contains(x)
            || x == k by {
            if keys@.take(i as int).contains(x) {
                let y = choose|y: int| 0 <= y < i && keys@.take(i as int)[y] == x;
                assert(keys@.take(i + 1)[y] == x);
            }
            if x == k {
                assert(keys@.take(i + 1)[i as int] == k);
            }
        }
        if k > last {
            assert(was.contains_key(k));
            let p = map_remove(blocks, k);
            let p = p.unwrap();
            assert(p@ == all[k]);
            out.push((k, p));
            assert forall|a: int, b: int|
                #![trigger out@[a], out@[b]]
                0 <= a < b < out@.len() implies out@[a].0 < out@[b].0 by {
                if b == before.len() {
                    let x = out@[a].0;
                    assert(x == before[a].0);
                    assert(keys@.take(i as int).contains(x));
                    let y = choose|y: int| 0 <= y < i && keys@.take(i as int)[y] == x;
                    assert(keys@[y] < keys@[i as int]);
                } else {
                    assert(out@[a] == before[a] && out@[b] == before[b]);
                }
            }
            assert forall|x: u64|
                #![trigger all.contains_key(x)]
                all.contains_key(x) && x > last && keys@.take(i + 1).contains(x) implies exists|
                j: int,
            |
                0 <= j < out@.len() && (#[trigger] out@[j]).0 == x by {
                if x == k {
                    assert(out@[before.len() as int].0 == k);
                } else {
                    let j = choose|j: int| 0 <= j < before.len() && (#[trigger] before[j]).0 == x;
                    assert(out@[j].0 == x);
                }
            }
            assert forall|j: int|
                #![trigger out@[j]]
                0 <= j < out@.len() implies all.contains_key(out@[j].0) && out@[j].0 > last
                && out@[j].1@ == all[out@[j].0] && keys@.take(i + 1).contains(out@[j].0) by {
                if j < before.len() {
                    assert(out@[j] == before[j]);
                }
            }
        }
        i += 1;
    }
    proof {
        assert(keys@.take(i as int) =~= keys@);
        assert forall|k: u64| all.contains_key(k) implies keys@.contains(k) by {
            assert(keys@.to_set().contains(k));
        }
        assert(placements(blocks@) =~= blocks_up_to(all, last));
        let past = blocks_past(all, last);
        let ks = Seq::new(out@.len(), |j: int| out@[j].0);
        assert(is_ascending(ks));
        assert forall|k: u64| ks.to_set().contains(k) <==> past.dom().contains(k) by {
            if ks.to_set().contains(k) {
                let j = choose|j: int| 0 <= j < ks.len() && ks[j] == k;
                assert(out@[j].0 == k);
            }
            if past.dom().contains(k) {
                assert(all.contains_key(k));
                let j = choose|j: int| 0 <= j < out@.len() && (#[trigger] out@[j]).0 == k;
                assert(ks[j] == k);
            }
        }
        assert(ks.to_set() =~= past.dom());
        lemma_ascending(ks);
        assert(placed_view(out@) =~= block_list(past));
    }
    out
}

} // verus!
