//! Identifiers shared by every role of the cluster.

use vstd::prelude::*;

verus! {

/// The number of the root directory.
pub const ROOT_INO: u64 = 1;

/// The number of an inode.
#[derive(Copy, Clone, Debug, Hash, PartialEq, Eq, PartialOrd, Ord, Structural)]
pub struct InodeId(pub u64);

impl InodeId {
    /// The root directory.
    pub fn root() -> (r: InodeId)
        ensures
            r.0 == ROOT_INO,
    {
        InodeId(ROOT_INO)
    }

    pub fn raw(self) -> (r: u64)
        ensures
            r == self.0,
    {
        self.0
    }
}

impl Default for InodeId {
    fn default() -> (r: Self)
        ensures
            r.0 == 0,
    {
        InodeId(0)
    }
}

/// A per-inode counter, bumped by every close that published blocks.
#[derive(Copy, Clone, Debug, Hash, PartialEq, Eq, PartialOrd, Ord, Structural)]
pub struct Generation(pub u64);

impl Generation {
    pub fn bump(self) -> (r: Generation)
        requires
            self.0 < u64::MAX,
        ensures
            r.0 == self.0 + 1,
    {
        Generation(self.0 + 1)
    }
}

impl Default for Generation {
    fn default() -> (r: Self)
        ensures
            r.0 == 0,
    {
        Generation(0)
    }
}

/// The position of a block within its file.
#[derive(Copy, Clone, Debug, Hash, PartialEq, Eq, PartialOrd, Ord, Structural)]
pub struct BlockIdx(pub u64);

/// The name of a storage node.
#[derive(Debug, Hash, PartialEq, Eq, PartialOrd, Ord)]
pub struct NodeId(pub String);

impl View for NodeId {
    type V = Seq<char>;

    open spec fn view(&self) -> Seq<char> {
        self.0@
    }
}

impl Clone for NodeId {
    fn clone(&self) -> (r: Self)
        ensures
            r@ == self@,
    {
        NodeId(self.0.clone())
    }
}

impl NodeId {
    pub fn new(s: String) -> (r: Self)
        ensures
            r@ == s@,
    {
        NodeId(s)
    }

    pub fn as_str(&self) -> (r: &str)
        ensures
            r@ == self@,
    {
        self.0.as_str()
    }
}

impl Default for NodeId {
    fn default() -> (r: Self)
        ensures
            r@.len() == 0,
    {
        NodeId(String::new())
    }
}

/// The identity of a stored block.
#[derive(Copy, Clone, Debug, Hash, PartialEq, Eq, Structural)]
pub struct BlockKey {
    pub ino: InodeId,
    pub block_idx: BlockIdx,
    pub generation: Generation,
}

impl BlockKey {
    /// The number by which a block is placed: the inode in the high half, the
    /// block's position in the low half. The generation takes no part, so that
    /// a block stays where it is when it is rewritten.
    pub fn placement_key(&self) -> (r: u128)
        ensures
            r == self.ino.0 * 0x1_0000_0000_0000_0000 + self.block_idx.0,
    {
        let hi: u64 = self.ino.0;
        let lo: u64 = self.block_idx.0;
        assert(((hi as u128) << 64) | (lo as u128) == hi * 0x1_0000_0000_0000_0000 + lo)
            by (bit_vector);
        ((hi as u128) << 64) | (lo as u128)
    }
}

/// What a [`BlockPlacement`] says, as mathematical values.
pub struct PlacementView {
    pub primary: Seq<char>,
    pub replicas: Seq<Seq<char>>,
}

/// The nodes that hold a block, the primary first.
#[derive(Debug, PartialEq, Eq)]
pub struct BlockPlacement {
    pub primary: NodeId,
    pub replicas: Vec<NodeId>,
}

/// The names of a list of nodes.
pub open spec fn node_names(nodes: Seq<NodeId>) -> Seq<Seq<char>> {
    Seq::new(nodes.len(), |i: int| nodes[i]@)
}

impl View for BlockPlacement {
    type V = PlacementView;

    open spec fn view(&self) -> PlacementView {
        PlacementView { primary: self.primary@, replicas: node_names(self.replicas@) }
    }
}

/// What a map of placements says.
pub open spec fn placements(m: Map<u64, BlockPlacement>) -> Map<u64, PlacementView> {
    m.map_values(|p: BlockPlacement| p@)
}

/// The nodes that hold a block, the primary first.
pub open spec fn holders(p: PlacementView) -> Seq<Seq<char>> {
    seq![p.primary] + p.replicas
}

/// Copies a list of node names.
pub fn clone_nodes(nodes: &Vec<NodeId>) -> (r: Vec<NodeId>)
    ensures
        node_names(r@) == node_names(nodes@),
{
    let mut out: Vec<NodeId> = Vec::new();
    let mut i: usize = 0;
    while i < nodes.len()
        invariant
            i <= nodes.len(),
            node_names(out@) == node_names(nodes@).take(i as int),
        decreases nodes.len() - i,
    {
        let ghost before = out@;
        out.push(nodes[i].clone());
        assert(node_names(out@) =~= node_names(before).push(nodes@[i as int]@));
        i += 1;
        assert(node_names(out@) =~= node_names(nodes@).take(i as int));
    }
    assert(node_names(nodes@).take(i as int) =~= node_names(nodes@));
    out
}

/// The nodes that hold a block, the primary first.
pub fn all_holders(p: &BlockPlacement) -> (r: Vec<NodeId>)
    ensures
        node_names(r@) == holders(p@),
{
    let mut nodes: Vec<NodeId> = Vec::new();
    nodes.push(p.primary.clone());
    let mut replicas = clone_nodes(&p.replicas);
    let ghost names = node_names(replicas@);
    nodes.append(&mut replicas);
    assert(node_names(nodes@) =~= holders(p@)) by {
        assert forall|i: int| 0 <= i < p@.replicas.len() implies node_names(nodes@)[i + 1]
            == p@.replicas[i] by {
            assert(node_names(nodes@)[i + 1] == names[i]);
        }
    }
    nodes
}

impl Clone for BlockPlacement {
    fn clone(&self) -> (r: Self)
        ensures
            r@ == self@,
    {
        BlockPlacement { primary: self.primary.clone(), replicas: clone_nodes(&self.replicas) }
    }
}

/// What an inode is.
#[derive(Copy, Clone, Debug, PartialEq, Eq, Structural)]
pub enum InodeKind {
    File,
    Dir,
    Symlink,
}

/// The primary is the first of the holders, and the replicas follow in their
/// order.
pub proof fn law_primary_comes_first(p: PlacementView, i: int)
    requires
        0 <= i < p.replicas.len(),
    ensures
        holders(p).len() == p.replicas.len() + 1,
        holders(p)[0] == p.primary,
        holders(p)[i + 1] == p.replicas[i],
{
}

/// A placement says which nodes it names, and a map of placements says it for
/// every block.
pub proof fn law_placements_name_their_nodes(
    p: BlockPlacement,
    m: Map<u64, BlockPlacement>,
    k: u64,
    i: int,
)
    ensures
        p@.primary == p.primary.0@,
        p@.replicas.len() == p.replicas@.len(),
        0 <= i < p.replicas@.len() ==> p@.replicas[i] == p.replicas@[i].0@,
        placements(m).contains_key(k) <==> m.contains_key(k),
        m.contains_key(k) ==> placements(m)[k] == m[k]@,
{
}

} // verus!
