//! Where the storage nodes are reached.

use vstd::prelude::*;

use crate::error::{DtmpfsError, ErrorView};
use crate::id::NodeId;
use crate::proto::{node_list_view, ProtoNodeInfo, ProtoNodeView};

verus! {

/// The addresses that a list of nodes gives; of two entries with the same name
/// the later one holds.
pub open spec fn addr_map(nodes: Seq<ProtoNodeView>) -> Map<Seq<char>, Seq<char>>
    decreases nodes.len(),
{
    if nodes.len() == 0 {
        Map::empty()
    } else {
        addr_map(nodes.drop_last()).insert(nodes.last().node_id, "http://"@ + nodes.last().addr)
    }
}

spec fn pair_map(pairs: Seq<(Seq<char>, Seq<char>)>) -> Map<Seq<char>, Seq<char>>
    decreases pairs.len(),
{
    if pairs.len() == 0 {
        Map::empty()
    } else {
        pair_map(pairs.drop_last()).insert(pairs.last().0, pairs.last().1)
    }
}

/// How to come by a connection to a storage node.
#[derive(Debug, PartialEq, Eq)]
pub enum GetStep {
    /// There is one already.
    Cached,
    /// Connect to this address.
    Connect(String),
}

/// The addresses of the storage nodes.
pub struct StoreClientPool {
    addrs: Vec<(NodeId, String)>,
}

impl View for StoreClientPool {
    type V = Map<Seq<char>, Seq<char>>;

    closed spec fn view(&self) -> Map<Seq<char>, Seq<char>> {
        pair_map(self.pairs())
    }
}

impl StoreClientPool {
    closed spec fn pairs(&self) -> Seq<(Seq<char>, Seq<char>)> {
        Seq::new(self.addrs@.len(), |i: int| (self.addrs@[i].0@, self.addrs@[i].1@))
    }

    pub fn new() -> (p: StoreClientPool)
        ensures
            p@ == Map::<Seq<char>, Seq<char>>::empty(),
    {
        StoreClientPool { addrs: Vec::new() }
    }

    pub fn is_empty(&self) -> (r: bool)
        ensures
            r == (self@ == Map::<Seq<char>, Seq<char>>::empty()),
    {
        proof {
            if self.addrs@.len() > 0 {
                assert(self@.contains_key(self.pairs().last().0));
            }
        }
        self.addrs.len() == 0
    }

    /// Takes the addresses that a list of nodes gives in place of those known.
    pub fn refresh_addrs(&mut self, nodes: &Vec<ProtoNodeInfo>)
        ensures
            final(self)@ == addr_map(node_list_view(nodes@)),
    {
        let mut addrs: Vec<(NodeId, String)> = Vec::new();
        let mut i: usize = 0;
        let ghost all = node_list_view(nodes@);
        let ghost mut pairs: Seq<(Seq<char>, Seq<char>)> = Seq::empty();
        while i < nodes.len()
            invariant
                i <= nodes@.len(),
                all == node_list_view(nodes@),
                pairs == Seq::new(addrs@.len(), |j: int| (addrs@[j].0@, addrs@[j].1@)),
                pair_map(pairs) == addr_map(all.take(i as int)),
            decreases nodes.len() - i,
        {
            let mut addr = "http://".to_owned();
            addr.append(nodes[i].addr.as_str());
            let id = NodeId::new(nodes[i].node_id.clone());
            let ghost pair = (id@, addr@);
            addrs.push((id, addr));
            proof {
                let before = pairs;
                pairs = pairs.push(pair);
                assert(pairs =~= Seq::new(addrs@.len(), |j: int| (addrs@[j].0@, addrs@[j].1@)));
                assert(pairs.drop_last() =~= before);
                assert(all.take(i + 1).drop_last() =~= all.take(i as int));
                assert(all.take(i + 1).last() == all[i as int]);
            }
            i += 1;
        }
        self.addrs = addrs;
        proof {
            assert(all.take(i as int) =~= all);
            assert(self.pairs() =~= pairs);
        }
    }

    /// The address of a node.
    pub fn addr(&self, id: &NodeId) -> (r: Option<&String>)
        ensures
            match r {
                Some(a) => self@.contains_key(id@) && self@[id@] == a@,
                None => !self@.contains_key(id@),
            },
    {
        let ghost all = self.pairs();
        let mut i: usize = self.addrs.len();
        assert(all.take(i as int) =~= all);
        while i > 0
            invariant
                i <= self.addrs@.len(),
                all == self.pairs(),
                self@.contains_key(id@) <==> pair_map(all.take(i as int)).contains_key(id@),
                self@.contains_key(id@) ==> pair_map(all.take(i as int))[id@] == self@[id@],
            decreases i,
        {
            proof {
                assert(all.take(i as int).drop_last() =~= all.take(i - 1));
                assert(all.take(i as int).last() == all[i - 1]);
            }
            if self.addrs[i - 1].0.0 == id.0 {
                return Some(&self.addrs[i - 1].1);
            }
            i -= 1;
        }
        None
    }

    /// How to come by a connection to the node `id`; `cached` says whether
    /// there is one already.
    pub fn get(&self, id: &NodeId, cached: bool) -> (r: Result<GetStep, DtmpfsError>)
        ensures
            match r {
                Ok(GetStep::Cached) => cached,
                Ok(GetStep::Connect(a)) => !cached && self@.contains_key(id@) && a@ == self@[id@],
                Err(e) => !cached && !self@.contains_key(id@) && e@ == ErrorView::StoreUnavailable(
                    id@,
                ),
            },
    {
        if cached {
            return Ok(GetStep::Cached);
        }
        match self.addr(id) {
            Some(a) => Ok(GetStep::Connect(a.clone())),
            None => Err(DtmpfsError::StoreUnavailable(id.clone())),
        }
    }
}

/// The outcome of an attempt to connect to the node `id`.
pub fn connected(id: &NodeId, ok: bool) -> (r: Result<(), DtmpfsError>)
    ensures
        match r {
            Ok(_) => ok,
            Err(e) => !ok && e@ == ErrorView::StoreUnavailable(id@),
        },
{
    if ok {
        Ok(())
    } else {
        Err(DtmpfsError::StoreUnavailable(id.clone()))
    }
}

} // verus!
