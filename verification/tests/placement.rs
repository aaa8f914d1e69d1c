use dtmpfs::hash::{pick_by_score, pick_nodes};
use dtmpfs::id::{BlockIdx, BlockKey, Generation, InodeId, NodeId};
use dtmpfs::meta::state::place_on;
use xxhash_rust::xxh3::xxh3_64_with_seed;

fn nodes(n: usize) -> Vec<NodeId> {
    (0..n).map(|i| NodeId::new(format!("store-{i}"))).collect()
}

fn key(ino: u64, idx: u64, generation: u64) -> BlockKey {
    BlockKey { ino: InodeId(ino), block_idx: BlockIdx(idx), generation: Generation(generation) }
}

#[test]
fn deterministic() {
    let ns = nodes(8);
    let k = key(42, 7, 0);
    assert_eq!(pick_nodes(&k, &ns, 2), pick_nodes(&k, &ns, 2));
}

#[test]
fn empty_nodes() {
    let k = key(1, 0, 0);
    assert!(pick_nodes(&k, &[], 3).is_empty());
}

#[test]
fn r_capped() {
    let ns = nodes(2);
    let k = key(1, 0, 0);
    assert_eq!(pick_nodes(&k, &ns, 5).len(), 2);
}

#[test]
fn minimal_disruption() {
    let n8 = nodes(8);
    let n7: Vec<_> = n8.iter().cloned().filter(|n| n.as_str() != "store-3").collect();
    let mut moved = 0usize;
    for i in 0..1024 {
        let k = key(1, i, 0);
        if pick_nodes(&k, &n8, 1)[0] != pick_nodes(&k, &n7, 1)[0] {
            moved += 1;
        }
    }
    assert!(moved < 1024 * 2 / 8, "moved={moved}");
}

#[test]
fn picked_by_descending_score() {
    let ns = nodes(8);
    for idx in 0..50 {
        let k = key(9, idx, 0);
        let score = |n: &NodeId| {
            xxh3_64_with_seed(n.as_str().as_bytes(), idx) ^ xxh3_64_with_seed(n.as_str().as_bytes(), 9)
        };
        let chosen = pick_nodes(&k, &ns, 8);
        assert_eq!(chosen.len(), 8);
        for w in chosen.windows(2) {
            assert!(score(&w[0]) >= score(&w[1]));
        }
        let best = ns.iter().max_by_key(|n| score(n)).unwrap();
        assert_eq!(score(&chosen[0]), score(best));
    }
}

#[test]
fn every_node_is_ranked_once() {
    let ns = nodes(5);
    let chosen = pick_nodes(&key(3, 4, 0), &ns, 5);
    for n in &ns {
        assert_eq!(chosen.iter().filter(|c| *c == n).count(), 1);
    }
}

#[test]
fn generation_takes_no_part() {
    let ns = nodes(8);
    for idx in 0..20 {
        assert_eq!(pick_nodes(&key(5, idx, 0), &ns, 3), pick_nodes(&key(5, idx, 99), &ns, 3));
    }
}

#[test]
fn removal_keeps_the_order_of_the_others() {
    let ns = nodes(6);
    let without: Vec<_> = ns.iter().cloned().filter(|n| n.as_str() != "store-2").collect();
    for idx in 0..50 {
        let mut all = pick_nodes(&key(8, idx, 0), &ns, 6);
        all.retain(|n| n.as_str() != "store-2");
        assert_eq!(all, pick_nodes(&key(8, idx, 0), &without, 6));
    }
}

#[test]
fn the_order_of_the_nodes_takes_no_part() {
    let ns = nodes(7);
    let mut turned = ns.clone();
    turned.reverse();
    turned.swap(1, 4);
    for idx in 0..50 {
        assert_eq!(pick_nodes(&key(80, idx, 0), &ns, 3), pick_nodes(&key(80, idx, 0), &turned, 3));
    }
}

#[test]
fn zero_replicas_pick_nothing() {
    assert!(pick_nodes(&key(1, 0, 0), &nodes(3), 0).is_empty());
}

#[test]
fn placement_key_joins_inode_and_position() {
    assert_eq!(key(1, 2, 3).placement_key(), (1u128 << 64) | 2);
    assert_eq!(key(u64::MAX, u64::MAX, 0).placement_key(), u128::MAX);
}

#[test]
fn identifiers() {
    assert_eq!(InodeId::root().raw(), 1);
    assert_eq!(InodeId::default().raw(), 0);
    assert_eq!(Generation(4).bump(), Generation(5));
    assert_eq!(Generation::default(), Generation(0));
    assert_eq!(NodeId::new("a".to_string()).as_str(), "a");
    assert_eq!(NodeId::default().as_str(), "");
}

fn texts(v: &[NodeId]) -> Vec<&str> {
    v.iter().map(|n| n.as_str()).collect()
}

#[test]
fn the_highest_bid_comes_first() {
    let ns = nodes(4);
    let scores = [5, 9, 5, 7];
    assert_eq!(texts(&pick_by_score(&scores, &ns, 4)), vec!["store-1", "store-3", "store-0", "store-2"]);
    assert_eq!(texts(&pick_by_score(&scores, &ns, 2)), vec!["store-1", "store-3"]);
    assert!(pick_by_score(&[], &[], 3).is_empty());
}

#[test]
fn placement_on_chosen_nodes() {
    let p = place_on(nodes(3));
    assert_eq!(p.primary.as_str(), "store-0");
    assert_eq!(texts(&p.replicas), vec!["store-1", "store-2"]);
    let none = place_on(vec![]);
    assert_eq!(none.primary.as_str(), "?");
    assert!(none.replicas.is_empty());
}
