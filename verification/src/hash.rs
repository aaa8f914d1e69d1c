//! Rendezvous hashing: which storage nodes hold a block.

use vstd::prelude::*;
use vstd::utf8::*;

use crate::id::{node_names, BlockKey, NodeId};
use crate::outside::xxh3::{hash_with_seed, xxh3_64};

verus! {

/// How strongly `node` bids for the block `key`.
pub open spec fn score(key: BlockKey, node: Seq<char>) -> u64 {
    xxh3_64(encode_utf8(node), key.block_idx.0) ^ xxh3_64(encode_utf8(node), key.ino.0)
}

/// The bid of a node: how much, and its name.
pub type Bid = (u64, Seq<char>);

/// What nodes bid, where `scores` says how much each of them bids.
pub open spec fn bids_of(scores: Seq<u64>, nodes: Seq<Seq<char>>) -> Seq<Bid> {
    Seq::new(nodes.len(), |i: int| (scores[i], nodes[i]))
}

/// What nodes bid for the block `key`.
pub open spec fn bids(key: BlockKey, nodes: Seq<Seq<char>>) -> Seq<Bid> {
    Seq::new(nodes.len(), |i: int| (score(key, nodes[i]), nodes[i]))
}

/// `ranked` with `bid` put behind every bid that is at least as high.
pub open spec fn insert_ranked(ranked: Seq<Bid>, bid: Bid) -> Seq<Bid>
    decreases ranked.len(),
{
    if ranked.len() > 0 && ranked.last().0 < bid.0 {
        insert_ranked(ranked.drop_last(), bid).push(ranked.last())
    } else {
        ranked.push(bid)
    }
}

/// The bids with the highest first; bids of the same height stay in the order
/// in which they are listed.
pub open spec fn ranking(bids: Seq<Bid>) -> Seq<Bid>
    decreases bids.len(),
{
    if bids.len() == 0 {
        Seq::empty()
    } else {
        insert_ranked(ranking(bids.drop_last()), bids.last())
    }
}

/// The nodes of the first `r` bids of the ranking, or of all where there are
/// fewer.
pub open spec fn picked_by(bids: Seq<Bid>, r: nat) -> Seq<Seq<char>> {
    Seq::new(
        if r < bids.len() {
            r
        } else {
            bids.len()
        },
        |i: int| ranking(bids)[i].1,
    )
}

/// The nodes that the block `key` is placed on, the primary first.
pub open spec fn picked(key: BlockKey, nodes: Seq<Seq<char>>, r: nat) -> Seq<Seq<char>> {
    picked_by(bids(key, nodes), r)
}

spec fn descending(s: Seq<Bid>) -> bool {
    forall|i: int, j: int| #![trigger s[i], s[j]] 0 <= i < j < s.len() ==> s[i].0 >= s[j].0
}

/// Insertion into a descending list is insertion at the first position whose
/// bid is lower.
proof fn lemma_insert_position(s: Seq<Bid>, x: Bid) -> (p: int)
    requires
        descending(s),
    ensures
        0 <= p <= s.len(),
        insert_ranked(s, x) == s.insert(p, x),
        forall|i: int| 0 <= i < p ==> (#[trigger] s[i]).0 >= x.0,
        forall|i: int| p <= i < s.len() ==> (#[trigger] s[i]).0 < x.0,
        descending(insert_ranked(s, x)),
    decreases s.len(),
{
    if s.len() > 0 && s.last().0 < x.0 {
        let f = s.drop_last();
        let p = lemma_insert_position(f, x);
        assert(f.insert(p, x).push(s.last()) =~= s.insert(p, x));
        assert forall|i: int| 0 <= i < p implies (#[trigger] s[i]).0 >= x.0 by {
            assert(f[i] == s[i]);
        }
        assert forall|i: int| p <= i < s.len() implies (#[trigger] s[i]).0 < x.0 by {
            if i < s.len() - 1 {
                assert(f[i] == s[i]);
            }
        }
        p
    } else {
        assert(s.push(x) =~= s.insert(s.len() as int, x));
        s.len() as int
    }
}

proof fn lemma_ranking_descending(bids: Seq<Bid>)
    ensures
        descending(ranking(bids)),
        ranking(bids).len() == bids.len(),
    decreases bids.len(),
{
    if bids.len() > 0 {
        lemma_ranking_descending(bids.drop_last());
        let _ = lemma_insert_position(ranking(bids.drop_last()), bids.last());
    }
}

/// The ranking is in descending order of the bids.
pub proof fn law_ranking_is_descending(bids: Seq<Bid>, i: int, j: int)
    requires
        0 <= i < j < bids.len(),
    ensures
        ranking(bids).len() == bids.len(),
        ranking(bids)[i].0 >= ranking(bids)[j].0,
{
    lemma_ranking_descending(bids);
}

/// The ranking holds every bid as often as it is made, and no other.
pub proof fn law_ranking_is_permutation(bids: Seq<Bid>)
    ensures
        ranking(bids).to_multiset() =~= bids.to_multiset(),
    decreases bids.len(),
{
    broadcast use vstd::seq_lib::group_to_multiset_ensures;

    if bids.len() > 0 {
        let front = bids.drop_last();
        law_ranking_is_permutation(front);
        lemma_ranking_descending(front);
        let s = ranking(front);
        let p = lemma_insert_position(s, bids.last());
        vstd::seq_lib::to_multiset_insert(s, p, bids.last());
        assert(bids =~= front.push(bids.last()));
    }
}

/// Placement does not depend on the generation.
pub proof fn law_placement_ignores_generation(
    a: BlockKey,
    b: BlockKey,
    nodes: Seq<Seq<char>>,
    r: nat,
)
    requires
        a.ino == b.ino,
        a.block_idx == b.block_idx,
    ensures
        picked(a, nodes, r) == picked(b, nodes, r),
{
    assert(bids(a, nodes) =~= bids(b, nodes));
}

/// Inserting into a descending list from which the element at `j` was taken is
/// taking that element from the list after the insertion.
proof fn lemma_insert_after_remove(s: Seq<Bid>, j: int, x: Bid) -> (k: int)
    requires
        descending(s),
        0 <= j < s.len(),
    ensures
        insert_ranked(s, x).len() == s.len() + 1,
        0 <= k < s.len() + 1,
        insert_ranked(s, x)[k] == s[j],
        insert_ranked(s.remove(j), x) == insert_ranked(s, x).remove(k),
{
    let t = s.remove(j);
    let p = lemma_insert_position(s, x);
    assert(descending(t)) by {
        assert forall|a: int, b: int|
            #![trigger t[a], t[b]]
            0 <= a < b < t.len() implies t[a].0 >= t[b].0 by {
            let c = if a < j {
                a
            } else {
                a + 1
            };
            let d = if b < j {
                b
            } else {
                b + 1
            };
            assert(s[c].0 >= s[d].0);
        }
    }
    let q = lemma_insert_position(t, x);
    let want = if j < p {
        p - 1
    } else {
        p
    };
    let k = if j < p {
        j
    } else {
        j + 1
    };
    assert(q == want) by {
        if q < want {
            assert(t[q].0 < x.0);
            assert(t[q] == if q < j {
                s[q]
            } else {
                s[q + 1]
            });
        }
        if q > want {
            assert(t[want].0 >= x.0);
            assert(t[want] == if want < j {
                s[want]
            } else {
                s[want + 1]
            });
        }
    }
    assert(t.insert(q, x) =~= s.insert(p, x).remove(k));
    k
}

/// When the bid listed at `i` is withdrawn, it leaves the ranking, and the
/// other bids keep their order.
pub proof fn law_removal_keeps_order(bids: Seq<Bid>, i: int) -> (j: int)
    requires
        0 <= i < bids.len(),
    ensures
        0 <= j < ranking(bids).len(),
        ranking(bids).len() == bids.len(),
        ranking(bids)[j] == bids[i],
        ranking(bids.remove(i)) == ranking(bids).remove(j),
    decreases bids.len(),
{
    let front = bids.drop_last();
    let x = bids.last();
    let s = ranking(front);
    lemma_ranking_descending(front);
    lemma_ranking_descending(bids);
    let p = lemma_insert_position(s, x);
    if i == bids.len() - 1 {
        assert(bids.remove(i) =~= front);
        assert(s.insert(p, x).remove(p) =~= s);
        p
    } else {
        let j = law_removal_keeps_order(front, i);
        assert(bids.remove(i).drop_last() =~= front.remove(i));
        assert(bids.remove(i).last() == x);
        lemma_insert_after_remove(s, j, x)
    }
}

/// Removing a node that a block was not placed on leaves its placement as it
/// was; removing one that it was placed on keeps the others.
pub proof fn law_minimal_disruption(key: BlockKey, nodes: Seq<Seq<char>>, i: int, r: nat)
    requires
        0 <= i < nodes.len(),
    ensures
        !picked(key, nodes, r).contains(nodes[i]) ==> picked(key, nodes.remove(i), r) == picked(
            key,
            nodes,
            r,
        ),
        forall|n: Seq<char>|
            n != nodes[i] && picked(key, nodes, r).contains(n) ==> picked(
                key,
                nodes.remove(i),
                r,
            ).contains(n),
{
    let all = bids(key, nodes);
    assert(bids(key, nodes.remove(i)) =~= all.remove(i));
    let j = law_removal_keeps_order(all, i);
    let before = picked(key, nodes, r);
    let after = picked(key, nodes.remove(i), r);
    if j < before.len() {
        assert(before[j] == nodes[i]);
    } else {
        assert(after =~= before);
    }
    assert forall|n: Seq<char>| n != nodes[i] && before.contains(n) implies after.contains(n) by {
        let a = choose|a: int| 0 <= a < before.len() && before[a] == n;
        if a < j {
            assert(after[a] == n);
        } else {
            assert(after[a - 1] == n);
        }
    }
}

/// Whether no two bids are equally high.
pub open spec fn all_differ(bids: Seq<Bid>) -> bool {
    forall|i: int, j: int|
        #![trigger bids[i], bids[j]]
        0 <= i < j < bids.len() ==> bids[i].0 != bids[j].0
}

/// Bids that all differ are ranked without a tie.
proof fn lemma_ranking_differs(bids: Seq<Bid>)
    requires
        all_differ(bids),
    ensures
        all_differ(ranking(bids)),
        forall|b: Bid| #[trigger] ranking(bids).contains(b) <==> bids.contains(b),
    decreases bids.len(),
{
    if bids.len() > 0 {
        let front = bids.drop_last();
        let x = bids.last();
        let s = ranking(front);
        assert(all_differ(front)) by {
            assert forall|i: int, j: int|
                #![trigger front[i], front[j]]
                0 <= i < j < front.len() implies front[i].0 != front[j].0 by {
                assert(bids[i].0 != bids[j].0);
            }
        }
        lemma_ranking_differs(front);
        lemma_ranking_descending(front);
        let p = lemma_insert_position(s, x);
        let t = s.insert(p, x);
        assert(ranking(bids) == t);
        assert forall|i: int| 0 <= i < s.len() implies (#[trigger] s[i]).0 != x.0 by {
            assert(s.contains(s[i]));
            let k = choose|k: int| 0 <= k < front.len() && front[k] == s[i];
            assert(bids[k].0 != bids[bids.len() - 1].0);
        }
        assert forall|i: int, j: int|
            #![trigger t[i], t[j]]
            0 <= i < j < t.len() implies t[i].0 != t[j].0 by {
            let i1 = if i < p { i } else { i - 1 };
            let j1 = if j < p { j } else { j - 1 };
            if i == p {
                assert(t[j] == s[j1]);
            } else if j == p {
                assert(t[i] == s[i1]);
            } else {
                assert(t[i] == s[i1] && t[j] == s[j1]);
                assert(s[i1].0 != s[j1].0);
            }
        }
        assert forall|b: Bid| #[trigger] t.contains(b) <==> bids.contains(b) by {
            if t.contains(b) {
                let i = choose|i: int| 0 <= i < t.len() && t[i] == b;
                if i == p {
                    assert(bids[bids.len() - 1] == b);
                } else {
                    let i1 = if i < p { i } else { i - 1 };
                    assert(s[i1] == b);
                    assert(s.contains(b));
                    let k = choose|k: int| 0 <= k < front.len() && front[k] == b;
                    assert(bids[k] == b);
                }
            }
            if bids.contains(b) {
                let k = choose|k: int| 0 <= k < bids.len() && bids[k] == b;
                if k == bids.len() - 1 {
                    assert(t[p] == b);
                } else {
                    assert(front[k] == b);
                    assert(s.contains(b));
                    let i = choose|i: int| 0 <= i < s.len() && s[i] == b;
                    assert(t[if i < p { i } else { i + 1 }] == b);
                }
            }
        }
    }
}

/// Two descending lists without ties that hold the same bids are the same.
proof fn lemma_descending_unique(a: Seq<Bid>, b: Seq<Bid>)
    requires
        descending(a),
        descending(b),
        all_differ(a),
        all_differ(b),
        forall|x: Bid| #[trigger] a.contains(x) <==> b.contains(x),
    ensures
        a == b,
    decreases a.len(),
{
    if a.len() == 0 {
        if b.len() > 0 {
            assert(a.contains(b[0]));
        }
        assert(a =~= b);
    } else {
        assert(a.contains(a[0]));
        assert(b.contains(a[0]));
        let j = choose|j: int| 0 <= j < b.len() && b[j] == a[0];
        assert(a.contains(b[0]));
        let k = choose|k: int| 0 <= k < a.len() && a[k] == b[0];
        if j > 0 {
            assert(b[0].0 >= b[j].0 && b[0].0 != b[j].0);
            assert(k > 0 ==> a[0].0 >= a[k].0);
        }
        assert(a[0] == b[0]);
        let a1 = a.drop_first();
        let b1 = b.drop_first();
        assert forall|x: Bid| #[trigger] a1.contains(x) <==> b1.contains(x) by {
            if a1.contains(x) {
                let i = choose|i: int| 0 <= i < a1.len() && a1[i] == x;
                assert(a[i + 1] == x && a[0].0 != a[i + 1].0);
                assert(a.contains(x));
                assert(b.contains(x));
                let l = choose|l: int| 0 <= l < b.len() && b[l] == x;
                assert(b1[l - 1] == x);
            }
            if b1.contains(x) {
                let i = choose|i: int| 0 <= i < b1.len() && b1[i] == x;
                assert(b[i + 1] == x && b[0].0 != b[i + 1].0);
                assert(a.contains(x));
                let l = choose|l: int| 0 <= l < a.len() && a[l] == x;
                assert(a1[l - 1] == x);
            }
        }
        assert forall|i: int, l: int|
            #![trigger a1[i], a1[l]]
            0 <= i < l < a1.len() implies a1[i].0 >= a1[l].0 && a1[i].0 != a1[l].0 by {
            assert(a[i + 1].0 >= a[l + 1].0 && a[i + 1].0 != a[l + 1].0);
        }
        assert forall|i: int, l: int|
            #![trigger b1[i], b1[l]]
            0 <= i < l < b1.len() implies b1[i].0 >= b1[l].0 && b1[i].0 != b1[l].0 by {
            assert(b[i + 1].0 >= b[l + 1].0 && b[i + 1].0 != b[l + 1].0);
        }
        lemma_descending_unique(a1, b1);
        assert(a =~= seq![a[0]] + a1);
        assert(b =~= seq![b[0]] + b1);
    }
}

/// Placement does not depend on the order in which the nodes are listed, where
/// no two of them bid the same.
pub proof fn law_placement_ignores_order(
    key: BlockKey,
    nodes: Seq<Seq<char>>,
    others: Seq<Seq<char>>,
    r: nat,
)
    requires
        all_differ(bids(key, nodes)),
        others.to_multiset() =~= nodes.to_multiset(),
    ensures
        picked(key, others, r) == picked(key, nodes, r),
{
    broadcast use vstd::seq_lib::group_to_multiset_ensures;

    let a = bids(key, nodes);
    let b = bids(key, others);
    assert(nodes.no_duplicates()) by {
        assert forall|i: int, j: int|
            0 <= i < nodes.len() && 0 <= j < nodes.len() && i != j implies nodes[i] != nodes[j] by {
            assert(i < j ==> a[i].0 != a[j].0);
            assert(j < i ==> a[j].0 != a[i].0);
        }
    }
    nodes.lemma_multiset_has_no_duplicates();
    others.lemma_multiset_has_no_duplicates_conv();
    assert forall|i: int| 0 <= i < others.len() implies nodes.contains(#[trigger] others[i]) by {
        assert(others.contains(others[i]));
        assert(nodes.to_multiset().count(others[i]) > 0);
    }
    assert forall|i: int| 0 <= i < nodes.len() implies others.contains(#[trigger] nodes[i]) by {
        assert(nodes.contains(nodes[i]));
        assert(others.to_multiset().count(nodes[i]) > 0);
    }
    assert(all_differ(b)) by {
        assert forall|i: int, j: int|
            #![trigger b[i], b[j]]
            0 <= i < j < b.len() implies b[i].0 != b[j].0 by {
            let k = choose|k: int| 0 <= k < nodes.len() && nodes[k] == others[i];
            let l = choose|l: int| 0 <= l < nodes.len() && nodes[l] == others[j];
            assert(others[i] != others[j]);
            assert(k < l ==> a[k].0 != a[l].0);
            assert(l < k ==> a[l].0 != a[k].0);
        }
    }
    lemma_ranking_differs(a);
    lemma_ranking_differs(b);
    lemma_ranking_descending(a);
    lemma_ranking_descending(b);
    assert forall|x: Bid| #[trigger] ranking(a).contains(x) <==> ranking(b).contains(x) by {
        if a.contains(x) {
            let k = choose|k: int| 0 <= k < a.len() && a[k] == x;
            let l = choose|l: int| 0 <= l < others.len() && others[l] == nodes[k];
            assert(b[l] == x);
        }
        if b.contains(x) {
            let k = choose|k: int| 0 <= k < b.len() && b[k] == x;
            let l = choose|l: int| 0 <= l < nodes.len() && nodes[l] == others[k];
            assert(a[l] == x);
        }
    }
    lemma_descending_unique(ranking(a), ranking(b));
    assert(picked(key, others, r) =~= picked(key, nodes, r));
}

/// Where each bid of the ranking is listed: every listed bid once, a higher one
/// before a lower one, and of two of the same height the one listed first.
proof fn lemma_ranking_places(bids: Seq<Bid>) -> (at: Seq<int>)
    ensures
        at.len() == bids.len(),
        ranking(bids).len() == bids.len(),
        forall|i: int|
            0 <= i < at.len() ==> 0 <= #[trigger] at[i] < bids.len() && ranking(bids)[i]
                == bids[at[i]],
        forall|x: int| 0 <= x < bids.len() ==> #[trigger] at.contains(x),
        forall|i: int, j: int|
            #![trigger at[i], at[j]]
            0 <= i < j < at.len() ==> at[i] != at[j] && (bids[at[i]].0 > bids[at[j]].0 || (
            bids[at[i]].0 == bids[at[j]].0 && at[i] < at[j])),
    decreases bids.len(),
{
    if bids.len() == 0 {
        Seq::empty()
    } else {
        let front = bids.drop_last();
        let n = front.len() as int;
        let s = ranking(front);
        let before = lemma_ranking_places(front);
        lemma_ranking_descending(front);
        let p = lemma_insert_position(s, bids.last());
        let at = before.insert(p, n);
        assert forall|i: int| 0 <= i < at.len() implies 0 <= #[trigger] at[i] < bids.len()
            && ranking(bids)[i] == bids[at[i]] by {
            if i != p {
                let i1 = if i < p { i } else { i - 1 };
                assert(at[i] == before[i1]);
                assert(front[before[i1]] == bids[before[i1]]);
            }
        }
        assert forall|x: int| 0 <= x < bids.len() implies #[trigger] at.contains(x) by {
            if x == n {
                assert(at[p] == n);
            } else {
                assert(before.contains(x));
                let i = choose|i: int| 0 <= i < before.len() && before[i] == x;
                assert(at[if i < p { i } else { i + 1 }] == x);
            }
        }
        assert forall|i: int, j: int|
            #![trigger at[i], at[j]]
            0 <= i < j < at.len() implies at[i] != at[j] && (bids[at[i]].0 > bids[at[j]].0 || (
        bids[at[i]].0 == bids[at[j]].0 && at[i] < at[j])) by {
            let i1 = if i < p { i } else { i - 1 };
            let j1 = if j < p { j } else { j - 1 };
            if i == p {
                assert(at[j] == before[j1] && s[j1].0 < bids.last().0);
                assert(s[j1] == front[before[j1]]);
            } else if j == p {
                assert(at[i] == before[i1] && s[i1].0 >= bids.last().0);
                assert(s[i1] == front[before[i1]]);
            } else {
                assert(at[i] == before[i1] && at[j] == before[j1]);
                assert(front[before[i1]] == bids[before[i1]]);
                assert(front[before[j1]] == bids[before[j1]]);
            }
        }
        at
    }
}

/// The nodes that are picked are those with the highest bids, the highest
/// first, and of two equal bids the one listed first; `at` tells where each of
/// them is listed. As many are picked as are asked for, or all of them, none
/// from the same place twice, and none with a higher bid is passed over.
pub proof fn law_highest_bids_are_picked(
    scores: Seq<u64>,
    nodes: Seq<Seq<char>>,
    r: nat,
) -> (at: Seq<int>)
    requires
        scores.len() == nodes.len(),
    ensures
        at.len() <= r && at.len() <= nodes.len(),
        at.len() == r || at.len() == nodes.len(),
        picked_by(bids_of(scores, nodes), r).len() == at.len(),
        forall|i: int|
            0 <= i < at.len() ==> 0 <= #[trigger] at[i] < nodes.len() && picked_by(
                bids_of(scores, nodes),
                r,
            )[i] == nodes[at[i]],
        forall|i: int, j: int|
            #![trigger at[i], at[j]]
            0 <= i < j < at.len() ==> at[i] != at[j] && (scores[at[i]] > scores[at[j]] || (
            scores[at[i]] == scores[at[j]] && at[i] < at[j])),
        forall|i: int, x: int|
            #![trigger at[i], scores[x]]
            0 <= i < at.len() && 0 <= x < nodes.len() && !at.contains(x) ==> scores[at[i]]
                > scores[x] || (scores[at[i]] == scores[x] && at[i] < x),
{
    let bids = bids_of(scores, nodes);
    let all = lemma_ranking_places(bids);
    let n = if r < nodes.len() {
        r as int
    } else {
        nodes.len() as int
    };
    let at = all.take(n);
    assert forall|i: int, x: int|
        #![trigger at[i], scores[x]]
        0 <= i < at.len() && 0 <= x < nodes.len() && !at.contains(x) implies scores[at[i]]
        > scores[x] || (scores[at[i]] == scores[x] && at[i] < x) by {
        assert(all.contains(x));
        let j = choose|j: int| 0 <= j < all.len() && all[j] == x;
        if j < n {
            assert(at[j] == x);
        }
        assert(all[i] == at[i]);
        assert(bids[all[i]].0 == scores[all[i]] && bids[all[j]].0 == scores[all[j]]);
    }
    assert forall|i: int, j: int|
        #![trigger at[i], at[j]]
        0 <= i < j < at.len() implies at[i] != at[j] && (scores[at[i]] > scores[at[j]] || (
    scores[at[i]] == scores[at[j]] && at[i] < at[j])) by {
        assert(all[i] == at[i] && all[j] == at[j]);
        assert(bids[all[i]].0 == scores[all[i]] && bids[all[j]].0 == scores[all[j]]);
    }
    at
}

/// Rendezvous hashing. A node bids for a block the hash of its name under the
/// whole position of the block, with the hash of its name under the whole
/// number of the inode. The block goes to the nodes that bid most, the highest
/// first; of two that bid the same, the one listed first comes first. `at`
/// tells where each of them is listed.
pub proof fn law_placement_follows_the_hashes(
    key: BlockKey,
    nodes: Seq<Seq<char>>,
    r: nat,
) -> (at: Seq<int>)
    ensures
        at.len() <= r && at.len() <= nodes.len(),
        at.len() == r || at.len() == nodes.len(),
        picked(key, nodes, r).len() == at.len(),
        forall|i: int|
            0 <= i < at.len() ==> 0 <= #[trigger] at[i] < nodes.len() && picked(key, nodes, r)[i]
                == nodes[at[i]],
        forall|i: int, j: int|
            #![trigger at[i], at[j]]
            0 <= i < j < at.len() ==> at[i] != at[j] && ({
                let a = encode_utf8(nodes[at[i]]);
                let b = encode_utf8(nodes[at[j]]);
                let x = xxh3_64(a, key.block_idx.0) ^ xxh3_64(a, key.ino.0);
                let y = xxh3_64(b, key.block_idx.0) ^ xxh3_64(b, key.ino.0);
                x > y || (x == y && at[i] < at[j])
            }),
        forall|i: int, k: int|
            #![trigger at[i], nodes[k]]
            0 <= i < at.len() && 0 <= k < nodes.len() && !at.contains(k) ==> ({
                let a = encode_utf8(nodes[at[i]]);
                let b = encode_utf8(nodes[k]);
                let x = xxh3_64(a, key.block_idx.0) ^ xxh3_64(a, key.ino.0);
                let y = xxh3_64(b, key.block_idx.0) ^ xxh3_64(b, key.ino.0);
                x > y || (x == y && at[i] < k)
            }),
{
    let scores = Seq::new(
        nodes.len(),
        |i: int|
            xxh3_64(encode_utf8(nodes[i]), key.block_idx.0) ^ xxh3_64(
                encode_utf8(nodes[i]),
                key.ino.0,
            ),
    );
    assert(bids_of(scores, nodes) =~= bids(key, nodes));
    let at = law_highest_bids_are_picked(scores, nodes, r);
    assert forall|i: int, k: int|
        #![trigger at[i], nodes[k]]
        0 <= i < at.len() && 0 <= k < nodes.len() && !at.contains(k) implies ({
        let a = encode_utf8(nodes[at[i]]);
        let b = encode_utf8(nodes[k]);
        let x = xxh3_64(a, key.block_idx.0) ^ xxh3_64(a, key.ino.0);
        let y = xxh3_64(b, key.block_idx.0) ^ xxh3_64(b, key.ino.0);
        x > y || (x == y && at[i] < k)
    }) by {
        assert(scores[k] == xxh3_64(encode_utf8(nodes[k]), key.block_idx.0) ^ xxh3_64(
            encode_utf8(nodes[k]),
            key.ino.0,
        ));
    }
    at
}

/// Picks up to `r` nodes by how much each of them bids, the highest bid first.
pub fn pick_by_score(scores: &[u64], nodes: &[NodeId], r: usize) -> (chosen: Vec<NodeId>)
    requires
        scores@.len() == nodes@.len(),
    ensures
        node_names(chosen@) == picked_by(bids_of(scores@, node_names(nodes@)), r as nat),
{
    let ghost all = bids_of(scores@, node_names(nodes@));
    let mut order: Vec<usize> = Vec::new();
    let mut i: usize = 0;
    while i < nodes.len()
        invariant
            i <= nodes@.len(),
            scores@.len() == nodes@.len(),
            all == bids_of(scores@, node_names(nodes@)),
            order@.len() == i,
            forall|k: int| 0 <= k < i ==> (#[trigger] order@[k]) < i,
            ranking(all.take(i as int)) =~= Seq::new(i as nat, |k: int| all[order@[k] as int]),
        decreases nodes@.len() - i,
    {
        let h: u64 = scores[i];
        let ghost s = ranking(all.take(i as int));
        let ghost bid = all[i as int];
        proof {
            lemma_ranking_descending(all.take(i as int));
            assert(all.take(i + 1).drop_last() =~= all.take(i as int));
        }
        let ghost p = lemma_insert_position(s, bid);
        let mut at: usize = i;
        while at > 0 && scores[order[at - 1]] < h
            invariant
                at <= i,
                i < nodes@.len(),
                scores@.len() == nodes@.len(),
                all == bids_of(scores@, node_names(nodes@)),
                order@.len() == i,
                forall|k: int| 0 <= k < i ==> (#[trigger] order@[k]) < i,
                h == bid.0,
                s == Seq::new(i as nat, |k: int| all[order@[k] as int]),
                forall|k: int| at <= k < i ==> (#[trigger] s[k]).0 < h,
            decreases at,
        {
            at -= 1;
            assert(s[at as int] == all[order@[at as int] as int]);
        }
        proof {
            if p < at {
                assert(s[at - 1] == all[order@[at - 1] as int]);
                assert(s[at - 1].0 < h);
            }
            if p > at {
                assert(s[at as int].0 < h);
            }
            assert(p == at);
        }
        order.insert(at, i);
        i += 1;
        assert(Seq::new(i as nat, |k: int| all[order@[k] as int]) =~= s.insert(p, bid));
    }
    assert(all.take(i as int) =~= all);
    let take: usize = if r < nodes.len() {
        r
    } else {
        nodes.len()
    };
    let ghost want = picked_by(all, r as nat);
    let mut chosen: Vec<NodeId> = Vec::new();
    let mut k: usize = 0;
    while k < take
        invariant
            k <= take <= nodes@.len(),
            take == want.len(),
            all == bids_of(scores@, node_names(nodes@)),
            want == picked_by(all, r as nat),
            order@.len() == nodes@.len(),
            forall|k: int| 0 <= k < order@.len() ==> (#[trigger] order@[k]) < nodes@.len(),
            ranking(all) =~= Seq::new(order@.len(), |k: int| all[order@[k] as int]),
            node_names(chosen@) =~= want.take(k as int),
        decreases take - k,
    {
        let ghost before = chosen@;
        chosen.push(nodes[order[k]].clone());
        assert(node_names(chosen@) =~= node_names(before).push(want[k as int]));
        k += 1;
        assert(node_names(chosen@) =~= want.take(k as int));
    }
    assert(want.take(k as int) =~= want);
    chosen
}

/// Picks up to `r` nodes for a block, the primary first.
pub fn pick_nodes(key: &BlockKey, nodes: &[NodeId], r: usize) -> (chosen: Vec<NodeId>)
    ensures
        node_names(chosen@) == picked(*key, node_names(nodes@), r as nat),
        chosen@.len() == if r < nodes@.len() {
            r as nat
        } else {
            nodes@.len()
        },
        forall|i: int|
            #![trigger chosen@[i]]
            0 <= i < chosen@.len() ==> node_names(nodes@).contains(chosen@[i]@),
        forall|i: int, j: int|
            #![trigger chosen@[i], chosen@[j]]
            0 <= i < j < chosen@.len() ==> xxh3_64(encode_utf8(chosen@[i]@), key.block_idx.0)
                ^ xxh3_64(encode_utf8(chosen@[i]@), key.ino.0) >= xxh3_64(
                encode_utf8(chosen@[j]@),
                key.block_idx.0,
            ) ^ xxh3_64(encode_utf8(chosen@[j]@), key.ino.0),
        forall|i: int, k: int|
            #![trigger chosen@[i], nodes@[k]]
            0 <= i < chosen@.len() && 0 <= k < nodes@.len() && !node_names(chosen@).contains(
                nodes@[k]@,
            ) ==> xxh3_64(encode_utf8(chosen@[i]@), key.block_idx.0) ^ xxh3_64(
                encode_utf8(chosen@[i]@),
                key.ino.0,
            ) >= xxh3_64(encode_utf8(nodes@[k]@), key.block_idx.0) ^ xxh3_64(
                encode_utf8(nodes@[k]@),
                key.ino.0,
            ),
{
    let pk: u128 = key.placement_key();
    let lo: u64 = #[verifier::truncate]
    (pk as u64);
    let hi: u64 = #[verifier::truncate]
    ((pk >> 64) as u64);
    proof {
        let a = key.ino.0;
        let b = key.block_idx.0;
        assert(pk as u64 == b && (pk >> 64) as u64 == a) by (bit_vector)
            requires
                pk == a * 0x1_0000_0000_0000_0000 + b,
        ;
    }
    let ghost names = node_names(nodes@);
    let mut scores: Vec<u64> = Vec::new();
    let mut i: usize = 0;
    while i < nodes.len()
        invariant
            i <= nodes@.len(),
            names == node_names(nodes@),
            lo == key.block_idx.0,
            hi == key.ino.0,
            scores@.len() == i,
            forall|k: int| 0 <= k < i ==> #[trigger] scores@[k] == score(*key, names[k]),
        decreases nodes@.len() - i,
    {
        let name = nodes[i].as_str().as_bytes();
        scores.push(hash_with_seed(name, lo) ^ hash_with_seed(name, hi));
        i += 1;
    }
    let chosen = pick_by_score(scores.as_slice(), nodes, r);
    assert(bids_of(scores@, names) =~= bids(*key, names));
    assert(node_names(chosen@).len() == chosen@.len());
    proof {
        let at = law_placement_follows_the_hashes(*key, names, r as nat);
        assert forall|i: int| 0 <= i < chosen@.len() implies #[trigger] chosen@[i]@ == names[at[i]]
            && names.contains(chosen@[i]@) by {
            assert(node_names(chosen@)[i] == chosen@[i]@);
            assert(0 <= at[i] < names.len());
            assert(names.contains(names[at[i]]));
        }
        assert forall|i: int, j: int|
            #![trigger chosen@[i], chosen@[j]]
            0 <= i < j < chosen@.len() implies xxh3_64(encode_utf8(chosen@[i]@), key.block_idx.0)
            ^ xxh3_64(encode_utf8(chosen@[i]@), key.ino.0) >= xxh3_64(
            encode_utf8(chosen@[j]@),
            key.block_idx.0,
        ) ^ xxh3_64(encode_utf8(chosen@[j]@), key.ino.0) by {
            assert(chosen@[i]@ == names[at[i]] && chosen@[j]@ == names[at[j]]);
        }
        assert forall|i: int, k: int|
            #![trigger chosen@[i], nodes@[k]]
            0 <= i < chosen@.len() && 0 <= k < nodes@.len() && !node_names(chosen@).contains(
                nodes@[k]@,
            ) implies xxh3_64(encode_utf8(chosen@[i]@), key.block_idx.0) ^ xxh3_64(
            encode_utf8(chosen@[i]@),
            key.ino.0,
        ) >= xxh3_64(encode_utf8(nodes@[k]@), key.block_idx.0) ^ xxh3_64(
            encode_utf8(nodes@[k]@),
            key.ino.0,
        ) by {
            assert(chosen@[i]@ == names[at[i]]);
            assert(names[k] == nodes@[k]@);
            if at.contains(k) {
                let j = choose|j: int| 0 <= j < at.len() && at[j] == k;
                assert(node_names(chosen@)[j] == nodes@[k]@);
            }
        }
    }
    chosen
}

} // verus!
