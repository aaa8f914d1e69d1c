//! The keys of a map in ascending order.

use std::collections::BTreeMap;
use vstd::prelude::*;

verus! {

/// Whether each number of `s` is less than those that follow it.
pub open spec fn is_ascending(s: Seq<u64>) -> bool {
    forall|i: int, j: int| #![trigger s[i], s[j]] 0 <= i < j < s.len() ==> s[i] < s[j]
}

/// The numbers of a set in ascending order.
pub open spec fn ascending(set: Set<u64>) -> Seq<u64> {
    choose|s: Seq<u64>| is_ascending(s) && s.to_set() == set
}

/// Two ascending sequences of the same numbers are the same.
proof fn lemma_ascending_unique(a: Seq<u64>, b: Seq<u64>)
    requires
        is_ascending(a),
        is_ascending(b),
        a.to_set() == b.to_set(),
    ensures
        a == b,
    decreases a.len(),
{
    if a.len() == 0 {
        if b.len() > 0 {
            assert(b.to_set().contains(b[0]));
            assert(a.to_set().contains(b[0]));
        }
        assert(a =~= b);
    } else {
        assert(a.to_set().contains(a.last()));
        assert(b.to_set().contains(a.last()));
        let i = choose|i: int| 0 <= i < b.len() && b[i] == a.last();
        assert(b.to_set().contains(b.last()));
        assert(a.to_set().contains(b.last()));
        let j = choose|j: int| 0 <= j < a.len() && a[j] == b.last();
        assert(a.last() == b.last());
        let a1 = a.drop_last();
        let b1 = b.drop_last();
        assert forall|x: u64| a1.to_set().contains(x) <==> b1.to_set().contains(x) by {
            if a1.to_set().contains(x) {
                let k = choose|k: int| 0 <= k < a1.len() && a1[k] == x;
                assert(a[k] == x);
                assert(a.to_set().contains(x));
                assert(b.to_set().contains(x));
                let l = choose|l: int| 0 <= l < b.len() && b[l] == x;
                assert(x != b.last());
                assert(b1[l] == x);
            }
            if b1.to_set().contains(x) {
                let k = choose|k: int| 0 <= k < b1.len() && b1[k] == x;
                assert(b[k] == x);
                assert(b.to_set().contains(x));
                assert(a.to_set().contains(x));
                let l = choose|l: int| 0 <= l < a.len() && a[l] == x;
                assert(x != a.last());
                assert(a1[l] == x);
            }
        }
        assert(a1.to_set() =~= b1.to_set());
        lemma_ascending_unique(a1, b1);
        assert(a =~= a1.push(a.last()));
        assert(b =~= b1.push(b.last()));
    }
}

/// An ascending sequence is the ascending order of its numbers.
pub proof fn lemma_ascending(s: Seq<u64>)
    requires
        is_ascending(s),
    ensures
        ascending(s.to_set()) == s,
{
    let t = ascending(s.to_set());
    assert(is_ascending(t) && t.to_set() == s.to_set());
    lemma_ascending_unique(t, s);
}

/// `s` with `x` in its place.
spec fn insert_sorted(s: Seq<u64>, x: u64) -> Seq<u64>
    decreases s.len(),
{
    if s.len() == 0 || s.last() < x {
        s.push(x)
    } else {
        insert_sorted(s.drop_last(), x).push(s.last())
    }
}

proof fn lemma_insert_sorted(s: Seq<u64>, x: u64)
    requires
        is_ascending(s),
        !s.contains(x),
    ensures
        is_ascending(insert_sorted(s, x)),
        forall|y: u64| #[trigger] insert_sorted(s, x).contains(y) <==> s.contains(y) || y == x,
    decreases s.len(),
{
    let t = insert_sorted(s, x);
    if s.len() == 0 || s.last() < x {
        assert forall|y: u64| #[trigger] t.contains(y) <==> s.contains(y) || y == x by {
            if s.contains(y) {
                let i = choose|i: int| 0 <= i < s.len() && s[i] == y;
                assert(t[i] == y);
            }
            assert(t[s.len() as int] == x);
        }
    } else {
        let r = s.drop_last();
        assert(s[s.len() - 1] == s.last());
        assert(s.last() > x);
        assert(!r.contains(x)) by {
            if r.contains(x) {
                let i = choose|i: int| 0 <= i < r.len() && r[i] == x;
                assert(s[i] == x);
            }
        }
        lemma_insert_sorted(r, x);
        let u = insert_sorted(r, x);
        assert forall|y: u64| #[trigger] t.contains(y) <==> s.contains(y) || y == x by {
            if t.contains(y) {
                let i = choose|i: int| 0 <= i < t.len() && t[i] == y;
                if i < u.len() {
                    assert(u[i] == y);
                    assert(u.contains(y));
                    if r.contains(y) {
                        let j = choose|j: int| 0 <= j < r.len() && r[j] == y;
                        assert(s[j] == y);
                    }
                }
            }
            if s.contains(y) {
                let i = choose|i: int| 0 <= i < s.len() && s[i] == y;
                if i < r.len() {
                    assert(r[i] == y);
                    assert(u.contains(y));
                    let j = choose|j: int| 0 <= j < u.len() && u[j] == y;
                    assert(t[j] == y);
                } else {
                    assert(t[u.len() as int] == y);
                }
            }
            if y == x {
                assert(u.contains(x));
                let j = choose|j: int| 0 <= j < u.len() && u[j] == x;
                assert(t[j] == x);
            }
        }
        assert forall|i: int, j: int| #![trigger t[i], t[j]] 0 <= i < j < t.len() implies t[i]
            < t[j] by {
            if j < u.len() {
                assert(u[i] < u[j]);
            } else {
                assert(u.contains(u[i]));
                if u[i] != x {
                    let k = choose|k: int| 0 <= k < r.len() && r[k] == u[i];
                    assert(s[k] < s[s.len() - 1]);
                }
            }
        }
    }
}

/// The numbers of a finite set can be put in ascending order.
pub proof fn lemma_ascending_of(set: Set<u64>)
    requires
        set.finite(),
    ensures
        is_ascending(ascending(set)),
        ascending(set).to_set() == set,
    decreases set.len(),
{
    if set.len() == 0 {
        let none = Seq::<u64>::empty();
        assert(none.to_set() =~= set);
        assert(is_ascending(none) && none.to_set() == set);
    } else {
        let x = set.choose();
        let rest = set.remove(x);
        lemma_ascending_of(rest);
        let s = ascending(rest);
        assert(!s.contains(x)) by {
            if s.contains(x) {
                assert(s.to_set().contains(x));
            }
        }
        lemma_insert_sorted(s, x);
        let t = insert_sorted(s, x);
        assert forall|y: u64| t.to_set().contains(y) <==> set.contains(y) by {
            assert(t.contains(y) <==> s.contains(y) || y == x);
            assert(s.to_set().contains(y) <==> rest.contains(y));
        }
        assert(t.to_set() =~= set);
        assert(is_ascending(t) && t.to_set() == set);
    }
}

/// The keys of a map, in ascending order.
pub fn sorted_keys<V>(m: &BTreeMap<u64, V>) -> (r: Vec<u64>)
    ensures
        r@ == ascending(m@.dom()),
        is_ascending(r@),
        r@.to_set() == m@.dom(),
        r@.len() == m@.dom().len(),
{
    broadcast use vstd::std_specs::btree::group_btree_axioms;
    broadcast use vstd::laws_cmp::group_laws_cmp;

    let mut out: Vec<u64> = Vec::new();
    let entries = m.iter();
    let ghost pairs = vstd::std_specs::iter::IteratorSpec::remaining(&entries);
    let ghost keys = pairs.map_values(|kv: (&u64, &V)| *kv.0);
    for kv in it: entries
        invariant
            it.seq() == pairs,
            out@ == keys.take(it.index()),
            keys == pairs.map_values(|kv: (&u64, &V)| *kv.0),
    {
        out.push(*kv.0);
        assert(out@ =~= keys.take(it.index() + 1));
    }
    assert(out@ =~= keys);
    assert(is_ascending(out@)) by {
        assert forall|i: int, j: int| 0 <= i < j < keys.len() implies keys[i] < keys[j] by {
            assert(vstd::std_specs::cmp::OrdSpec::cmp_spec(&keys[i], &keys[j]) is Less);
        }
    }
    assert(out@.to_set() =~= m@.dom()) by {
        assert forall|k: u64| m@.dom().contains(k) implies out@.to_set().contains(k) by {
            let i = choose|i: int| 0 <= i < pairs.len() && pairs[i] == (&k, &m@[k]);
            assert(keys[i] == k);
        }
    }
    proof {
        lemma_ascending(out@);
        out@.unique_seq_to_set();
    }
    out
}

/// The value under a key.
pub fn map_get<V>(m: &BTreeMap<u64, V>, k: u64) -> (r: Option<&V>)
    ensures
        match r {
            Some(v) => m@.contains_key(k) && *v == m@[k],
            None => !m@.contains_key(k),
        },
{
    broadcast use vstd::std_specs::btree::group_btree_axioms;
    broadcast use vstd::laws_cmp::group_laws_cmp;

    m.get(&k)
}

/// Puts a value under a key.
pub fn map_insert<V>(m: &mut BTreeMap<u64, V>, k: u64, v: V)
    ensures
        final(m)@ == old(m)@.insert(k, v),
{
    broadcast use vstd::std_specs::btree::group_btree_axioms;
    broadcast use vstd::laws_cmp::group_laws_cmp;

    m.insert(k, v);
}

/// Takes a key out, with its value.
pub fn map_remove<V>(m: &mut BTreeMap<u64, V>, k: u64) -> (r: Option<V>)
    ensures
        final(m)@ == old(m)@.remove(k),
        match r {
            Some(v) => old(m)@.contains_key(k) && v == old(m)@[k],
            None => !old(m)@.contains_key(k),
        },
{
    broadcast use vstd::std_specs::btree::group_btree_axioms;
    broadcast use vstd::laws_cmp::group_laws_cmp;

    m.remove(&k)
}

} // verus!
