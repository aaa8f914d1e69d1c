//! The entries of one directory, in the order of their names.

use vstd::prelude::*;
use vstd::utf8::*;

use crate::names::{
    bytes_before, bytes_less, law_name_order_total, law_name_order_transitive,
    lemma_bytes_before_asymmetric, lemma_bytes_before_total, lemma_bytes_before_transitive,
    lemma_encoding_injective, name_before,
};

verus! {

/// The entries of a directory: names and the inodes that they stand for.
pub type Listing = Seq<(Seq<char>, u64)>;

/// Whether each name of the listing comes before those that follow it.
pub open spec fn is_sorted(s: Listing) -> bool {
    forall|i: int, j: int|
        #![trigger s[i], s[j]]
        0 <= i < j < s.len() ==> name_before(s[i].0, s[j].0)
}

/// Whether `s` lists the name `n`.
pub open spec fn lists(s: Listing, n: Seq<char>) -> bool {
    exists|i: int| 0 <= i < s.len() && (#[trigger] s[i]).0 == n
}

/// What a listing says, name by name.
pub open spec fn as_map(s: Listing) -> Map<Seq<char>, u64> {
    Map::new(
        |n: Seq<char>| lists(s, n),
        |n: Seq<char>| s[choose|i: int| 0 <= i < s.len() && (#[trigger] s[i]).0 == n].1,
    )
}

/// The listing of a directory, in the order of the names.
pub open spec fn listing(m: Map<Seq<char>, u64>) -> Listing {
    choose|s: Listing| is_sorted(s) && as_map(s) == m
}

proof fn lemma_sorted_names_distinct(s: Listing, i: int, j: int)
    requires
        is_sorted(s),
        0 <= i < s.len(),
        0 <= j < s.len(),
        s[i].0 == s[j].0,
    ensures
        i == j,
{
    law_name_order_total(s[i].0, s[i].0);
}

/// The listing maps the name at each position to the inode at that position.
pub proof fn lemma_as_map_at(s: Listing, i: int)
    requires
        is_sorted(s),
        0 <= i < s.len(),
    ensures
        as_map(s).contains_key(s[i].0),
        as_map(s)[s[i].0] == s[i].1,
{
    let j = choose|j: int| 0 <= j < s.len() && (#[trigger] s[j]).0 == s[i].0;
    lemma_sorted_names_distinct(s, i, j);
}

proof fn lemma_listing_unique(a: Listing, b: Listing)
    requires
        is_sorted(a),
        is_sorted(b),
        as_map(a) == as_map(b),
    ensures
        a == b,
    decreases a.len(),
{
    if a.len() == 0 {
        if b.len() > 0 {
            lemma_as_map_at(b, 0);
            assert(as_map(a).contains_key(b[0].0));
        }
        assert(a =~= b);
    } else {
        lemma_as_map_at(a, a.len() - 1);
        assert(as_map(b).contains_key(a.last().0));
        let i = choose|i: int| 0 <= i < b.len() && (#[trigger] b[i]).0 == a.last().0;
        lemma_as_map_at(b, b.len() - 1);
        assert(as_map(a).contains_key(b.last().0));
        let j = choose|j: int| 0 <= j < a.len() && (#[trigger] a[j]).0 == b.last().0;
        law_name_order_total(a.last().0, b.last().0);
        assert(a.last().0 == b.last().0);
        let a1 = a.drop_last();
        let b1 = b.drop_last();
        assert(is_sorted(a1));
        assert(is_sorted(b1));
        lemma_drop_last(a);
        lemma_drop_last(b);
        lemma_listing_unique(a1, b1);
        assert(a =~= a1.push(a.last()));
        assert(b =~= b1.push(b.last()));
    }
}

proof fn lemma_drop_last(s: Listing)
    requires
        is_sorted(s),
        s.len() > 0,
    ensures
        is_sorted(s.drop_last()),
        as_map(s.drop_last()) == as_map(s).remove(s.last().0),
{
    let t = s.drop_last();
    assert forall|i: int, j: int|
        #![trigger t[i], t[j]]
        0 <= i < j < t.len() implies name_before(t[i].0, t[j].0) by {
        assert(name_before(s[i].0, s[j].0));
    }
    assert forall|n: Seq<char>| as_map(t).contains_key(n) <==> as_map(s).remove(
        s.last().0,
    ).contains_key(n) by {
        if lists(t, n) {
            let i = choose|i: int| 0 <= i < t.len() && (#[trigger] t[i]).0 == n;
            assert(s[i].0 == n);
            law_name_order_total(n, n);
        }
        if as_map(s).remove(s.last().0).contains_key(n) {
            let i = choose|i: int| 0 <= i < s.len() && (#[trigger] s[i]).0 == n;
            assert(i < t.len());
            assert(t[i].0 == n);
        }
    }
    assert forall|n: Seq<char>| as_map(t).contains_key(n) implies as_map(t)[n] == as_map(
        s,
    ).remove(s.last().0)[n] by {
        let i = choose|i: int| 0 <= i < t.len() && (#[trigger] t[i]).0 == n;
        lemma_as_map_at(t, i);
        lemma_as_map_at(s, i);
    }
    assert(as_map(t) =~= as_map(s).remove(s.last().0));
}

/// A sorted listing is the listing of what it says.
pub proof fn lemma_listing(s: Listing)
    requires
        is_sorted(s),
    ensures
        listing(as_map(s)) == s,
{
    let t = listing(as_map(s));
    assert(is_sorted(t) && as_map(t) == as_map(s));
    lemma_listing_unique(t, s);
}

proof fn lemma_insert(s: Listing, p: int, n: Seq<char>, ino: u64)
    requires
        is_sorted(s),
        0 <= p <= s.len(),
        forall|i: int| 0 <= i < p ==> name_before((#[trigger] s[i]).0, n),
        forall|i: int| p <= i < s.len() ==> name_before(n, (#[trigger] s[i]).0),
    ensures
        is_sorted(s.insert(p, (n, ino))),
        as_map(s.insert(p, (n, ino))) == as_map(s).insert(n, ino),
{
    let t = s.insert(p, (n, ino));
    assert(t[p] == (n, ino));
    assert forall|i: int, j: int|
        #![trigger t[i], t[j]]
        0 <= i < j < t.len() implies name_before(t[i].0, t[j].0) by {
        let i1 = if i < p { i } else { i - 1 };
        let j1 = if j < p { j } else { j - 1 };
        if i != p {
            assert(t[i] == s[i1]);
        }
        if j != p {
            assert(t[j] == s[j1]);
        }
    }
    assert forall|m: Seq<char>| #[trigger] as_map(t).contains_key(m) <==> as_map(s).insert(
        n,
        ino,
    ).contains_key(m) by {
        if lists(t, m) {
            let i = choose|i: int| 0 <= i < t.len() && (#[trigger] t[i]).0 == m;
            if i < p {
                assert(s[i].0 == m);
            } else if i > p {
                assert(s[i - 1].0 == m);
            }
        }
        if lists(s, m) {
            let i = choose|i: int| 0 <= i < s.len() && (#[trigger] s[i]).0 == m;
            if i < p {
                assert(t[i].0 == m);
            } else {
                assert(t[i + 1].0 == m);
            }
        }
        if m == n {
            assert(t[p].0 == m);
        }
    }
    assert forall|m: Seq<char>| as_map(t).contains_key(m) implies #[trigger] as_map(t)[m] == as_map(
        s,
    ).insert(n, ino)[m] by {
        let i = choose|i: int| 0 <= i < t.len() && (#[trigger] t[i]).0 == m;
        lemma_as_map_at(t, i);
        law_name_order_total(n, n);
        if i < p {
            assert(s[i] == t[i]);
            lemma_as_map_at(s, i);
        } else if i > p {
            assert(s[i - 1] == t[i]);
            lemma_as_map_at(s, i - 1);
        }
    }
    assert(as_map(t) =~= as_map(s).insert(n, ino));
}

proof fn lemma_remove(s: Listing, p: int)
    requires
        is_sorted(s),
        0 <= p < s.len(),
    ensures
        is_sorted(s.remove(p)),
        as_map(s.remove(p)) == as_map(s).remove(s[p].0),
{
    let t = s.remove(p);
    assert forall|i: int, j: int|
        #![trigger t[i], t[j]]
        0 <= i < j < t.len() implies name_before(t[i].0, t[j].0) by {
        let i1 = if i < p { i } else { i + 1 };
        let j1 = if j < p { j } else { j + 1 };
        assert(t[i] == s[i1]);
        assert(t[j] == s[j1]);
    }
    assert forall|m: Seq<char>| #[trigger] as_map(t).contains_key(m) <==> as_map(s).remove(
        s[p].0,
    ).contains_key(m) by {
        if lists(t, m) {
            let i = choose|i: int| 0 <= i < t.len() && (#[trigger] t[i]).0 == m;
            let i1 = if i < p { i } else { i + 1 };
            assert(s[i1].0 == m);
            if m == s[p].0 {
                lemma_sorted_names_distinct(s, i1, p);
            }
        }
        if lists(s, m) && m != s[p].0 {
            let i = choose|i: int| 0 <= i < s.len() && (#[trigger] s[i]).0 == m;
            if i < p {
                assert(t[i].0 == m);
            } else {
                assert(t[i - 1].0 == m);
            }
        }
    }
    assert forall|m: Seq<char>| as_map(t).contains_key(m) implies #[trigger] as_map(t)[m] == as_map(
        s,
    ).remove(s[p].0)[m] by {
        let i = choose|i: int| 0 <= i < t.len() && (#[trigger] t[i]).0 == m;
        let i1 = if i < p { i } else { i + 1 };
        assert(s[i1] == t[i]);
        lemma_as_map_at(t, i);
        lemma_as_map_at(s, i1);
    }
    assert(as_map(t) =~= as_map(s).remove(s[p].0));
}

/// A directory: its entries, kept in the order of their names.
pub struct Directory {
    entries: Vec<(String, u64)>,
}

impl View for Directory {
    type V = Map<Seq<char>, u64>;

    closed spec fn view(&self) -> Map<Seq<char>, u64> {
        as_map(self.listed())
    }
}

impl Directory {
    /// The entries in the order in which they are kept.
    pub closed spec fn listed(&self) -> Listing {
        Seq::new(self.entries@.len(), |i: int| (self.entries@[i].0@, self.entries@[i].1))
    }

    pub closed spec fn wf(&self) -> bool {
        is_sorted(self.listed())
    }

    pub fn new() -> (d: Directory)
        ensures
            d.wf(),
            d@ == Map::<Seq<char>, u64>::empty(),
    {
        let d = Directory { entries: Vec::new() };
        assert(d@ =~= Map::<Seq<char>, u64>::empty());
        d
    }

    /// How many entries stand before the bytes `b`, or at them where `past`.
    fn position(&self, b: &[u8], past: bool) -> (p: usize)
        requires
            self.wf(),
        ensures
            p <= self.listed().len(),
            forall|i: int|
                0 <= i < p ==> {
                    let n = encode_utf8((#[trigger] self.listed()[i]).0);
                    bytes_before(n, b@) || (past && n == b@)
                },
            forall|i: int|
                p <= i < self.listed().len() ==> {
                    let n = encode_utf8((#[trigger] self.listed()[i]).0);
                    !(bytes_before(n, b@) || (past && n == b@))
                },
    {
        let mut lo: usize = 0;
        let mut hi: usize = self.entries.len();
        while lo < hi
            invariant
                self.wf(),
                lo <= hi <= self.entries@.len(),
                self.listed().len() == self.entries@.len(),
                forall|i: int|
                    0 <= i < lo ==> {
                        let n = encode_utf8((#[trigger] self.listed()[i]).0);
                        bytes_before(n, b@) || (past && n == b@)
                    },
                forall|i: int|
                    hi <= i < self.listed().len() ==> {
                        let n = encode_utf8((#[trigger] self.listed()[i]).0);
                        !(bytes_before(n, b@) || (past && n == b@))
                    },
            decreases hi - lo,
        {
            let mid: usize = lo + (hi - lo) / 2;
            let name = self.entries[mid].0.as_str().as_bytes();
            let before = if past {
                !bytes_less(b, name)
            } else {
                bytes_less(name, b)
            };
            proof {
                lemma_bytes_before_total(name@, b@);
                lemma_bytes_before_asymmetric(name@, b@);
                lemma_bytes_before_asymmetric(b@, b@);
                assert(self.listed()[mid as int].0 == self.entries@[mid as int].0@);
                assert forall|i: int| 0 <= i < self.listed().len() implies {
                    let n = encode_utf8((#[trigger] self.listed()[i]).0);
                    (i <= mid && before ==> (bytes_before(n, b@) || (past && n == b@))) && (i
                        >= mid && !before ==> !(bytes_before(n, b@) || (past && n == b@)))
                } by {
                    let n = encode_utf8(self.listed()[i].0);
                    if i < mid {
                        assert(bytes_before(n, name@));
                        if bytes_before(name@, b@) {
                            lemma_bytes_before_transitive(n, name@, b@);
                        }
                    } else if i > mid {
                        assert(bytes_before(name@, n));
                        if bytes_before(n, b@) {
                            lemma_bytes_before_transitive(name@, n, b@);
                        }
                    }
                }
            }
            if before {
                lo = mid + 1;
            } else {
                hi = mid;
            }
        }
        lo
    }

    /// The inode under a name.
    pub fn get(&self, name: &String) -> (r: Option<u64>)
        requires
            self.wf(),
        ensures
            r is Some <==> self@.contains_key(name@),
            r matches Some(ino) ==> self@[name@] == ino,
    {
        let p: usize = self.position(name.as_str().as_bytes(), false);
        proof {
            self.lemma_not_elsewhere(name@, p as int);
        }
        if p < self.entries.len() && self.entries[p].0 == *name {
            proof {
                assert(self.listed()[p as int].0 == name@);
                lemma_as_map_at(self.listed(), p as int);
            }
            Some(self.entries[p].1)
        } else {
            None
        }
    }

    /// A name stands at its position or nowhere.
    proof fn lemma_not_elsewhere(&self, n: Seq<char>, p: int)
        requires
            self.wf(),
            0 <= p <= self.listed().len(),
            forall|i: int|
                0 <= i < p ==> bytes_before(
                    encode_utf8((#[trigger] self.listed()[i]).0),
                    encode_utf8(n),
                ),
            forall|i: int|
                p <= i < self.listed().len() ==> !bytes_before(
                    encode_utf8((#[trigger] self.listed()[i]).0),
                    encode_utf8(n),
                ),
        ensures
            self@.contains_key(n) <==> p < self.listed().len() && self.listed()[p].0 == n,
            forall|i: int|
                p < i < self.listed().len() ==> name_before(n, (#[trigger] self.listed()[i]).0),
            p < self.listed().len() ==> self.listed()[p].0 == n || name_before(
                n,
                self.listed()[p].0,
            ),
    {
        let s = self.listed();
        law_name_order_total(n, n);
        if p < s.len() {
            law_name_order_total(n, s[p].0);
        }
        assert forall|i: int| p < i < s.len() implies name_before(n, (#[trigger] s[i]).0) by {
            assert(name_before(s[p].0, s[i].0));
            law_name_order_total(n, s[p].0);
            if name_before(n, s[p].0) {
                law_name_order_transitive(n, s[p].0, s[i].0);
            }
        }
        if lists(s, n) {
            let i = choose|i: int| 0 <= i < s.len() && (#[trigger] s[i]).0 == n;
            assert(i == p);
        }
    }

    pub fn contains(&self, name: &String) -> (r: bool)
        requires
            self.wf(),
        ensures
            r == self@.contains_key(name@),
    {
        self.get(name).is_some()
    }

    pub fn is_empty(&self) -> (r: bool)
        requires
            self.wf(),
        ensures
            r == (self@ == Map::<Seq<char>, u64>::empty()),
    {
        proof {
            if self.entries@.len() == 0 {
                assert(self@ =~= Map::<Seq<char>, u64>::empty());
            } else {
                lemma_as_map_at(self.listed(), 0);
            }
        }
        self.entries.len() == 0
    }

    /// Makes `name` stand for `ino`.
    pub fn insert(&mut self, name: String, ino: u64)
        requires
            old(self).wf(),
        ensures
            final(self).wf(),
            final(self)@ == old(self)@.insert(name@, ino),
    {
        let p: usize = self.position(name.as_str().as_bytes(), false);
        let ghost n = name@;
        let ghost before = self.listed();
        proof {
            self.lemma_not_elsewhere(n, p as int);
        }
        if p < self.entries.len() && self.entries[p].0 == name {
            proof {
                lemma_remove(before, p as int);
                law_name_order_total(n, n);
                let rest = before.remove(p as int);
                assert forall|i: int| 0 <= i < p implies name_before((#[trigger] rest[i]).0, n) by {
                    assert(rest[i] == before[i]);
                }
                assert forall|i: int| p <= i < rest.len() implies name_before(
                    n,
                    (#[trigger] rest[i]).0,
                ) by {
                    assert(rest[i] == before[i + 1]);
                }
                lemma_insert(rest, p as int, n, ino);
                assert(as_map(before).remove(n).insert(n, ino) =~= as_map(before).insert(n, ino));
            }
            self.entries.remove(p);
            self.entries.insert(p, (name, ino));
            assert(self.listed() =~= before.remove(p as int).insert(p as int, (n, ino)));
        } else {
            proof {
                assert(p < before.len() ==> before[p as int].0 != n);
                lemma_insert(before, p as int, n, ino);
            }
            self.entries.insert(p, (name, ino));
            assert(self.listed() =~= before.insert(p as int, (n, ino)));
        }
    }

    /// Takes `name` out.
    pub fn remove(&mut self, name: &String)
        requires
            old(self).wf(),
        ensures
            final(self).wf(),
            final(self)@ == old(self)@.remove(name@),
    {
        let p: usize = self.position(name.as_str().as_bytes(), false);
        let ghost before = self.listed();
        proof {
            self.lemma_not_elsewhere(name@, p as int);
        }
        if p < self.entries.len() && self.entries[p].0 == *name {
            proof {
                assert(before[p as int].0 == name@);
                lemma_remove(before, p as int);
            }
            self.entries.remove(p);
            assert(self.listed() =~= before.remove(p as int));
        } else {
            assert(self@.remove(name@) =~= self@);
        }
    }

    /// The listing of a directory is in the order of the names, and says of
    /// each name what the directory says.
    pub proof fn law_listing(&self)
        requires
            self.wf(),
        ensures
            is_sorted(listing(self@)),
            as_map(listing(self@)) == self@,
    {
        lemma_listing(self.listed());
    }

    pub fn len(&self) -> (n: usize)
        requires
            self.wf(),
        ensures
            n == listing(self@).len(),
    {
        proof {
            lemma_listing(self.listed());
        }
        self.entries.len()
    }

    /// The entry at a position of the listing.
    pub fn entry(&self, i: usize) -> (r: (&str, u64))
        requires
            self.wf(),
            i < listing(self@).len(),
        ensures
            (r.0@, r.1) == listing(self@)[i as int],
    {
        proof {
            lemma_listing(self.listed());
        }
        let e = &self.entries[i];
        (e.0.as_str(), e.1)
    }

    /// How many entries have names up to `cookie`.
    pub fn count_up_to(&self, cookie: &str) -> (p: usize)
        requires
            self.wf(),
        ensures
            p == names_up_to(listing(self@), cookie@),
            p <= listing(self@).len(),
    {
        let p: usize = self.position(cookie.as_bytes(), true);
        proof {
            lemma_listing(self.listed());
            let s = self.listed();
            assert forall|i: int| 0 <= i < s.len() implies (i < p <==> !name_before(
                cookie@,
                (#[trigger] s[i]).0,
            )) by {
                let n = s[i].0;
                law_name_order_total(cookie@, n);
                if encode_utf8(n) == encode_utf8(cookie@) {
                    lemma_encoding_injective(n, cookie@);
                }
            }
            lemma_names_up_to(s, cookie@, p as int);
        }
        p
    }
}

/// How many names of a sorted listing do not come after `n`.
pub open spec fn names_up_to(s: Listing, n: Seq<char>) -> int
    decreases s.len(),
{
    if s.len() == 0 {
        0
    } else if !name_before(n, s.last().0) {
        s.len() as int
    } else {
        names_up_to(s.drop_last(), n)
    }
}

/// The names up to `n` are the first ones.
pub proof fn lemma_names_up_to(s: Listing, n: Seq<char>, p: int)
    requires
        0 <= p <= s.len(),
        forall|i: int|
            0 <= i < s.len() ==> (i < p <==> !name_before(n, (#[trigger] s[i]).0)),
    ensures
        names_up_to(s, n) == p,
    decreases s.len(),
{
    if s.len() > 0 && name_before(n, s.last().0) {
        assert(!(s.len() - 1 < p));
        let t = s.drop_last();
        assert forall|i: int| 0 <= i < t.len() implies (i < p <==> !name_before(
            n,
            (#[trigger] t[i]).0,
        )) by {
            assert(t[i] == s[i]);
        }
        lemma_names_up_to(t, n, p);
    } else if s.len() > 0 {
        assert(s.len() - 1 < p);
    }
}

/// Of the names of a sorted listing those that do not come after `n` are the
/// first ones.
pub proof fn lemma_names_up_to_splits(s: Listing, n: Seq<char>)
    requires
        is_sorted(s),
    ensures
        0 <= names_up_to(s, n) <= s.len(),
        forall|i: int|
            0 <= i < s.len() ==> (i < names_up_to(s, n) <==> !name_before(
                n,
                (#[trigger] s[i]).0,
            )),
    decreases s.len(),
{
    if s.len() > 0 {
        if name_before(n, s.last().0) {
            let t = s.drop_last();
            assert(is_sorted(t)) by {
                assert forall|i: int, j: int|
                    #![trigger t[i], t[j]]
                    0 <= i < j < t.len() implies name_before(t[i].0, t[j].0) by {
                    assert(name_before(s[i].0, s[j].0));
                }
            }
            lemma_names_up_to_splits(t, n);
            assert forall|i: int| 0 <= i < s.len() implies (i < names_up_to(s, n) <==> !name_before(
                n,
                (#[trigger] s[i]).0,
            )) by {
                if i < t.len() {
                    assert(t[i] == s[i]);
                }
            }
        } else {
            assert forall|i: int| 0 <= i < s.len() implies !name_before(
                n,
                (#[trigger] s[i]).0,
            ) by {
                if i < s.len() - 1 && name_before(n, s[i].0) {
                    assert(name_before(s[i].0, s[s.len() - 1].0));
                    law_name_order_transitive(n, s[i].0, s.last().0);
                }
            }
        }
    }
}

/// The entries of a directory can be put in the order of their names.
proof fn lemma_listing_exists(m: Map<Seq<char>, u64>) -> (s: Listing)
    requires
        m.dom().finite(),
    ensures
        is_sorted(s),
        as_map(s) == m,
    decreases m.dom().len(),
{
    if m.dom().len() == 0 {
        let none: Listing = Seq::empty();
        assert(as_map(none) =~= m);
        none
    } else {
        let n = m.dom().choose();
        let rest = m.remove(n);
        assert(rest.dom() =~= m.dom().remove(n));
        let s = lemma_listing_exists(rest);
        lemma_names_up_to_splits(s, n);
        let p = names_up_to(s, n);
        assert forall|i: int| 0 <= i < p implies name_before((#[trigger] s[i]).0, n) by {
            lemma_as_map_at(s, i);
            law_name_order_total(s[i].0, n);
        }
        lemma_insert(s, p, n, m[n]);
        assert(rest.insert(n, m[n]) =~= m);
        s.insert(p, (n, m[n]))
    }
}

/// The listing of a directory holds every entry once, under its name and with
/// its inode, and nothing else; a name comes before those that follow it.
pub proof fn law_listing_is_the_directory(m: Map<Seq<char>, u64>, n: Seq<char>, i: int, j: int)
    requires
        m.dom().finite(),
    ensures
        m.contains_key(n) <==> exists|x: int|
            0 <= x < listing(m).len() && (#[trigger] listing(m)[x]).0 == n,
        0 <= i < listing(m).len() ==> m.contains_key(listing(m)[i].0) && m[listing(m)[i].0]
            == listing(m)[i].1,
        0 <= i < j < listing(m).len() ==> name_before(listing(m)[i].0, listing(m)[j].0),
        is_sorted(listing(m)),
        as_map(listing(m)) == m,
{
    let s = lemma_listing_exists(m);
    lemma_listing(s);
    if 0 <= i < s.len() {
        lemma_as_map_at(s, i);
    }
    assert(as_map(s).contains_key(n) <==> lists(s, n));
}

} // verus!
