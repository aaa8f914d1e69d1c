//! Names, and the order in which they are listed.

use vstd::prelude::*;
use vstd::utf8::*;

verus! {

/// Whether the bytes of `a` come before those of `b`: at the first difference
/// the lesser byte comes first, and what ends comes before what goes on.
pub open spec fn bytes_before(a: Seq<u8>, b: Seq<u8>) -> bool
    decreases a.len(),
{
    if b.len() == 0 {
        false
    } else if a.len() == 0 {
        true
    } else if a[0] != b[0] {
        a[0] < b[0]
    } else {
        bytes_before(a.drop_first(), b.drop_first())
    }
}

/// Whether the name `a` comes before the name `b`.
pub open spec fn name_before(a: Seq<char>, b: Seq<char>) -> bool {
    bytes_before(encode_utf8(a), encode_utf8(b))
}

pub proof fn lemma_bytes_before_asymmetric(a: Seq<u8>, b: Seq<u8>)
    ensures
        !(bytes_before(a, b) && bytes_before(b, a)),
    decreases a.len(),
{
    if a.len() > 0 && b.len() > 0 && a[0] == b[0] {
        lemma_bytes_before_asymmetric(a.drop_first(), b.drop_first());
    }
}

pub proof fn lemma_bytes_before_total(a: Seq<u8>, b: Seq<u8>)
    ensures
        a == b || bytes_before(a, b) || bytes_before(b, a),
    decreases a.len(),
{
    if a.len() > 0 && b.len() > 0 && a[0] == b[0] {
        lemma_bytes_before_total(a.drop_first(), b.drop_first());
        if a.drop_first() == b.drop_first() {
            assert(a =~= seq![a[0]] + a.drop_first());
            assert(b =~= seq![b[0]] + b.drop_first());
        }
    } else if a.len() == 0 && b.len() == 0 {
        assert(a =~= b);
    }
}

pub proof fn lemma_bytes_before_transitive(a: Seq<u8>, b: Seq<u8>, c: Seq<u8>)
    requires
        bytes_before(a, b),
        bytes_before(b, c),
    ensures
        bytes_before(a, c),
    decreases a.len(),
{
    if a.len() > 0 && a[0] == b[0] && b[0] == c[0] {
        lemma_bytes_before_transitive(a.drop_first(), b.drop_first(), c.drop_first());
    }
}

pub proof fn lemma_encoding_injective(a: Seq<char>, b: Seq<char>)
    requires
        encode_utf8(a) == encode_utf8(b),
    ensures
        a == b,
{
    encode_utf8_decode_utf8(a);
    encode_utf8_decode_utf8(b);
}

/// The order of names is total: of two different names one comes before the
/// other, and not the other before it.
pub proof fn law_name_order_total(a: Seq<char>, b: Seq<char>)
    ensures
        a == b || name_before(a, b) || name_before(b, a),
        !(name_before(a, b) && name_before(b, a)),
        !name_before(a, a),
{
    lemma_bytes_before_asymmetric(encode_utf8(a), encode_utf8(b));
    lemma_bytes_before_asymmetric(encode_utf8(a), encode_utf8(a));
    lemma_bytes_before_total(encode_utf8(a), encode_utf8(b));
    if encode_utf8(a) == encode_utf8(b) {
        lemma_encoding_injective(a, b);
    }
}

/// The order of names is transitive.
pub proof fn law_name_order_transitive(a: Seq<char>, b: Seq<char>, c: Seq<char>)
    requires
        name_before(a, b),
        name_before(b, c),
    ensures
        name_before(a, c),
{
    lemma_bytes_before_transitive(encode_utf8(a), encode_utf8(b), encode_utf8(c));
}

/// Compares two runs of bytes.
pub fn bytes_less(a: &[u8], b: &[u8]) -> (r: bool)
    ensures
        r == bytes_before(a@, b@),
{
    let mut i: usize = 0;
    assert(a@.skip(0) =~= a@);
    assert(b@.skip(0) =~= b@);
    while i < a.len() && i < b.len() && a[i] == b[i]
        invariant
            i <= a.len(),
            i <= b.len(),
            bytes_before(a@, b@) == bytes_before(a@.skip(i as int), b@.skip(i as int)),
        decreases a.len() - i,
    {
        assert(a@.skip(i as int).drop_first() =~= a@.skip(i + 1));
        assert(b@.skip(i as int).drop_first() =~= b@.skip(i + 1));
        i += 1;
    }
    if i == b.len() {
        false
    } else if i == a.len() {
        true
    } else {
        a[i] < b[i]
    }
}

/// The first difference decides: names that agree up to some byte are in the
/// order of the bytes that follow, and a name that ends there comes first.
pub proof fn law_first_difference_decides(a: Seq<char>, b: Seq<char>, i: int)
    requires
        0 <= i <= encode_utf8(a).len(),
        i <= encode_utf8(b).len(),
        encode_utf8(a).take(i) == encode_utf8(b).take(i),
    ensures
        i == encode_utf8(b).len() ==> !name_before(a, b),
        i == encode_utf8(a).len() && i < encode_utf8(b).len() ==> name_before(a, b),
        i < encode_utf8(a).len() && i < encode_utf8(b).len() && encode_utf8(a)[i] != encode_utf8(
            b,
        )[i] ==> (name_before(a, b) <==> encode_utf8(a)[i] < encode_utf8(b)[i]),
{
    lemma_first_difference(encode_utf8(a), encode_utf8(b), i);
}

proof fn lemma_first_difference(x: Seq<u8>, y: Seq<u8>, i: int)
    requires
        0 <= i <= x.len(),
        i <= y.len(),
        x.take(i) == y.take(i),
    ensures
        i == y.len() ==> !bytes_before(x, y),
        i == x.len() && i < y.len() ==> bytes_before(x, y),
        i < x.len() && i < y.len() && x[i] != y[i] ==> (bytes_before(x, y) <==> x[i] < y[i]),
    decreases i,
{
    if i > 0 {
        assert(x.take(i)[0] == x[0] && y.take(i)[0] == y[0]);
        assert(x.drop_first().take(i - 1) =~= x.take(i).drop_first());
        assert(y.drop_first().take(i - 1) =~= y.take(i).drop_first());
        lemma_first_difference(x.drop_first(), y.drop_first(), i - 1);
    }
}

} // verus!
