//! Byte-lexicographic ordering of keys, and the view of key storage as a
//! sequence of byte strings.
//!
//! Key equality and ordering are byte-lexicographic throughout: a proper
//! prefix sorts before its extensions, bytes compare numerically.

use crate::Key;
use vstd::prelude::*;

verus! {

/// The view of key storage: each stored key as its byte sequence.
pub open spec fn keys_view(v: Seq<Key>) -> Seq<Seq<u8>> {
    v.map_values(|k: Key| k@)
}

/// Byte-lexicographic `a <= b`: a proper prefix sorts before its
/// extensions, bytes compare numerically.
pub open spec fn lex_leq(a: Seq<u8>, b: Seq<u8>) -> bool
    decreases a.len(),
{
    if a.len() == 0 {
        true
    } else if b.len() == 0 {
        false
    } else if a.first() < b.first() {
        true
    } else if a.first() > b.first() {
        false
    } else {
        lex_leq(a.drop_first(), b.drop_first())
    }
}

/// The keys stand in ascending byte-lexicographic order.
pub open spec fn keys_sorted(s: Seq<Seq<u8>>) -> bool {
    forall|i: int, j: int| 0 <= i < j < s.len() ==> lex_leq(#[trigger] s[i], #[trigger] s[j])
}

/// The lexicographic order is reflexive.
pub proof fn lemma_lex_leq_reflexive(a: Seq<u8>)
    ensures
        lex_leq(a, a),
    decreases a.len(),
{
    if a.len() > 0 {
        lemma_lex_leq_reflexive(a.drop_first());
    }
}

/// Any two byte strings are comparable.
pub proof fn lemma_lex_leq_total(a: Seq<u8>, b: Seq<u8>)
    ensures
        lex_leq(a, b) || lex_leq(b, a),
    decreases a.len(),
{
    if a.len() > 0 && b.len() > 0 && a.first() == b.first() {
        lemma_lex_leq_total(a.drop_first(), b.drop_first());
    }
}

/// The lexicographic order is transitive.
pub proof fn lemma_lex_leq_transitive(a: Seq<u8>, b: Seq<u8>, c: Seq<u8>)
    requires
        lex_leq(a, b),
        lex_leq(b, c),
    ensures
        lex_leq(a, c),
    decreases a.len(),
{
    if a.len() > 0 && b.len() > 0 && c.len() > 0 && a.first() == b.first() && b.first()
        == c.first() {
        lemma_lex_leq_transitive(a.drop_first(), b.drop_first(), c.drop_first());
    }
}

/// Two byte strings each at most the other are equal.
pub proof fn lemma_lex_leq_antisymmetric(a: Seq<u8>, b: Seq<u8>)
    requires
        lex_leq(a, b),
        lex_leq(b, a),
    ensures
        a == b,
    decreases a.len(),
{
    if a.len() > 0 && b.len() > 0 && a.first() == b.first() {
        lemma_lex_leq_antisymmetric(a.drop_first(), b.drop_first());
        assert(a =~= seq![a.first()] + a.drop_first());
        assert(b =~= seq![b.first()] + b.drop_first());
    }
}

/// The sorted view of a Key Set is canonical: two ascending key sequences
/// holding the same keys (as a multiset) are the same sequence. Sorting is
/// therefore idempotent at the level of the keys themselves: re-sorting an
/// ascending sequence can only reproduce it.
pub proof fn lemma_sorted_keys_unique(s1: Seq<Seq<u8>>, s2: Seq<Seq<u8>>)
    requires
        keys_sorted(s1),
        keys_sorted(s2),
        s1.to_multiset() == s2.to_multiset(),
    ensures
        s1 == s2,
{
    let leq = |a: Seq<u8>, b: Seq<u8>| lex_leq(a, b);
    assert(vstd::relations::reflexive(leq)) by {
        assert forall|x: Seq<u8>| #[trigger] leq(x, x) by {
            lemma_lex_leq_reflexive(x);
        }
    }
    assert(vstd::relations::antisymmetric(leq)) by {
        assert forall|x: Seq<u8>, y: Seq<u8>| #[trigger] leq(x, y) && #[trigger] leq(y, x)
            implies x == y by {
            lemma_lex_leq_antisymmetric(x, y);
        }
    }
    assert(vstd::relations::transitive(leq)) by {
        assert forall|x: Seq<u8>, y: Seq<u8>, z: Seq<u8>| #[trigger] leq(x, y) && #[trigger] leq(
            y,
            z,
        ) implies leq(x, z) by {
            lemma_lex_leq_transitive(x, y, z);
        }
    }
    assert(vstd::relations::strongly_connected(leq)) by {
        assert forall|x: Seq<u8>, y: Seq<u8>| #[trigger] leq(x, y) || #[trigger] leq(y, x) by {
            lemma_lex_leq_total(x, y);
        }
    }
    assert(vstd::relations::sorted_by(s1, leq));
    assert(vstd::relations::sorted_by(s2, leq));
    vstd::seq_lib::lemma_sorted_unique(s1, s2, leq);
}

/// Comparing two byte strings with a common prefix reduces to comparing
/// what follows the prefix.
proof fn lemma_lex_leq_skip(a: Seq<u8>, b: Seq<u8>, i: int)
    requires
        0 <= i <= a.len(),
        i <= b.len(),
        forall|j: int| 0 <= j < i ==> a[j] == b[j],
    ensures
        lex_leq(a, b) == lex_leq(a.skip(i), b.skip(i)),
    decreases i,
{
    if i == 0 {
        assert(a.skip(0) =~= a);
        assert(b.skip(0) =~= b);
    } else {
        assert(a.first() == b.first());
        assert(a.drop_first().skip(i - 1) =~= a.skip(i));
        assert(b.drop_first().skip(i - 1) =~= b.skip(i));
        lemma_lex_leq_skip(a.drop_first(), b.drop_first(), i - 1);
    }
}

/// Byte-lexicographic comparison: whether `a` sorts at or before `b`.
pub fn key_leq(a: &Key, b: &Key) -> (r: bool)
    ensures
        r == lex_leq(a@, b@),
{
    let a_len = a.len();
    let b_len = b.len();
    let n = if a_len < b_len {
        a_len
    } else {
        b_len
    };
    for i in 0..n
        invariant
            n <= a@.len(),
            n <= b@.len(),
            n == if a@.len() < b@.len() {
                a@.len()
            } else {
                b@.len()
            },
            forall|j: int| 0 <= j < i ==> a@[j] == b@[j],
    {
        if a[i] < b[i] {
            proof {
                lemma_lex_leq_skip(a@, b@, i as int);
                assert(a@.skip(i as int).first() == a@[i as int]);
                assert(b@.skip(i as int).first() == b@[i as int]);
            }
            return true;
        }
        if a[i] > b[i] {
            proof {
                lemma_lex_leq_skip(a@, b@, i as int);
                assert(a@.skip(i as int).first() == a@[i as int]);
                assert(b@.skip(i as int).first() == b@[i as int]);
            }
            return false;
        }
    }
    proof {
        lemma_lex_leq_skip(a@, b@, n as int);
        if a@.len() <= b@.len() {
            assert(a@.skip(n as int) =~= Seq::<u8>::empty());
        } else {
            assert(b@.skip(n as int) =~= Seq::<u8>::empty());
            assert(a@.skip(n as int).len() > 0);
        }
    }
    a_len <= b_len
}

/// Byte equality of two keys.
pub fn keys_equal(a: &Key, b: &Key) -> (r: bool)
    ensures
        r == (a@ == b@),
{
    let a_len = a.len();
    if a_len != b.len() {
        return false;
    }
    for i in 0..a_len
        invariant
            a_len == a@.len(),
            a_len == b@.len(),
            forall|j: int| 0 <= j < i ==> a@[j] == b@[j],
    {
        if a[i] != b[i] {
            return false;
        }
    }
    proof {
        assert(a@ =~= b@);
    }
    true
}

/// A fresh key holding the same bytes.
pub fn copy_key(k: &Key) -> (r: Key)
    ensures
        r@ == k@,
{
    let n = k.len();
    let mut out: Key = Vec::with_capacity(n);
    for i in 0..n
        invariant
            n == k@.len(),
            out@ == k@.take(i as int),
    {
        out.push(k[i]);
        proof {
            assert(k@.take(i + 1) =~= k@.take(i as int).push(k@[i as int]));
        }
    }
    proof {
        assert(k@.take(n as int) =~= k@);
    }
    out
}

/// Whether some stored key equals `key`, by a linear scan.
pub fn vec_contains_key(v: &Vec<Key>, key: &Key) -> (r: bool)
    ensures
        r == keys_view(v@).contains(key@),
{
    let n = v.len();
    for i in 0..n
        invariant
            n == v@.len(),
            forall|j: int| 0 <= j < i ==> keys_view(v@)[j] != key@,
    {
        if keys_equal(&v[i], key) {
            proof {
                assert(keys_view(v@)[i as int] == key@);
            }
            return true;
        }
    }
    false
}

/// Relies on std's `slice::sort` (through `Vec`) for `Vec<u8>` elements: it
/// reorders the keys into ascending order of the documented `Ord` of byte
/// vectors, which is byte-lexicographic, and keeps exactly the same keys.
#[verifier::external_body]
pub(crate) fn sort_keys(keys: &mut Vec<Key>)
    ensures
        keys_sorted(keys_view(final (keys)@)),
        keys_view(final (keys)@).to_multiset() == keys_view(old(keys)@).to_multiset(),
{
    keys.sort();
}

} // verus!
