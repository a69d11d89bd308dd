//! Key Sets: tracking structures for the keys currently valid within a
//! section.
//!
//! All variants answer the same questions — how many keys, get by index,
//! get a random one, remove by index, membership, and a sorted view for
//! range queries — under one contract, trading memory and time differently:
//!
//! * [`VecKeySet`]: a plain sequence; removal shifts, membership scans.
//! * [`VecHashSetKeySet`]: a sequence plus a side set of the distinct keys,
//!   answering membership exactly.
//! * [`VecBloomFilterKeySet`]: a sequence plus an approximate membership
//!   filter, rebuilt wholesale on every removal; membership may answer a
//!   false positive but never a false negative.
//! * [`VecHashMapIndexKeySet`]: a de-duplicating sequence with swap-removal;
//!   pushing a key already present silently drops it.
//!
//! Sorting is lazy: a dirty flag is cleared whenever a pushed key does not
//! extend the ascending order, and [`KeySet::sort`] re-sorts only then, so
//! sorting an already-sorted set changes nothing.

use crate::bloomfilter::bloom_clear;
use crate::bloomfilter::bloom_contains;
use crate::bloomfilter::bloom_contents;
use crate::bloomfilter::bloom_insert;
use crate::bloomfilter::bloom_new;
use crate::bloomfilter::bloom_num_bits;
use crate::order::copy_key;
use crate::order::key_leq;
use crate::order::keys_equal;
use crate::order::keys_sorted;
use crate::order::keys_view;
use crate::order::lemma_lex_leq_transitive;
use crate::order::sort_keys;
use crate::order::vec_contains_key;
use crate::Key;
use vstd::prelude::*;
use vstd::seq_lib::group_to_multiset_ensures;

verus! {

/// Viewing key storage commutes with appending a key.
pub(crate) proof fn lemma_view_push(v: Seq<Key>, k: Key)
    ensures
        keys_view(v.push(k)) =~= keys_view(v).push(k@),
{
}

/// Viewing key storage commutes with removing a key.
pub(crate) proof fn lemma_view_remove(v: Seq<Key>, i: int)
    requires
        0 <= i < v.len(),
    ensures
        keys_view(v.remove(i)) =~= keys_view(v).remove(i),
{
}

/// An ascending sequence stays ascending when a key at least its last is
/// appended.
pub(crate) proof fn lemma_sorted_push(s: Seq<Seq<u8>>, k: Seq<u8>)
    requires
        keys_sorted(s),
        s.len() == 0 || crate::order::lex_leq(s.last(), k),
    ensures
        keys_sorted(s.push(k)),
{
    let t = s.push(k);
    assert forall|i: int, j: int| 0 <= i < j < t.len() implies crate::order::lex_leq(
        #[trigger] t[i],
        #[trigger] t[j],
    ) by {
        if j < s.len() {
        } else {
            if i < s.len() - 1 {
                assert(crate::order::lex_leq(s[i], s.last()));
                lemma_lex_leq_transitive(s[i], s.last(), k);
            }
        }
    }
}

/// An ascending sequence stays ascending when a key is removed.
pub(crate) proof fn lemma_sorted_remove(s: Seq<Seq<u8>>, i: int)
    requires
        keys_sorted(s),
        0 <= i < s.len(),
    ensures
        keys_sorted(s.remove(i)),
{
    let t = s.remove(i);
    assert forall|x: int, y: int| 0 <= x < y < t.len() implies crate::order::lex_leq(
        #[trigger] t[x],
        #[trigger] t[y],
    ) by {
        let x0 = if x < i {
            x
        } else {
            x + 1
        };
        let y0 = if y < i {
            y
        } else {
            y + 1
        };
        assert(t[x] == s[x0]);
        assert(t[y] == s[y0]);
    }
}

/// Sequences with equal multisets have the same members.
pub(crate) proof fn lemma_multiset_members(s1: Seq<Seq<u8>>, s2: Seq<Seq<u8>>)
    requires
        s1.to_multiset() == s2.to_multiset(),
    ensures
        forall|x: Seq<u8>| s1.contains(x) == s2.contains(x),
{
    broadcast use group_to_multiset_ensures;

    assert forall|x: Seq<u8>| s1.contains(x) == s2.contains(x) by {
        assert(s1.contains(x) <==> s1.to_multiset().count(x) > 0);
        assert(s2.contains(x) <==> s2.to_multiset().count(x) > 0);
    }
}

/// A key is among the keys after a push exactly when it was there before or
/// is the pushed key.
pub(crate) proof fn lemma_push_members(s: Seq<Seq<u8>>, a: Seq<u8>, x: Seq<u8>)
    ensures
        s.push(a).contains(x) == (s.contains(x) || x == a),
{
    let t = s.push(a);
    if t.contains(x) {
        let m = choose|m: int| 0 <= m < t.len() && t[m] == x;
        if m < s.len() {
            assert(s[m] == x);
        }
    }
    if s.contains(x) {
        let m = choose|m: int| 0 <= m < s.len() && s[m] == x;
        assert(t[m] == x);
    }
    if x == a {
        assert(t[s.len() as int] == x);
    }
}

/// Pushing a key not yet present keeps a sequence duplicate-free.
pub(crate) proof fn lemma_no_dup_push(s: Seq<Seq<u8>>, a: Seq<u8>)
    requires
        s.no_duplicates(),
        !s.contains(a),
    ensures
        s.push(a).no_duplicates(),
{
    let t = s.push(a);
    assert forall|x: int, y: int| 0 <= x < y < t.len() implies t[x] != t[y] by {
        if y == s.len() {
            assert(t[x] == s[x]);
            if s[x] == a {
                assert(s.contains(a));
            }
        }
    }
}

/// Removing one key keeps every other key's membership, and introduces
/// nothing new.
pub(crate) proof fn lemma_remove_members(s: Seq<Seq<u8>>, i: int, x: Seq<u8>)
    requires
        0 <= i < s.len(),
    ensures
        s.remove(i).contains(x) ==> s.contains(x),
        x != s[i] && s.contains(x) ==> s.remove(i).contains(x),
{
    let t = s.remove(i);
    if t.contains(x) {
        let m = choose|m: int| 0 <= m < t.len() && t[m] == x;
        let m0 = if m < i {
            m
        } else {
            m + 1
        };
        assert(s[m0] == x);
    }
    if x != s[i] && s.contains(x) {
        let m = choose|m: int| 0 <= m < s.len() && s[m] == x;
        if m < i {
            assert(t[m] == x);
        } else {
            assert(t[m - 1] == x);
        }
    }
}

/// The contract every Key Set variant answers to. `keys()` is the sequence
/// of currently valid keys in storage order; all membership and ordering
/// talk is about it.
pub trait KeySet: Sized {
    /// The currently valid keys, in storage order.
    spec fn keys(&self) -> Seq<Seq<u8>>;

    /// Internal well-formedness, established by `new` and kept by every
    /// method.
    spec fn inv(&self) -> bool;

    /// Whether the variant already knows its keys to be in ascending order,
    /// so that `sort` changes nothing.
    spec fn sorted_state(&self) -> bool;

    /// Whether pushing keeps duplicate keys (true) or collapses repeated
    /// pushes of one key (false).
    spec fn allows_duplicates() -> bool;

    /// A fresh, empty set, sized for roughly `capacity` keys.
    fn new(capacity: usize) -> (s: Self)
        ensures
            s.inv(),
            s.keys() == Seq::<Seq<u8>>::empty(),
    ;

    /// How many keys are currently valid.
    fn len(&self) -> (r: usize)
        requires
            self.inv(),
        ensures
            r == self.keys().len(),
    ;

    /// Whether no key is currently valid.
    fn is_empty(&self) -> (r: bool)
        requires
            self.inv(),
        ensures
            r == (self.keys().len() == 0),
    ;

    /// Makes `key` valid. Duplicate-keeping variants always append it;
    /// de-duplicating variants drop it if an equal key is already valid.
    fn push(&mut self, key: Key)
        requires
            old(self).inv(),
        ensures
            final (self).inv(),
            Self::allows_duplicates() ==> final (self).keys() == old(self).keys().push(key@),
            !Self::allows_duplicates() ==> final (self).keys() == (if old(self).keys().contains(
                key@,
            ) {
                old(self).keys()
            } else {
                old(self).keys().push(key@)
            }),
    ;

    /// Removes and returns the key at `idx`. The order of the remaining
    /// keys is the variant's own affair; their multiset is the old one less
    /// the removed key.
    fn remove(&mut self, idx: usize) -> (r: Key)
        requires
            old(self).inv(),
            idx < old(self).keys().len(),
        ensures
            final (self).inv(),
            r@ == old(self).keys()[idx as int],
            final (self).keys().len() == old(self).keys().len() - 1,
            final (self).keys().to_multiset() == old(self).keys().to_multiset().remove(r@),
    ;

    /// The key at `idx`, if any.
    fn get(&self, idx: usize) -> (r: Option<&Key>)
        requires
            self.inv(),
        ensures
            (match r {
                Some(k) => idx < self.keys().len() && k@ == self.keys()[idx as int],
                None => idx >= self.keys().len(),
            }),
    ;

    /// A uniformly random currently-valid key.
    fn get_random<'a>(&'a self, rng: &mut rand_xoshiro::Xoshiro256Plus) -> (r: &'a Key)
        requires
            self.inv(),
            self.keys().len() >= 1,
        ensures
            self.keys().contains(r@),
    ;

    /// Whether `key` is currently valid. A true answer may be approximate
    /// in some variants; a false answer always means the key is not valid.
    fn contains(&self, key: &Key) -> (r: bool)
        requires
            self.inv(),
        ensures
            self.keys().contains(key@) ==> r,
    ;

    /// Establishes ascending byte order for subsequent `get` access.
    /// Idempotent: sorting a set that already knows itself sorted changes
    /// nothing.
    fn sort(&mut self)
        requires
            old(self).inv(),
        ensures
            final (self).inv(),
            keys_sorted(final (self).keys()),
            final (self).keys().to_multiset() == old(self).keys().to_multiset(),
            final (self).sorted_state(),
            old(self).sorted_state() ==> *final (self) == *old(self),
    ;
}

/// A plain sequence of keys: cheapest when deletes and membership tests are
/// rare. Removal shifts the tail; membership is a linear scan.
pub struct VecKeySet {
    keys: Vec<Key>,
    sorted: bool,
}

impl KeySet for VecKeySet {
    closed spec fn keys(&self) -> Seq<Seq<u8>> {
        keys_view(self.keys@)
    }

    closed spec fn inv(&self) -> bool {
        self.sorted ==> keys_sorted(keys_view(self.keys@))
    }

    closed spec fn sorted_state(&self) -> bool {
        self.sorted
    }

    open spec fn allows_duplicates() -> bool {
        true
    }

    fn new(capacity: usize) -> (s: Self) {
        let s = VecKeySet { keys: Vec::with_capacity(capacity), sorted: true };
        proof {
            assert(keys_view(s.keys@) =~= Seq::<Seq<u8>>::empty());
        }
        s
    }

    fn len(&self) -> (r: usize) {
        self.keys.len()
    }

    fn is_empty(&self) -> (r: bool) {
        self.keys.len() == 0
    }

    fn push(&mut self, key: Key) {
        let l = self.keys.len();
        if self.sorted && l > 0 {
            if !key_leq(&self.keys[l - 1], &key) {
                self.sorted = false;
            }
        }
        proof {
            lemma_view_push(self.keys@, key);
            if self.sorted {
                lemma_sorted_push(keys_view(self.keys@), key@);
            }
        }
        self.keys.push(key);
    }

    fn remove(&mut self, idx: usize) -> (r: Key)
        ensures
            final (self).keys() == old(self).keys().remove(idx as int),
    {
        proof {
            lemma_view_remove(self.keys@, idx as int);
            if self.sorted {
                lemma_sorted_remove(keys_view(self.keys@), idx as int);
            }
            broadcast use group_to_multiset_ensures;
        }
        self.keys.remove(idx)
    }

    fn get(&self, idx: usize) -> (r: Option<&Key>) {
        if idx < self.keys.len() {
            Some(&self.keys[idx])
        } else {
            None
        }
    }

    fn get_random<'a>(&'a self, rng: &mut rand_xoshiro::Xoshiro256Plus) -> (r: &'a Key) {
        let idx = crate::rng::rng_below(rng, self.keys.len());
        proof {
            assert(keys_view(self.keys@)[idx as int] == self.keys@[idx as int]@);
        }
        &self.keys[idx]
    }

    fn contains(&self, key: &Key) -> (r: bool)
        ensures
            r == self.keys().contains(key@),
    {
        vec_contains_key(&self.keys, key)
    }

    fn sort(&mut self) {
        if !self.sorted {
            sort_keys(&mut self.keys);
            self.sorted = true;
        }
    }
}

/// A sequence of keys plus a side set of the distinct keys among them, at
/// the cost of double storage and double mutation: membership is answered
/// exactly from the side set, which holds each valid key once however
/// often it recurs in the sequence.
pub struct VecHashSetKeySet {
    keys: Vec<Key>,
    key_set: Vec<Key>,
    sorted: bool,
}

impl VecHashSetKeySet {
    /// The side set holds each distinct valid key exactly once.
    closed spec fn side_set_ok(&self) -> bool {
        &&& keys_view(self.key_set@).no_duplicates()
        &&& forall|x: Seq<u8>|
            keys_view(self.key_set@).contains(x) == keys_view(self.keys@).contains(x)
    }
}

impl KeySet for VecHashSetKeySet {
    closed spec fn keys(&self) -> Seq<Seq<u8>> {
        keys_view(self.keys@)
    }

    closed spec fn inv(&self) -> bool {
        &&& self.sorted ==> keys_sorted(keys_view(self.keys@))
        &&& self.side_set_ok()
    }

    closed spec fn sorted_state(&self) -> bool {
        self.sorted
    }

    open spec fn allows_duplicates() -> bool {
        true
    }

    fn new(capacity: usize) -> (s: Self) {
        let s = VecHashSetKeySet {
            keys: Vec::with_capacity(capacity),
            key_set: Vec::new(),
            sorted: true,
        };
        proof {
            assert(keys_view(s.keys@) =~= Seq::<Seq<u8>>::empty());
            assert(keys_view(s.key_set@) =~= Seq::<Seq<u8>>::empty());
        }
        s
    }

    fn len(&self) -> (r: usize) {
        self.keys.len()
    }

    fn is_empty(&self) -> (r: bool) {
        self.keys.len() == 0
    }

    fn push(&mut self, key: Key) {
        let ghost kv = key@;
        let ghost old_keys = keys_view(self.keys@);
        let ghost old_set = keys_view(self.key_set@);
        let l = self.keys.len();
        if self.sorted && l > 0 {
            if !key_leq(&self.keys[l - 1], &key) {
                self.sorted = false;
            }
        }
        let in_set = vec_contains_key(&self.key_set, &key);
        if !in_set {
            let kcopy = copy_key(&key);
            proof {
                lemma_view_push(self.key_set@, kcopy);
            }
            self.key_set.push(kcopy);
        }
        proof {
            lemma_view_push(self.keys@, key);
        }
        self.keys.push(key);
        proof {
            if self.sorted {
                lemma_sorted_push(old_keys, kv);
            }
            assert forall|x: Seq<u8>|
                keys_view(self.key_set@).contains(x) == keys_view(self.keys@).contains(x) by {
                lemma_push_members(old_keys, kv, x);
                if !in_set {
                    lemma_push_members(old_set, kv, x);
                }
            }
            if !in_set {
                lemma_no_dup_push(old_set, kv);
            }
        }
    }

    fn remove(&mut self, idx: usize) -> (r: Key)
        ensures
            final (self).keys() == old(self).keys().remove(idx as int),
    {
        let ghost old_keys = keys_view(self.keys@);
        let ghost old_set = keys_view(self.key_set@);
        proof {
            lemma_view_remove(self.keys@, idx as int);
            if self.sorted {
                lemma_sorted_remove(keys_view(self.keys@), idx as int);
            }
        }
        let removed = self.keys.remove(idx);
        proof {
            broadcast use group_to_multiset_ensures;

            assert(keys_view(self.keys@) == old_keys.remove(idx as int));
        }
        if !vec_contains_key(&self.keys, &removed) {
            // The last copy left the sequence: drop the key from the side
            // set as well.
            proof {
                assert(old_keys.contains(removed@)) by {
                    assert(old_keys[idx as int] == removed@);
                }
                assert(old_set.contains(removed@));
            }
            remove_key_once(&mut self.key_set, &removed);
            proof {
                let j = choose|j: int|
                    0 <= j < old_set.len() && old_set[j] == removed@ && keys_view(self.key_set@)
                        == old_set.remove(j);
                lemma_no_dup_remove_gone(old_set, j);
                lemma_no_dup_remove(old_set, j);
                assert forall|x: Seq<u8>|
                    keys_view(self.key_set@).contains(x) == keys_view(self.keys@).contains(
                    x,
                ) by {
                    lemma_remove_members(old_set, j, x);
                    lemma_remove_members(old_keys, idx as int, x);
                }
            }
        } else {
            proof {
                assert forall|x: Seq<u8>|
                    keys_view(self.key_set@).contains(x) == keys_view(self.keys@).contains(
                    x,
                ) by {
                    lemma_remove_members(old_keys, idx as int, x);
                }
            }
        }
        removed
    }

    fn get(&self, idx: usize) -> (r: Option<&Key>) {
        if idx < self.keys.len() {
            Some(&self.keys[idx])
        } else {
            None
        }
    }

    fn get_random<'a>(&'a self, rng: &mut rand_xoshiro::Xoshiro256Plus) -> (r: &'a Key) {
        let idx = crate::rng::rng_below(rng, self.keys.len());
        proof {
            assert(keys_view(self.keys@)[idx as int] == self.keys@[idx as int]@);
        }
        &self.keys[idx]
    }

    fn contains(&self, key: &Key) -> (r: bool)
        ensures
            r == self.keys().contains(key@),
    {
        vec_contains_key(&self.key_set, key)
    }

    fn sort(&mut self) {
        if !self.sorted {
            let ghost before = keys_view(self.keys@);
            sort_keys(&mut self.keys);
            self.sorted = true;
            proof {
                lemma_multiset_members(keys_view(self.keys@), before);
            }
        }
    }
}

/// Removes the first stored key equal to `key`; one must be present.
fn remove_key_once(v: &mut Vec<Key>, key: &Key)
    requires
        keys_view(old(v)@).contains(key@),
    ensures
        exists|j: int|
            0 <= j < keys_view(old(v)@).len() && keys_view(old(v)@)[j] == key@ && keys_view(
                final (v)@,
            ) == keys_view(old(v)@).remove(j),
{
    let n = v.len();
    for j in 0..n
        invariant
            n == v@.len(),
            v@ == old(v)@,
            keys_view(old(v)@).contains(key@),
            forall|m: int| 0 <= m < j ==> keys_view(v@)[m] != key@,
    {
        if keys_equal(&v[j], key) {
            proof {
                lemma_view_remove(v@, j as int);
                assert(keys_view(v@)[j as int] == key@);
            }
            v.remove(j);
            return ;
        }
    }
    proof {
        let m = choose|m: int| 0 <= m < keys_view(v@).len() && keys_view(v@)[m] == key@;
        assert(false);
    }
}

/// A duplicate-free sequence no longer holds a key once its index is
/// removed.
proof fn lemma_no_dup_remove_gone(s: Seq<Seq<u8>>, j: int)
    requires
        s.no_duplicates(),
        0 <= j < s.len(),
    ensures
        !s.remove(j).contains(s[j]),
{
    let t = s.remove(j);
    if t.contains(s[j]) {
        let m = choose|m: int| 0 <= m < t.len() && t[m] == s[j];
        let m0 = if m < j {
            m
        } else {
            m + 1
        };
        assert(s[m0] == s[j]);
    }
}

/// Removing an element from a duplicate-free sequence keeps it
/// duplicate-free.
proof fn lemma_no_dup_remove(s: Seq<Seq<u8>>, i: int)
    requires
        s.no_duplicates(),
        0 <= i < s.len(),
    ensures
        s.remove(i).no_duplicates(),
{
    let t = s.remove(i);
    assert forall|x: int, y: int| 0 <= x < y < t.len() implies t[x] != t[y] by {
        let x0 = if x < i {
            x
        } else {
            x + 1
        };
        let y0 = if y < i {
            y
        } else {
            y + 1
        };
        assert(t[x] == s[x0]);
        assert(t[y] == s[y0]);
    }
}

/// A sequence of keys plus an approximate membership filter with a roughly
/// one-percent false-positive rate: amortised constant membership with a
/// false-positive risk but no false negatives. The filter does not support
/// removal, so it is rebuilt wholesale on every removal.
pub struct VecBloomFilterKeySet {
    keys: Vec<Key>,
    bf: bloom::BloomFilter,
    sorted: bool,
}

impl VecBloomFilterKeySet {
    /// Every valid key is recorded in the filter.
    closed spec fn filter_covers(&self) -> bool {
        forall|i: int|
            0 <= i < keys_view(self.keys@).len() ==> bloom_contents(self.bf).contains(
                #[trigger] keys_view(self.keys@)[i],
            )
    }
}

impl KeySet for VecBloomFilterKeySet {
    closed spec fn keys(&self) -> Seq<Seq<u8>> {
        keys_view(self.keys@)
    }

    closed spec fn inv(&self) -> bool {
        &&& self.sorted ==> keys_sorted(keys_view(self.keys@))
        &&& bloom_num_bits(self.bf) >= 1
        &&& self.filter_covers()
    }

    closed spec fn sorted_state(&self) -> bool {
        self.sorted
    }

    open spec fn allows_duplicates() -> bool {
        true
    }

    fn new(capacity: usize) -> (s: Self) {
        // Ten bits per expected key with seven hash rounds approximates a
        // one-percent false-positive rate; the floor keeps the filter
        // non-degenerate for tiny capacities.
        let bits128: u128 = capacity as u128 * 10 + 64;
        let bits: usize = if bits128 > usize::MAX as u128 {
            usize::MAX
        } else {
            bits128 as usize
        };
        let s = VecBloomFilterKeySet {
            keys: Vec::with_capacity(capacity),
            bf: bloom_new(bits, 7),
            sorted: true,
        };
        proof {
            assert(keys_view(s.keys@) =~= Seq::<Seq<u8>>::empty());
        }
        s
    }

    fn len(&self) -> (r: usize) {
        self.keys.len()
    }

    fn is_empty(&self) -> (r: bool) {
        self.keys.len() == 0
    }

    fn push(&mut self, key: Key)
        ensures
            final (self).keys() == old(self).keys().push(key@),
    {
        let ghost kv = key@;
        let ghost old_keys = keys_view(self.keys@);
        let l = self.keys.len();
        if self.sorted && l > 0 {
            if !key_leq(&self.keys[l - 1], &key) {
                self.sorted = false;
            }
        }
        bloom_insert(&mut self.bf, &key);
        proof {
            lemma_view_push(self.keys@, key);
        }
        self.keys.push(key);
        proof {
            if self.sorted {
                lemma_sorted_push(old_keys, kv);
            }
        }
    }

    fn remove(&mut self, idx: usize) -> (r: Key)
        ensures
            final (self).keys() == old(self).keys().remove(idx as int),
    {
        proof {
            lemma_view_remove(self.keys@, idx as int);
            if self.sorted {
                lemma_sorted_remove(keys_view(self.keys@), idx as int);
            }
            broadcast use group_to_multiset_ensures;
        }
        let removed = self.keys.remove(idx);
        // Approximate filters do not support removal: rebuild from scratch.
        bloom_clear(&mut self.bf);
        let ghost ks = self.keys@;
        let ghost sflag = self.sorted;
        let n = self.keys.len();
        for i in 0..n
            invariant
                n == self.keys@.len(),
                self.keys@ == ks,
                self.sorted == sflag,
                bloom_num_bits(self.bf) >= 1,
                forall|j: int|
                    0 <= j < i ==> bloom_contents(self.bf).contains(
                        #[trigger] keys_view(self.keys@)[j],
                    ),
        {
            bloom_insert(&mut self.bf, &self.keys[i]);
            proof {
                assert(keys_view(self.keys@)[i as int] == self.keys@[i as int]@);
            }
        }
        removed
    }

    fn get(&self, idx: usize) -> (r: Option<&Key>) {
        if idx < self.keys.len() {
            Some(&self.keys[idx])
        } else {
            None
        }
    }

    fn get_random<'a>(&'a self, rng: &mut rand_xoshiro::Xoshiro256Plus) -> (r: &'a Key) {
        let idx = crate::rng::rng_below(rng, self.keys.len());
        proof {
            assert(keys_view(self.keys@)[idx as int] == self.keys@[idx as int]@);
        }
        &self.keys[idx]
    }

    fn contains(&self, key: &Key) -> (r: bool) {
        let r = bloom_contains(&self.bf, key);
        proof {
            if keys_view(self.keys@).contains(key@) {
                let i = choose|i: int|
                    0 <= i < keys_view(self.keys@).len() && keys_view(self.keys@)[i] == key@;
                assert(bloom_contents(self.bf).contains(keys_view(self.keys@)[i]));
            }
        }
        r
    }

    fn sort(&mut self) {
        if !self.sorted {
            let ghost before = keys_view(self.keys@);
            sort_keys(&mut self.keys);
            self.sorted = true;
            proof {
                lemma_multiset_members(keys_view(self.keys@), before);
                assert forall|i: int| 0 <= i < keys_view(self.keys@).len() implies bloom_contents(
                    self.bf,
                ).contains(#[trigger] keys_view(self.keys@)[i]) by {
                    let x = keys_view(self.keys@)[i];
                    assert(keys_view(self.keys@).contains(x));
                    assert(before.contains(x));
                    let j = choose|j: int| 0 <= j < before.len() && before[j] == x;
                    assert(bloom_contents(self.bf).contains(before[j]));
                }
            }
        }
    }
}

/// A de-duplicating sequence of keys with swap-removal: pushing a key that
/// is already valid silently drops it, removal replaces the removed slot
/// with the last key, and membership is exact. The design leaves room for
/// a key-to-index map beside the sequence for constant-time membership;
/// the contract is over the sequence alone.
pub struct VecHashMapIndexKeySet {
    keys: Vec<Key>,
    sorted: bool,
}

impl KeySet for VecHashMapIndexKeySet {
    closed spec fn keys(&self) -> Seq<Seq<u8>> {
        keys_view(self.keys@)
    }

    closed spec fn inv(&self) -> bool {
        &&& self.sorted ==> keys_sorted(keys_view(self.keys@))
        &&& keys_view(self.keys@).no_duplicates()
    }

    closed spec fn sorted_state(&self) -> bool {
        self.sorted
    }

    open spec fn allows_duplicates() -> bool {
        false
    }

    fn new(capacity: usize) -> (s: Self) {
        let s = VecHashMapIndexKeySet { keys: Vec::with_capacity(capacity), sorted: true };
        proof {
            assert(keys_view(s.keys@) =~= Seq::<Seq<u8>>::empty());
        }
        s
    }

    fn len(&self) -> (r: usize) {
        self.keys.len()
    }

    fn is_empty(&self) -> (r: bool) {
        self.keys.len() == 0
    }

    fn push(&mut self, key: Key) {
        let ghost kv = key@;
        let ghost old_keys = keys_view(self.keys@);
        if vec_contains_key(&self.keys, &key) {
            // Already valid: this variant de-duplicates.
            return ;
        }
        let l = self.keys.len();
        if self.sorted && l > 0 {
            if !key_leq(&self.keys[l - 1], &key) {
                self.sorted = false;
            }
        }
        proof {
            lemma_view_push(self.keys@, key);
            lemma_no_dup_push(old_keys, kv);
        }
        self.keys.push(key);
        proof {
            if self.sorted {
                lemma_sorted_push(old_keys, kv);
            }
        }
    }

    fn remove(&mut self, idx: usize) -> (r: Key)
        ensures
            final (self).keys() == old(self).keys().update(
                idx as int,
                old(self).keys().last(),
            ).drop_last(),
    {
        let ghost s = keys_view(self.keys@);
        let l = self.keys.len();
        if idx + 1 != l {
            // Swap-removal reorders the tail, so the ascending order is no
            // longer known.
            self.sorted = false;
        }
        let removed = self.keys.swap_remove(idx);
        proof {
            assert(keys_view(self.keys@) =~= s.update(idx as int, s.last()).drop_last());
            lemma_swap_remove_multiset(s, idx as int);
            broadcast use group_to_multiset_ensures;

            s.lemma_multiset_has_no_duplicates();
            assert forall|x: Seq<u8>|
                keys_view(self.keys@).to_multiset().contains(x) implies keys_view(
                self.keys@,
            ).to_multiset().count(x) == 1 by {
                assert(keys_view(self.keys@).to_multiset().count(x) <= s.to_multiset().count(x));
            }
            keys_view(self.keys@).lemma_multiset_has_no_duplicates_conv();
            if self.sorted {
                assert(idx + 1 == l);
                assert(s.update(idx as int, s.last()) =~= s);
                assert(s.drop_last() =~= s.remove(l - 1));
                lemma_sorted_remove(s, l - 1);
            }
        }
        removed
    }

    fn get(&self, idx: usize) -> (r: Option<&Key>) {
        if idx < self.keys.len() {
            Some(&self.keys[idx])
        } else {
            None
        }
    }

    fn get_random<'a>(&'a self, rng: &mut rand_xoshiro::Xoshiro256Plus) -> (r: &'a Key) {
        let idx = crate::rng::rng_below(rng, self.keys.len());
        proof {
            assert(keys_view(self.keys@)[idx as int] == self.keys@[idx as int]@);
        }
        &self.keys[idx]
    }

    fn contains(&self, key: &Key) -> (r: bool)
        ensures
            r == self.keys().contains(key@),
    {
        vec_contains_key(&self.keys, key)
    }

    fn sort(&mut self) {
        if !self.sorted {
            let ghost before = keys_view(self.keys@);
            sort_keys(&mut self.keys);
            self.sorted = true;
            proof {
                broadcast use group_to_multiset_ensures;

                before.lemma_multiset_has_no_duplicates();
                keys_view(self.keys@).lemma_multiset_has_no_duplicates_conv();
            }
        }
    }
}

/// Replacing the removed slot with the last key and truncating removes
/// exactly one copy of the removed key from the multiset.
proof fn lemma_swap_remove_multiset(s: Seq<Seq<u8>>, i: int)
    requires
        0 <= i < s.len(),
    ensures
        s.update(i, s.last()).drop_last().to_multiset() == s.to_multiset().remove(s[i]),
{
    broadcast use group_to_multiset_ensures;
    broadcast use vstd::multiset::group_multiset_axioms;

    let l = s.len() as int;
    if i == l - 1 {
        assert(s.update(i, s.last()) =~= s);
        assert(s.drop_last() =~= s.remove(l - 1));
    } else {
        let u = s.update(i, s.last());
        assert(u.to_multiset() == s.to_multiset().insert(s.last()).remove(s[i]));
        assert(u.drop_last() =~= u.remove(l - 1));
        assert(u[l - 1] == s.last());
        assert(u.remove(l - 1).to_multiset() == u.to_multiset().remove(s.last()));
        assert(s.to_multiset().contains(s[i])) by {
            assert(s.contains(s[i]));
        }
        assert(u.drop_last().to_multiset() =~= s.to_multiset().remove(s[i]));
    }
}

} // verus!
