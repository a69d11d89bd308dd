use workload_gen::keyset::{
    KeySet, VecBloomFilterKeySet, VecHashMapIndexKeySet, VecHashSetKeySet, VecKeySet,
};
use workload_gen::rng::{rng_alnum_string, rng_below, rng_from_seed};
use workload_gen::sequence::{gen_absent_key, pick_range_bounds};

fn key(s: &str) -> Vec<u8> {
    s.as_bytes().to_vec()
}

#[test]
fn vec_keyset_push_get_remove() {
    let mut ks = VecKeySet::new(4);
    assert!(ks.is_empty());
    ks.push(key("bb"));
    ks.push(key("aa"));
    ks.push(key("cc"));
    assert_eq!(ks.len(), 3);
    assert_eq!(ks.get(0), Some(&key("bb")));
    assert_eq!(ks.get(1), Some(&key("aa")));
    assert_eq!(ks.get(3), None);
    assert!(ks.contains(&key("aa")));
    assert!(!ks.contains(&key("zz")));
    let removed = ks.remove(1);
    assert_eq!(removed, key("aa"));
    assert_eq!(ks.len(), 2);
    assert!(!ks.contains(&key("aa")));
    assert_eq!(ks.get(1), Some(&key("cc")));
}

#[test]
fn vec_keyset_sort_orders_and_is_idempotent() {
    let mut ks = VecKeySet::new(4);
    ks.push(key("cc"));
    ks.push(key("aa"));
    ks.push(key("b"));
    ks.sort();
    assert_eq!(ks.get(0), Some(&key("aa")));
    assert_eq!(ks.get(1), Some(&key("b")));
    assert_eq!(ks.get(2), Some(&key("cc")));
    // Sorting again changes nothing.
    ks.sort();
    assert_eq!(ks.get(0), Some(&key("aa")));
    assert_eq!(ks.get(1), Some(&key("b")));
    assert_eq!(ks.get(2), Some(&key("cc")));
}

#[test]
fn vec_keyset_keeps_duplicates() {
    let mut ks = VecKeySet::new(4);
    ks.push(key("aa"));
    ks.push(key("aa"));
    assert_eq!(ks.len(), 2);
}

#[test]
fn hash_set_keyset_membership_survives_duplicate_removal() {
    let mut ks = VecHashSetKeySet::new(4);
    ks.push(key("aa"));
    ks.push(key("aa"));
    ks.push(key("bb"));
    assert_eq!(ks.len(), 3);
    // One copy of a duplicated key leaves; the key stays valid.
    let removed = ks.remove(0);
    assert_eq!(removed, key("aa"));
    assert!(ks.contains(&key("aa")));
    // The last copy leaves; the key is no longer valid.
    let removed = ks.remove(0);
    assert_eq!(removed, key("aa"));
    assert!(!ks.contains(&key("aa")));
    assert!(ks.contains(&key("bb")));
}

#[test]
fn hash_map_index_keyset_deduplicates() {
    let mut ks = VecHashMapIndexKeySet::new(4);
    ks.push(key("aa"));
    ks.push(key("aa"));
    assert_eq!(ks.len(), 1);
    ks.push(key("bb"));
    ks.push(key("cc"));
    assert_eq!(ks.len(), 3);
    // Swap-removal: the removed position is taken over by the last key.
    let removed = ks.remove(0);
    assert_eq!(removed, key("aa"));
    assert_eq!(ks.len(), 2);
    assert!(!ks.contains(&key("aa")));
    assert!(ks.contains(&key("bb")));
    assert!(ks.contains(&key("cc")));
    assert_eq!(ks.get(0), Some(&key("cc")));
}

#[test]
fn hash_map_index_keyset_sorts() {
    let mut ks = VecHashMapIndexKeySet::new(4);
    ks.push(key("cc"));
    ks.push(key("aa"));
    ks.push(key("bb"));
    ks.sort();
    assert_eq!(ks.get(0), Some(&key("aa")));
    assert_eq!(ks.get(1), Some(&key("bb")));
    assert_eq!(ks.get(2), Some(&key("cc")));
}

#[test]
fn bloom_keyset_never_denies_a_valid_key() {
    let mut ks = VecBloomFilterKeySet::new(64);
    let mut rng = rng_from_seed(20);
    let mut pushed = Vec::new();
    for _ in 0..64 {
        let k = rng_alnum_string(&mut rng, 8);
        ks.push(k.clone());
        pushed.push(k);
    }
    // An approximate filter may answer a false positive, never a false
    // negative: every valid key answers true.
    for k in &pushed {
        assert!(ks.contains(k));
    }
    // Removal rebuilds the filter; the remaining keys still answer true.
    ks.remove(0);
    for k in &pushed[1..] {
        assert!(ks.contains(k));
    }
}

#[test]
fn bloom_keyset_get_random_returns_valid_key() {
    let mut ks = VecBloomFilterKeySet::new(4);
    ks.push(key("aa"));
    ks.push(key("bb"));
    let mut rng = rng_from_seed(21);
    for _ in 0..10 {
        let k = ks.get_random(&mut rng);
        assert!(*k == key("aa") || *k == key("bb"));
    }
}

#[test]
fn absent_key_generation_avoids_valid_keys() {
    let mut ks = VecBloomFilterKeySet::new(4);
    ks.push(key("aaaa"));
    ks.push(key("bbbb"));
    let mut rng = rng_from_seed(22);
    for _ in 0..100 {
        let k = gen_absent_key(&ks, &mut rng, 4).unwrap();
        assert_eq!(k.len(), 4);
        assert!(k.iter().all(|b| b.is_ascii_alphanumeric()));
        assert_ne!(k, key("aaaa"));
        assert_ne!(k, key("bbbb"));
    }
}

#[test]
fn range_bounds_span_the_selected_fraction() {
    let mut ks = VecBloomFilterKeySet::new(4);
    ks.push(key("aa"));
    ks.push(key("bb"));
    ks.push(key("cc"));
    ks.push(key("dd"));
    ks.sort();
    let mut rng = rng_from_seed(23);
    for _ in 0..20 {
        // Half of four keys: bounds two sorted positions apart.
        let (k1, k2) = pick_range_bounds(&ks, &mut rng, 500_000);
        assert!(k1 <= k2);
        let pair = (k1.as_slice(), k2.as_slice());
        assert!(pair == (b"aa", b"cc") || pair == (b"bb", b"dd"));
    }
    for _ in 0..20 {
        // Full selectivity is capped just below the whole set.
        let (k1, k2) = pick_range_bounds(&ks, &mut rng, 1_000_000);
        assert_eq!(k1.as_slice(), b"aa");
        assert_eq!(k2.as_slice(), b"dd");
    }
    for _ in 0..20 {
        // Zero selectivity: both bounds fall on one key.
        let (k1, k2) = pick_range_bounds(&ks, &mut rng, 0);
        assert_eq!(k1, k2);
    }
}

#[test]
fn alnum_strings_have_length_and_alphabet() {
    let mut rng = rng_from_seed(24);
    for len in [0usize, 1, 7, 64] {
        let s = rng_alnum_string(&mut rng, len);
        assert_eq!(s.len(), len);
        assert!(s.iter().all(|b| b.is_ascii_alphanumeric()));
    }
}

#[test]
fn bounded_samples_stay_below_bound() {
    let mut rng = rng_from_seed(25);
    for _ in 0..100 {
        assert!(rng_below(&mut rng, 3) < 3);
    }
    assert_eq!(rng_below(&mut rng, 1), 0);
}
