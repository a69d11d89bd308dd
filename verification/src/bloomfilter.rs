//! Trusted interface to the approximate membership filter of the `bloom`
//! crate.
//!
//! The filter is modelled by the set of keys inserted since it was last
//! empty, and by the number of bits it was built with. Of a membership probe
//! only one direction is stated: an inserted key always answers true (the
//! filter's documented guarantee); a key never inserted may answer either
//! way, so a false probe proves absence and a true probe proves nothing.

use crate::Key;
use vstd::prelude::*;

verus! {

/// The approximate membership filter of the `bloom` crate.
#[verifier::external_type_specification]
#[verifier::external_body]
#[verifier::reject_recursive_types(R)]
#[verifier::reject_recursive_types(S)]
pub struct ExBloomFilter<R, S>(bloom::BloomFilter<R, S>);

/// The keys recorded in the filter since it was last empty.
pub uninterp spec fn bloom_contents(bf: bloom::BloomFilter) -> Set<Seq<u8>>;

/// The number of bits the filter was built with.
pub uninterp spec fn bloom_num_bits(bf: bloom::BloomFilter) -> int;

/// Relies on bloom's `BloomFilter::with_size`: returns a filter of the
/// given geometry with nothing recorded in it.
#[verifier::external_body]
pub(crate) fn bloom_new(num_bits: usize, num_hashes: u32) -> (r: bloom::BloomFilter)
    ensures
        bloom_contents(r) == Set::<Seq<u8>>::empty(),
        bloom_num_bits(r) == num_bits,
{
    bloom::BloomFilter::with_size(num_bits, num_hashes)
}

/// Relies on bloom's `ASMS::insert` for `BloomFilter`: records the key; the
/// filter indexes its bit vector by hash modulo its bit count, so a filter
/// of no bits cannot be probed.
#[verifier::external_body]
pub(crate) fn bloom_insert(bf: &mut bloom::BloomFilter, key: &Key)
    requires
        bloom_num_bits(*old(bf)) >= 1,
    ensures
        bloom_contents(*final (bf)) == bloom_contents(*old(bf)).insert(key@),
        bloom_num_bits(*final (bf)) == bloom_num_bits(*old(bf)),
{
    bloom::ASMS::insert(bf, key);
}

/// Relies on bloom's `ASMS::contains` for `BloomFilter`: a recorded key
/// always answers true ("can return false positives, but not false
/// negatives"), so a false answer proves the key was never recorded.
#[verifier::external_body]
pub(crate) fn bloom_contains(bf: &bloom::BloomFilter, key: &Key) -> (r: bool)
    requires
        bloom_num_bits(*bf) >= 1,
    ensures
        bloom_contents(*bf).contains(key@) ==> r,
{
    bloom::ASMS::contains(bf, key)
}

/// Relies on bloom's `ASMS::clear` for `BloomFilter`: zeroes every bit,
/// leaving the filter with nothing recorded and its geometry unchanged.
#[verifier::external_body]
pub(crate) fn bloom_clear(bf: &mut bloom::BloomFilter)
    ensures
        bloom_contents(*final (bf)) == Set::<Seq<u8>>::empty(),
        bloom_num_bits(*final (bf)) == bloom_num_bits(*old(bf)),
{
    bloom::ASMS::clear(bf);
}

} // verus!
