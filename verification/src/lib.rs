//! Generator of operation streams for benchmarking key-value storage engines.
//!
//! A declarative workload specification describes, per section and group, how
//! many operations of each kind to produce and with what key and value sizes.
//! The library expands such a specification into a textual stream of insert,
//! update, delete, point-query and range-query operations whose key references
//! are always valid relative to the operations emitted before them.

//! The crate is laid out leaf to root: [`model`] holds the specification
//! data model and its pre-flight operation and byte counts; [`order`] the
//! byte-lexicographic ordering of keys; [`keyset`] the valid-key tracking
//! structures; [`rng`] and [`bloomfilter`] the trusted edges to the random
//! generator and the approximate membership filter; [`emit`] the line
//! formatter; and [`sequence`] the sequencing engine around
//! [`write_operations`].

use vstd::prelude::*;

pub mod bloomfilter;
pub mod emit;
pub mod keyset;
pub mod model;
pub mod order;
pub mod rng;
pub mod sequence;

pub use crate::sequence::write_operations;
pub use crate::sequence::WorkloadError;

verus! {

/// A key or value: a byte string drawn from the alphanumeric alphabet.
pub type Key = Vec<u8>;

/// The byte is in the alphanumeric alphabet `[A-Za-z0-9]` that keys and
/// values are drawn from.
pub open spec fn is_alnum_byte(b: u8) -> bool {
    (65 <= b && b <= 90) || (97 <= b && b <= 122) || (48 <= b && b <= 57)
}

/// Every byte of the sequence is alphanumeric.
pub open spec fn all_alnum(s: Seq<u8>) -> bool {
    forall|i: int| 0 <= i < s.len() ==> is_alnum_byte(#[trigger] s[i])
}

} // verus!
