//! The sequencer: drives a workload specification, section by section and
//! group by group, resolving each requested operation against the section's
//! Key Set and emitting one line per operation.
//!
//! Within a group, operations are resolved in a fixed kind order — inserts,
//! updates, deletes, point queries, empty point queries, range queries —
//! with no inter-kind shuffling, so one seed reproduces one output.
//!
//! A group is validated before anything of it is emitted: its deletes must
//! not outnumber the keys valid at group entry; a group that references
//! existing keys while none is valid must bring inserts to seed the set;
//! point and range queries must find at least one valid key once the
//! group's own inserts and deletes are accounted for; and a range query's
//! selectivity must not exceed the scale. A specification that breaks any
//! of these rules is in error, the run aborts, and the offending section
//! and group are named.

use crate::all_alnum;
use crate::emit::count_newlines;
use crate::emit::delete_line;
use crate::emit::insert_line;
use crate::emit::lemma_count_newlines_add;
use crate::emit::lemma_one_field_line;
use crate::emit::lemma_two_field_line;
use crate::emit::point_query_line;
use crate::emit::range_query_line;
use crate::emit::update_line;
use crate::emit::AsciiWriter;
use crate::emit::TAG_DELETE;
use crate::emit::TAG_INSERT;
use crate::emit::TAG_POINT_QUERY;
use crate::emit::TAG_RANGE_QUERY;
use crate::emit::TAG_UPDATE;
use crate::keyset::KeySet;
use crate::keyset::VecBloomFilterKeySet;
use crate::model::spec_del_amount;
use crate::model::spec_epq_amount;
use crate::model::spec_group_bytes;
use crate::model::spec_group_op_count;
use crate::model::spec_groups_bytes;
use crate::model::spec_groups_op_count;
use crate::model::spec_ins_amount;
use crate::model::spec_pq_amount;
use crate::model::spec_rq_amount;
use crate::model::spec_sections_op_count;
use crate::model::spec_upd_amount;
use crate::model::spec_workload_bytes;
use crate::model::spec_workload_op_count;
use crate::model::WorkloadSpec;
use crate::model::WorkloadSpecGroup;
use crate::model::WorkloadSpecSection;
use crate::model::PPM_SCALE;
use crate::order::keys_sorted;
use crate::order::lemma_lex_leq_reflexive;
use crate::order::lex_leq;
use crate::rng::rng_alnum_string;
use crate::rng::rng_below;
use crate::Key;
use vstd::prelude::*;

verus! {

/// How many candidate keys an empty point query draws before the run is
/// abandoned as exhausted: a generous bound that keeps the
/// reject-and-retry loop from running forever on a pathological key space.
pub const EPQ_MAX_ATTEMPTS: usize = 1000;

/// Why a run aborted: the specification contradicted itself. The offending
/// entry is named by section and group position (counted from zero).
#[derive(Copy, Clone, Debug, PartialEq, Eq, Structural)]
pub enum WorkloadError {
    /// The group requests more deletes than there are valid keys at group
    /// entry.
    TooManyDeletes { section: usize, group: usize },
    /// The group references existing keys, none is valid at group entry,
    /// and the group brings no insert to seed the set.
    EmptyKeySet { section: usize, group: usize },
    /// The group's range queries ask for a selectivity above the scale.
    SelectivityOutOfRange { section: usize, group: usize },
    /// The group's own deletes leave no valid key for its point or range
    /// queries.
    KeySetDrained { section: usize, group: usize },
    /// An empty point query could not find an absent key within the retry
    /// bound.
    EmptyPointQueriesExhausted { section: usize, group: usize },
}

/// The section position a specification error names.
pub open spec fn spec_error_section(e: WorkloadError) -> usize {
    match e {
        WorkloadError::TooManyDeletes { section, .. } => section,
        WorkloadError::EmptyKeySet { section, .. } => section,
        WorkloadError::SelectivityOutOfRange { section, .. } => section,
        WorkloadError::KeySetDrained { section, .. } => section,
        WorkloadError::EmptyPointQueriesExhausted { section, .. } => section,
    }
}

/// The group position a specification error names.
pub open spec fn spec_error_group(e: WorkloadError) -> usize {
    match e {
        WorkloadError::TooManyDeletes { group, .. } => group,
        WorkloadError::EmptyKeySet { group, .. } => group,
        WorkloadError::SelectivityOutOfRange { group, .. } => group,
        WorkloadError::KeySetDrained { group, .. } => group,
        WorkloadError::EmptyPointQueriesExhausted { group, .. } => group,
    }
}

impl WorkloadError {
    /// A short description of the error kind.
    pub fn describe(&self) -> &'static str {
        match self {
            WorkloadError::TooManyDeletes { .. } => "cannot have more deletes than existing valid keys",
            WorkloadError::EmptyKeySet { .. } => "group must have existing valid keys or insert operations",
            WorkloadError::SelectivityOutOfRange { .. } => "range query selectivity must lie within the unit scale",
            WorkloadError::KeySetDrained { .. } => "group deletes leave no valid key for its queries",
            WorkloadError::EmptyPointQueriesExhausted { .. } => "no absent key found within the retry bound",
        }
    }

    /// The position (from zero) of the offending section.
    pub fn section(&self) -> (r: usize)
        ensures
            r == spec_error_section(*self),
    {
        match self {
            WorkloadError::TooManyDeletes { section, .. } => *section,
            WorkloadError::EmptyKeySet { section, .. } => *section,
            WorkloadError::SelectivityOutOfRange { section, .. } => *section,
            WorkloadError::KeySetDrained { section, .. } => *section,
            WorkloadError::EmptyPointQueriesExhausted { section, .. } => *section,
        }
    }

    /// The position (from zero) of the offending group in its section.
    pub fn group(&self) -> (r: usize)
        ensures
            r == spec_error_group(*self),
    {
        match self {
            WorkloadError::TooManyDeletes { group, .. } => *group,
            WorkloadError::EmptyKeySet { group, .. } => *group,
            WorkloadError::SelectivityOutOfRange { group, .. } => *group,
            WorkloadError::KeySetDrained { group, .. } => *group,
            WorkloadError::EmptyPointQueriesExhausted { group, .. } => *group,
        }
    }
}

/// The group holds an operation that references existing keys. Whether a
/// request is present counts, not its amount, so a group with an empty
/// update request and no valid keys is still in error.
pub open spec fn spec_needs_keys(g: WorkloadSpecGroup) -> bool {
    ||| g.inserts is Some
    ||| g.updates is Some
    ||| g.deletes is Some
    ||| g.point_queries is Some
    ||| g.range_queries is Some
}

/// How a group changes the number of valid keys: its inserts minus its
/// deletes.
pub open spec fn spec_group_net(g: WorkloadSpecGroup) -> int {
    spec_ins_amount(g) - spec_del_amount(g)
}

/// The number of valid keys when the group at position `i` begins, given
/// that every earlier group ran.
pub open spec fn spec_len_at(gs: Seq<WorkloadSpecGroup>, i: int) -> int
    decreases i,
{
    if i <= 0 {
        0
    } else {
        spec_len_at(gs, i - 1) + spec_group_net(gs[i - 1])
    }
}

/// The group can run against `len_entry` valid keys: deletes do not
/// outnumber them; an empty set is seeded by at least one insert whenever
/// the group references existing keys; point and range queries find at
/// least one key after the group's inserts and deletes; resolved range
/// queries keep their selectivity within the scale.
pub open spec fn spec_group_valid(g: WorkloadSpecGroup, len_entry: int) -> bool {
    &&& spec_del_amount(g) <= len_entry
    &&& (spec_needs_keys(g) && len_entry == 0 ==> spec_ins_amount(g) >= 1)
    &&& (spec_pq_amount(g) >= 1 ==> len_entry + spec_group_net(g) >= 1)
    &&& (spec_rq_amount(g) >= 1 ==> len_entry + spec_group_net(g) >= 1)
    &&& (spec_rq_amount(g) >= 1 ==> (match g.range_queries {
        Some(r) => r.selectivity_ppm <= PPM_SCALE,
        None => true,
    }))
}

/// Every group of the section can run when its turn comes.
pub open spec fn spec_section_valid(gs: Seq<WorkloadSpecGroup>) -> bool {
    forall|i: int| 0 <= i < gs.len() ==> spec_group_valid(#[trigger] gs[i], spec_len_at(gs, i))
}

/// Every section of the workload can run.
pub open spec fn spec_workload_valid(w: WorkloadSpec) -> bool {
    forall|i: int|
        0 <= i < w.sections@.len() ==> spec_section_valid(#[trigger] w.sections@[i].groups@)
}

/// The group requests empty point queries that will actually run.
pub open spec fn spec_group_runs_epq(g: WorkloadSpecGroup) -> bool {
    spec_epq_amount(g) >= 1
}

/// Some group of the section runs empty point queries.
pub open spec fn spec_groups_run_epq(gs: Seq<WorkloadSpecGroup>) -> bool {
    exists|j: int| 0 <= j < gs.len() && spec_group_runs_epq(#[trigger] gs[j])
}

/// Some group of the workload runs empty point queries: the one request
/// whose success depends on random draws.
pub open spec fn spec_workload_runs_epq(w: WorkloadSpec) -> bool {
    exists|i: int|
        0 <= i < w.sections@.len() && spec_groups_run_epq(#[trigger] w.sections@[i].groups@)
}

/// The group requests nothing but inserts.
pub open spec fn spec_group_inserts_only(g: WorkloadSpecGroup) -> bool {
    &&& g.updates is None
    &&& g.deletes is None
    &&& g.point_queries is None
    &&& g.empty_point_queries is None
    &&& g.range_queries is None
}

/// Every group of the section requests nothing but inserts.
pub open spec fn spec_groups_inserts_only(gs: Seq<WorkloadSpecGroup>) -> bool {
    forall|j: int| 0 <= j < gs.len() ==> spec_group_inserts_only(#[trigger] gs[j])
}

/// The whole workload requests nothing but inserts: the one shape whose
/// output size the model can state exactly in advance.
pub open spec fn spec_workload_inserts_only(w: WorkloadSpec) -> bool {
    forall|i: int|
        0 <= i < w.sections@.len() ==> spec_groups_inserts_only(#[trigger] w.sections@[i].groups@)
}

/// The byte count of insert-only groups does not depend on the key length
/// assumed for lines that reference existing keys: no such line is ever
/// counted.
pub proof fn lemma_groups_bytes_ikl_irrelevant(gs: Seq<WorkloadSpecGroup>, ikl: int)
    requires
        spec_groups_inserts_only(gs),
    ensures
        spec_groups_bytes(gs, ikl) == spec_groups_bytes(gs, 0),
    decreases gs.len(),
{
    if gs.len() > 0 {
        assert(spec_groups_inserts_only(gs.drop_last()));
        lemma_groups_bytes_ikl_irrelevant(gs.drop_last(), ikl);
        assert(spec_group_inserts_only(gs.last()));
    }
}

/// How many keys a range query's bounds span, out of `len` valid keys:
/// the floor of selectivity times `len`, kept below `len` so that both
/// bounds index valid keys.
pub open spec fn spec_num_items(selectivity_ppm: u32, len: int) -> int {
    let raw = (selectivity_ppm as int) * len / (PPM_SCALE as int);
    if raw >= len {
        len - 1
    } else {
        raw
    }
}

/// Every valid key is an alphanumeric byte string.
pub open spec fn spec_keys_alnum(s: Seq<Seq<u8>>) -> bool {
    forall|i: int| 0 <= i < s.len() ==> all_alnum(#[trigger] s[i])
}

/// Appending keeps earlier keys alphanumeric.
proof fn lemma_alnum_push(s: Seq<Seq<u8>>, k: Seq<u8>)
    requires
        spec_keys_alnum(s),
        all_alnum(k),
    ensures
        spec_keys_alnum(s.push(k)),
{
    assert forall|i: int| 0 <= i < s.push(k).len() implies all_alnum(#[trigger] s.push(k)[i]) by {
        if i < s.len() {
            assert(s.push(k)[i] == s[i]);
        }
    }
}

/// Removal keeps the remaining keys alphanumeric.
proof fn lemma_alnum_remove(s: Seq<Seq<u8>>, i: int)
    requires
        spec_keys_alnum(s),
        0 <= i < s.len(),
    ensures
        spec_keys_alnum(s.remove(i)),
{
    let t = s.remove(i);
    assert forall|x: int| 0 <= x < t.len() implies all_alnum(#[trigger] t[x]) by {
        let x0 = if x < i {
            x
        } else {
            x + 1
        };
        assert(t[x] == s[x0]);
    }
}

/// Reordering (sorting) keeps every key alphanumeric.
proof fn lemma_alnum_multiset(s1: Seq<Seq<u8>>, s2: Seq<Seq<u8>>)
    requires
        spec_keys_alnum(s1),
        s2.to_multiset() == s1.to_multiset(),
    ensures
        spec_keys_alnum(s2),
{
    crate::keyset::lemma_multiset_members(s2, s1);
    assert forall|i: int| 0 <= i < s2.len() implies all_alnum(#[trigger] s2[i]) by {
        let x = s2[i];
        assert(s2.contains(x));
        assert(s1.contains(x));
        let j = choose|j: int| 0 <= j < s1.len() && s1[j] == x;
    }
}

/// Three snapshots of a growing buffer: what was appended across the whole
/// stretch is what the middle stretch appended followed by the last, and
/// the newline counts add up.
proof fn lemma_appended_split(w0: Seq<u8>, w1: Seq<u8>, w2: Seq<u8>)
    requires
        w0.len() <= w1.len() <= w2.len(),
        w1.take(w0.len() as int) == w0,
        w2.take(w1.len() as int) == w1,
    ensures
        w2.take(w0.len() as int) == w0,
        w2.skip(w0.len() as int) == w1.skip(w0.len() as int) + w2.skip(w1.len() as int),
        count_newlines(w2.skip(w0.len() as int)) == count_newlines(w1.skip(w0.len() as int))
            + count_newlines(w2.skip(w1.len() as int)),
{
    assert(w2.take(w0.len() as int) =~= w0);
    assert(w2.skip(w0.len() as int) =~= w1.skip(w0.len() as int) + w2.skip(w1.len() as int));
    lemma_count_newlines_add(w1.skip(w0.len() as int), w2.skip(w1.len() as int));
}

/// One line was appended: the stretch since `w0` grew by that line, and by
/// one newline when the line holds exactly one.
proof fn lemma_appended_line(w0: Seq<u8>, w1: Seq<u8>, line: Seq<u8>)
    requires
        w0.len() <= w1.len(),
        w1.take(w0.len() as int) == w0,
    ensures
        (w1 + line).take(w0.len() as int) == w0,
        (w1 + line).skip(w0.len() as int) == w1.skip(w0.len() as int) + line,
        count_newlines((w1 + line).skip(w0.len() as int)) == count_newlines(
            w1.skip(w0.len() as int),
        ) + count_newlines(line),
{
    assert((w1 + line).take(w0.len() as int) =~= w0);
    assert((w1 + line).skip(w0.len() as int) =~= w1.skip(w0.len() as int) + line);
    lemma_count_newlines_add(w1.skip(w0.len() as int), line);
}

/// Draws candidate keys of length `key_len` until one is not contained in
/// the Key Set, giving up after [`EPQ_MAX_ATTEMPTS`] draws. A returned key
/// is never a member of the Key Set at the time of its return: the filter
/// may answer a false positive (costing a retry) but never a false
/// negative.
pub fn gen_absent_key(
    ks: &VecBloomFilterKeySet,
    rng: &mut rand_xoshiro::Xoshiro256Plus,
    key_len: usize,
) -> (r: Option<Key>)
    requires
        ks.inv(),
    ensures
        (match r {
            Some(k) => k@.len() == key_len && all_alnum(k@) && !ks.keys().contains(k@),
            None => true,
        }),
{
    let mut tries: usize = 0;
    while tries < EPQ_MAX_ATTEMPTS
        invariant
            ks.inv(),
        decreases EPQ_MAX_ATTEMPTS - tries,
    {
        let candidate = rng_alnum_string(rng, key_len);
        if !ks.contains(&candidate) {
            return Some(candidate);
        }
        tries = tries + 1;
    }
    None
}

/// Resolves a group's inserts: generates a fresh alphanumeric key and
/// value for each, emits the insert line, and makes the key valid.
fn run_inserts(
    writer: &mut Vec<u8>,
    ks: &mut VecBloomFilterKeySet,
    rng: &mut rand_xoshiro::Xoshiro256Plus,
    amount: usize,
    key_len: usize,
    val_len: usize,
)
    requires
        old(ks).inv(),
        spec_keys_alnum(old(ks).keys()),
    ensures
        final (ks).inv(),
        spec_keys_alnum(final (ks).keys()),
        final (ks).keys().len() == old(ks).keys().len() + amount,
        old(writer)@.len() <= final (writer)@.len(),
        final (writer)@.take(old(writer)@.len() as int) == old(writer)@,
        count_newlines(final (writer)@.skip(old(writer)@.len() as int)) == amount,
        final (writer)@.len() == old(writer)@.len() + amount * (4 + key_len + val_len),
{
    let ghost w0 = old(writer)@;
    for i in 0..amount
        invariant
            ks.inv(),
            spec_keys_alnum(ks.keys()),
            ks.keys().len() == old(ks).keys().len() + i,
            w0.len() <= writer@.len(),
            writer@.take(w0.len() as int) == w0,
            count_newlines(writer@.skip(w0.len() as int)) == i as int,
            writer@.len() == w0.len() + i * (4 + key_len + val_len),
    {
        let key = rng_alnum_string(rng, key_len);
        let val = rng_alnum_string(rng, val_len);
        let ghost kv = key@;
        let ghost wb = writer@;
        let ghost keys_before = ks.keys();
        AsciiWriter::write_insert(writer, &key, &val);
        ks.push(key);
        proof {
            lemma_appended_line(w0, wb, insert_line(kv, val@));
            lemma_two_field_line(TAG_INSERT, kv, val@);
            lemma_alnum_push(keys_before, kv);
            assert((i + 1) as int * (4 + key_len + val_len) == i as int * (4 + key_len + val_len)
                + (4 + key_len + val_len)) by (nonlinear_arith);
        }
    }
}

/// Resolves a group's updates: samples a random valid key, generates a
/// fresh value, and emits the update line. The Key Set is read, never
/// changed.
fn run_updates(
    writer: &mut Vec<u8>,
    ks: &VecBloomFilterKeySet,
    rng: &mut rand_xoshiro::Xoshiro256Plus,
    amount: usize,
    val_len: usize,
)
    requires
        ks.inv(),
        spec_keys_alnum(ks.keys()),
        amount >= 1 ==> ks.keys().len() >= 1,
    ensures
        old(writer)@.len() <= final (writer)@.len(),
        final (writer)@.take(old(writer)@.len() as int) == old(writer)@,
        count_newlines(final (writer)@.skip(old(writer)@.len() as int)) == amount,
{
    let ghost w0 = old(writer)@;
    for i in 0..amount
        invariant
            ks.inv(),
            spec_keys_alnum(ks.keys()),
            amount >= 1 ==> ks.keys().len() >= 1,
            w0.len() <= writer@.len(),
            writer@.take(w0.len() as int) == w0,
            count_newlines(writer@.skip(w0.len() as int)) == i as int,
    {
        let key = ks.get_random(rng);
        proof {
            let j = choose|j: int| 0 <= j < ks.keys().len() && ks.keys()[j] == key@;
            assert(all_alnum(key@));
        }
        let val = rng_alnum_string(rng, val_len);
        let ghost wb = writer@;
        AsciiWriter::write_update(writer, key, &val);
        proof {
            lemma_appended_line(w0, wb, update_line(key@, val@));
            lemma_two_field_line(TAG_UPDATE, key@, val@);
        }
    }
}

/// Resolves a group's deletes: samples a random valid position, removes
/// the key there, and emits the delete line.
fn run_deletes(
    writer: &mut Vec<u8>,
    ks: &mut VecBloomFilterKeySet,
    rng: &mut rand_xoshiro::Xoshiro256Plus,
    amount: usize,
)
    requires
        old(ks).inv(),
        spec_keys_alnum(old(ks).keys()),
        amount <= old(ks).keys().len(),
    ensures
        final (ks).inv(),
        spec_keys_alnum(final (ks).keys()),
        final (ks).keys().len() == old(ks).keys().len() - amount,
        old(writer)@.len() <= final (writer)@.len(),
        final (writer)@.take(old(writer)@.len() as int) == old(writer)@,
        count_newlines(final (writer)@.skip(old(writer)@.len() as int)) == amount,
{
    let ghost w0 = old(writer)@;
    for i in 0..amount
        invariant
            ks.inv(),
            spec_keys_alnum(ks.keys()),
            ks.keys().len() == old(ks).keys().len() - i,
            amount <= old(ks).keys().len(),
            w0.len() <= writer@.len(),
            writer@.take(w0.len() as int) == w0,
            count_newlines(writer@.skip(w0.len() as int)) == i as int,
    {
        let idx = rng_below(rng, ks.len());
        let ghost keys_before = ks.keys();
        let key = ks.remove(idx);
        proof {
            assert(all_alnum(key@));
            lemma_alnum_remove(keys_before, idx as int);
        }
        let ghost wb = writer@;
        AsciiWriter::write_delete(writer, &key);
        proof {
            lemma_appended_line(w0, wb, delete_line(key@));
            lemma_one_field_line(TAG_DELETE, key@);
        }
    }
}

/// Resolves a group's point queries: samples a random valid position and
/// emits the point-query line for the key there. The Key Set is read,
/// never changed.
fn run_point_queries(
    writer: &mut Vec<u8>,
    ks: &VecBloomFilterKeySet,
    rng: &mut rand_xoshiro::Xoshiro256Plus,
    amount: usize,
)
    requires
        ks.inv(),
        spec_keys_alnum(ks.keys()),
        amount >= 1 ==> ks.keys().len() >= 1,
    ensures
        old(writer)@.len() <= final (writer)@.len(),
        final (writer)@.take(old(writer)@.len() as int) == old(writer)@,
        count_newlines(final (writer)@.skip(old(writer)@.len() as int)) == amount,
{
    let ghost w0 = old(writer)@;
    for i in 0..amount
        invariant
            ks.inv(),
            spec_keys_alnum(ks.keys()),
            amount >= 1 ==> ks.keys().len() >= 1,
            w0.len() <= writer@.len(),
            writer@.take(w0.len() as int) == w0,
            count_newlines(writer@.skip(w0.len() as int)) == i as int,
    {
        let idx = rng_below(rng, ks.len());
        let key = match ks.get(idx) {
            Some(k) => k,
            None => vstd::pervasive::unreached(),
        };
        proof {
            assert(all_alnum(key@));
        }
        let ghost wb = writer@;
        AsciiWriter::write_point_query(writer, key);
        proof {
            lemma_appended_line(w0, wb, point_query_line(key@));
            lemma_one_field_line(TAG_POINT_QUERY, key@);
        }
    }
}

/// Resolves a group's empty point queries: draws candidate keys until one
/// is absent and emits the point-query line for it; the key is never made
/// valid. Fails with a specification error when the retry bound is
/// exhausted.
fn run_empty_point_queries(
    writer: &mut Vec<u8>,
    ks: &VecBloomFilterKeySet,
    rng: &mut rand_xoshiro::Xoshiro256Plus,
    amount: usize,
    key_len: usize,
    section_idx: usize,
    group_idx: usize,
) -> (r: Result<(), WorkloadError>)
    requires
        ks.inv(),
    ensures
        old(writer)@.len() <= final (writer)@.len(),
        final (writer)@.take(old(writer)@.len() as int) == old(writer)@,
        r is Ok ==> count_newlines(final (writer)@.skip(old(writer)@.len() as int)) == amount,
        r is Err ==> amount >= 1 && r == Err::<(), WorkloadError>(
            WorkloadError::EmptyPointQueriesExhausted { section: section_idx, group: group_idx },
        ),
{
    let ghost w0 = old(writer)@;
    for i in 0..amount
        invariant
            ks.inv(),
            w0 == old(writer)@,
            w0.len() <= writer@.len(),
            writer@.take(w0.len() as int) == w0,
            count_newlines(writer@.skip(w0.len() as int)) == i as int,
    {
        let key = match gen_absent_key(ks, rng, key_len) {
            Some(k) => k,
            None => {
                return Err(
                    WorkloadError::EmptyPointQueriesExhausted {
                        section: section_idx,
                        group: group_idx,
                    },
                );
            },
        };
        let ghost wb = writer@;
        AsciiWriter::write_point_query(writer, &key);
        proof {
            lemma_appended_line(w0, wb, point_query_line(key@));
            lemma_one_field_line(TAG_POINT_QUERY, key@);
        }
    }
    Ok(())
}

/// Picks the bounds of one range query from a sorted Key Set: a uniformly
/// random start among the valid positions, and the key `num_items` places
/// later, so the pair spans exactly the floor of selectivity times the key
/// count (capped just below the whole set). The first bound never sorts
/// after the second.
pub fn pick_range_bounds<'a>(
    ks: &'a VecBloomFilterKeySet,
    rng: &mut rand_xoshiro::Xoshiro256Plus,
    selectivity_ppm: u32,
) -> (r: (&'a Key, &'a Key))
    requires
        ks.inv(),
        keys_sorted(ks.keys()),
        ks.keys().len() >= 1,
        selectivity_ppm <= PPM_SCALE,
    ensures
        lex_leq(r.0@, r.1@),
        exists|start: int|
            0 <= start && start + spec_num_items(selectivity_ppm, ks.keys().len() as int)
                < ks.keys().len() && r.0@ == ks.keys()[start] && r.1@ == #[trigger] ks.keys()[start
                + spec_num_items(selectivity_ppm, ks.keys().len() as int)],
{
    let len = ks.len();
    proof {
        assert(selectivity_ppm as int * len as int <= 1000000int * usize::MAX as int)
            by (nonlinear_arith)
            requires
                selectivity_ppm as int <= 1000000int,
                0 <= len as int <= usize::MAX as int,
        ;
    }
    let raw128: u128 = selectivity_ppm as u128 * len as u128 / PPM_SCALE as u128;
    proof {
        assert(selectivity_ppm as int * len as int / (PPM_SCALE as int) <= len as int)
            by (nonlinear_arith)
            requires
                selectivity_ppm as int <= PPM_SCALE as int,
                len as int >= 0,
                PPM_SCALE as int == 1000000,
        ;
    }
    let raw: usize = raw128 as usize;
    let num_items: usize = if raw >= len {
        len - 1
    } else {
        raw
    };
    let ghost n = spec_num_items(selectivity_ppm, ks.keys().len() as int);
    proof {
        assert(num_items == n);
    }
    let start = rng_below(rng, len - num_items);
    let key1 = match ks.get(start) {
        Some(k) => k,
        None => vstd::pervasive::unreached(),
    };
    let key2 = match ks.get(start + num_items) {
        Some(k) => k,
        None => vstd::pervasive::unreached(),
    };
    proof {
        if num_items == 0 {
            lemma_lex_leq_reflexive(key1@);
        } else {
            assert(lex_leq(ks.keys()[start as int], ks.keys()[start as int + n]));
        }
        assert(key1@ == ks.keys()[start as int] && key2@ == ks.keys()[start as int + n]);
    }
    (key1, key2)
}

/// Resolves a group's range queries: sorts the Key Set once (a no-op when
/// it is already sorted), then emits one range-query line per request over
/// bounds picked by [`pick_range_bounds`]. The keys stay valid and
/// unchanged as a multiset.
fn run_range_queries(
    writer: &mut Vec<u8>,
    ks: &mut VecBloomFilterKeySet,
    rng: &mut rand_xoshiro::Xoshiro256Plus,
    amount: usize,
    selectivity_ppm: u32,
)
    requires
        old(ks).inv(),
        spec_keys_alnum(old(ks).keys()),
        amount >= 1 ==> old(ks).keys().len() >= 1,
        amount >= 1 ==> selectivity_ppm <= PPM_SCALE,
    ensures
        final (ks).inv(),
        spec_keys_alnum(final (ks).keys()),
        final (ks).keys().len() == old(ks).keys().len(),
        old(writer)@.len() <= final (writer)@.len(),
        final (writer)@.take(old(writer)@.len() as int) == old(writer)@,
        count_newlines(final (writer)@.skip(old(writer)@.len() as int)) == amount,
{
    let ghost w0 = old(writer)@;
    if amount == 0 {
        proof {
            assert(final (writer)@.skip(w0.len() as int) =~= Seq::<u8>::empty());
        }
        return ;
    }
    let ghost keys_before = ks.keys();
    ks.sort();
    proof {
        vstd::seq_lib::to_multiset_len::<Seq<u8>>(ks.keys());
        vstd::seq_lib::to_multiset_len::<Seq<u8>>(keys_before);
        lemma_alnum_multiset(keys_before, ks.keys());
    }
    for i in 0..amount
        invariant
            ks.inv(),
            spec_keys_alnum(ks.keys()),
            keys_sorted(ks.keys()),
            ks.keys().len() == old(ks).keys().len(),
            ks.keys().len() >= 1,
            selectivity_ppm <= PPM_SCALE,
            w0.len() <= writer@.len(),
            writer@.take(w0.len() as int) == w0,
            count_newlines(writer@.skip(w0.len() as int)) == i as int,
    {
        let (key1, key2) = pick_range_bounds(ks, rng, selectivity_ppm);
        proof {
            let start = choose|start: int|
                0 <= start && start + spec_num_items(selectivity_ppm, ks.keys().len() as int)
                    < ks.keys().len() && key1@ == ks.keys()[start] && key2@ == #[trigger] ks.keys()[start
                    + spec_num_items(selectivity_ppm, ks.keys().len() as int)];
            assert(all_alnum(key1@));
            assert(all_alnum(key2@));
        }
        let ghost wb = writer@;
        AsciiWriter::write_range_query(writer, key1, key2);
        proof {
            lemma_appended_line(w0, wb, range_query_line(key1@, key2@));
            lemma_two_field_line(TAG_RANGE_QUERY, key1@, key2@);
        }
    }
}

/// Checks that a group can run against the keys valid at its entry: its
/// deletes do not outnumber them; if it references existing keys while none
/// is valid it brings at least one insert to seed the set; its point and
/// range queries will find at least one valid key once its own inserts and
/// deletes are accounted for; and its resolved range queries keep their
/// selectivity within the scale. Returns the specification error naming
/// the group when any rule is broken.
fn validate_group(
    g: &WorkloadSpecGroup,
    entry_len: usize,
    section_idx: usize,
    group_idx: usize,
) -> (r: Result<(), WorkloadError>)
    ensures
        r is Ok <==> spec_group_valid(*g, entry_len as int),
        (match r {
            Err(e) => spec_error_section(e) == section_idx && spec_error_group(e) == group_idx,
            Ok(_) => true,
        }),
{
    let del_amt = match g.deletes {
        Some(ds) => ds.amount,
        None => 0,
    };
    if del_amt > entry_len {
        return Err(WorkloadError::TooManyDeletes { section: section_idx, group: group_idx });
    }
    let ins_amt = match g.inserts {
        Some(is) => is.amount,
        None => 0,
    };
    let needs_keys = g.inserts.is_some() || g.updates.is_some() || g.deletes.is_some()
        || g.point_queries.is_some() || g.range_queries.is_some();
    if entry_len == 0 && needs_keys && ins_amt == 0 {
        return Err(WorkloadError::EmptyKeySet { section: section_idx, group: group_idx });
    }
    // The keys this group's own inserts and deletes leave valid.
    let after128: u128 = entry_len as u128 + ins_amt as u128 - del_amt as u128;
    let pq_amt = match g.point_queries {
        Some(p) => p.amount,
        None => 0,
    };
    if pq_amt >= 1 && after128 == 0 {
        return Err(WorkloadError::KeySetDrained { section: section_idx, group: group_idx });
    }
    let rq_amt = match g.range_queries {
        Some(rq) => rq.amount,
        None => 0,
    };
    if rq_amt >= 1 {
        if after128 == 0 {
            return Err(WorkloadError::KeySetDrained { section: section_idx, group: group_idx });
        }
        let sel = match g.range_queries {
            Some(rq) => rq.selectivity_ppm,
            None => 0,
        };
        if sel > PPM_SCALE {
            return Err(
                WorkloadError::SelectivityOutOfRange { section: section_idx, group: group_idx },
            );
        }
    }
    Ok(())
}

/// Drives one group: validates it against the keys valid at entry, then
/// resolves its requests in the fixed kind order — inserts, updates,
/// deletes, point queries, empty point queries, range queries — emitting
/// one line per operation.
#[verifier::rlimit(50)]
fn run_group(
    writer: &mut Vec<u8>,
    ks: &mut VecBloomFilterKeySet,
    rng: &mut rand_xoshiro::Xoshiro256Plus,
    g: &WorkloadSpecGroup,
    section_idx: usize,
    group_idx: usize,
) -> (r: Result<(), WorkloadError>)
    requires
        old(ks).inv(),
        spec_keys_alnum(old(ks).keys()),
    ensures
        final (ks).inv(),
        spec_keys_alnum(final (ks).keys()),
        old(writer)@.len() <= final (writer)@.len(),
        final (writer)@.take(old(writer)@.len() as int) == old(writer)@,
        r is Ok ==> spec_group_valid(*g, old(ks).keys().len() as int),
        !spec_group_valid(*g, old(ks).keys().len() as int) ==> r is Err,
        r is Err ==> !spec_group_valid(*g, old(ks).keys().len() as int) || spec_group_runs_epq(*g),
        (match r {
            Err(e) => spec_error_section(e) == section_idx && spec_error_group(e) == group_idx,
            Ok(_) => true,
        }),
        r is Ok ==> final (ks).keys().len() == old(ks).keys().len() + spec_group_net(*g),
        r is Ok ==> count_newlines(final (writer)@.skip(old(writer)@.len() as int))
            == spec_group_op_count(*g),
        r is Ok && spec_group_inserts_only(*g) ==> final (writer)@.len() == old(writer)@.len()
            + spec_group_bytes(*g, 0),
{
    let entry_len = ks.len();
    let ghost entry = old(ks).keys().len() as int;
    let ghost w0 = old(writer)@;

    // Validation, before anything of the group is emitted.
    if let Err(e) = validate_group(g, entry_len, section_idx, group_idx) {
        proof {
            assert(final (writer)@.take(w0.len() as int) =~= w0);
        }
        return Err(e);
    }
    proof {
        assert(spec_group_valid(*g, entry));
    }

    // Resolution, in the fixed kind order.
    if let Some(is) = g.inserts {
        run_inserts(writer, ks, rng, is.amount, is.key_len, is.val_len);
    }
    let ghost w1 = writer@;
    proof {
        if g.inserts is None {
            assert(w1.take(w0.len() as int) =~= w0);
            assert(w1.skip(w0.len() as int) =~= Seq::<u8>::empty());
        }
        assert(count_newlines(w1.skip(w0.len() as int)) == spec_ins_amount(*g));
        assert(ks.keys().len() == entry + spec_ins_amount(*g));
    }
    if let Some(us) = g.updates {
        proof {
            if us.amount >= 1 {
                assert(spec_needs_keys(*g));
                assert(entry + spec_ins_amount(*g) >= 1);
            }
        }
        run_updates(writer, ks, rng, us.amount, us.val_len);
    }
    let ghost w2 = writer@;
    proof {
        if g.updates is None {
            assert(w2.take(w1.len() as int) =~= w1);
            assert(w2.skip(w1.len() as int) =~= Seq::<u8>::empty());
        }
        lemma_appended_split(w0, w1, w2);
        assert(count_newlines(w2.skip(w0.len() as int)) == spec_ins_amount(*g) + spec_upd_amount(
            *g,
        ));
    }
    if let Some(ds) = g.deletes {
        run_deletes(writer, ks, rng, ds.amount);
    }
    let ghost w3 = writer@;
    proof {
        if g.deletes is None {
            assert(w3.take(w2.len() as int) =~= w2);
            assert(w3.skip(w2.len() as int) =~= Seq::<u8>::empty());
        }
        lemma_appended_split(w0, w2, w3);
        assert(count_newlines(w3.skip(w0.len() as int)) == spec_ins_amount(*g) + spec_upd_amount(
            *g,
        ) + spec_del_amount(*g));
        assert(ks.keys().len() == entry + spec_group_net(*g));
    }
    if let Some(pq) = g.point_queries {
        run_point_queries(writer, ks, rng, pq.amount);
    }
    let ghost w4 = writer@;
    proof {
        if g.point_queries is None {
            assert(w4.take(w3.len() as int) =~= w3);
            assert(w4.skip(w3.len() as int) =~= Seq::<u8>::empty());
        }
        lemma_appended_split(w0, w3, w4);
        assert(count_newlines(w4.skip(w0.len() as int)) == spec_ins_amount(*g) + spec_upd_amount(
            *g,
        ) + spec_del_amount(*g) + spec_pq_amount(*g));
    }
    if let Some(epq) = g.empty_point_queries {
        let outcome = run_empty_point_queries(
            writer,
            ks,
            rng,
            epq.amount,
            epq.key_len,
            section_idx,
            group_idx,
        );
        if let Err(e) = outcome {
            proof {
                lemma_appended_split(w0, w4, writer@);
            }
            return Err(e);
        }
    }
    let ghost w5 = writer@;
    proof {
        if g.empty_point_queries is None {
            assert(w5.take(w4.len() as int) =~= w4);
            assert(w5.skip(w4.len() as int) =~= Seq::<u8>::empty());
        }
        lemma_appended_split(w0, w4, w5);
        assert(count_newlines(w5.skip(w0.len() as int)) == spec_ins_amount(*g) + spec_upd_amount(
            *g,
        ) + spec_del_amount(*g) + spec_pq_amount(*g) + spec_epq_amount(*g));
    }
    if let Some(rq) = g.range_queries {
        run_range_queries(writer, ks, rng, rq.amount, rq.selectivity_ppm);
    }
    let ghost w6 = writer@;
    proof {
        if g.range_queries is None {
            assert(w6.take(w5.len() as int) =~= w5);
            assert(w6.skip(w5.len() as int) =~= Seq::<u8>::empty());
        }
        lemma_appended_split(w0, w5, w6);
        assert(count_newlines(w6.skip(w0.len() as int)) == spec_group_op_count(*g));
        if spec_group_inserts_only(*g) {
            assert(w6 == w1);
            match g.inserts {
                Some(is) => {
                    assert(spec_group_bytes(*g, 0) == (4 + is.key_len + is.val_len) * is.amount);
                    assert(w1.len() == w0.len() + is.amount * (4 + is.key_len + is.val_len));
                    assert(is.amount * (4 + is.key_len + is.val_len) == (4 + is.key_len
                        + is.val_len) * is.amount) by (nonlinear_arith);
                },
                None => {
                    assert(spec_group_bytes(*g, 0) == 0);
                    assert(w1.len() == w0.len());
                },
            }
            assert(w6.len() == w0.len() + spec_group_bytes(*g, 0));
        }
    }
    Ok(())
}

/// An upper estimate of the keys a section will hold at once: the sum of
/// its insert amounts, saturated at the machine limit. Only a sizing hint
/// for the section's Key Set.
fn section_capacity_hint(s: &WorkloadSpecSection) -> usize {
    let mut cap: usize = 0;
    let n = s.groups.len();
    for i in 0..n
        invariant
            n == s.groups@.len(),
    {
        let a = match s.groups[i].inserts {
            Some(is) => is.amount,
            None => 0,
        };
        cap = if cap > usize::MAX - a {
            usize::MAX
        } else {
            cap + a
        };
    }
    cap
}

/// Drives one section: a fresh Key Set, then its groups in declaration
/// order; the Key Set persists across the groups and is discarded when the
/// section ends.
fn run_section(
    writer: &mut Vec<u8>,
    rng: &mut rand_xoshiro::Xoshiro256Plus,
    s: &WorkloadSpecSection,
    section_idx: usize,
) -> (r: Result<(), WorkloadError>)
    ensures
        old(writer)@.len() <= final (writer)@.len(),
        final (writer)@.take(old(writer)@.len() as int) == old(writer)@,
        r is Ok ==> spec_section_valid(s.groups@),
        !spec_section_valid(s.groups@) ==> r is Err,
        r is Err ==> !spec_section_valid(s.groups@) || spec_groups_run_epq(s.groups@),
        (match r {
            Err(e) => spec_error_section(e) == section_idx && spec_error_group(e)
                < s.groups@.len() && (!spec_group_valid(
                s.groups@[spec_error_group(e) as int],
                spec_len_at(s.groups@, spec_error_group(e) as int),
            ) || spec_group_runs_epq(s.groups@[spec_error_group(e) as int])),
            Ok(_) => true,
        }),
        r is Ok ==> count_newlines(final (writer)@.skip(old(writer)@.len() as int))
            == spec_groups_op_count(s.groups@),
        r is Ok && spec_groups_inserts_only(s.groups@) ==> final (writer)@.len() == old(
            writer,
        )@.len() + spec_groups_bytes(s.groups@, 0),
{
    let capacity = section_capacity_hint(s);
    let mut ks = <VecBloomFilterKeySet as KeySet>::new(capacity);
    let ghost w0 = old(writer)@;
    let n = s.groups.len();
    proof {
        assert(w0.take(w0.len() as int) =~= w0);
        assert(w0.skip(w0.len() as int) =~= Seq::<u8>::empty());
    }
    for gi in 0..n
        invariant
            n == s.groups@.len(),
            ks.inv(),
            spec_keys_alnum(ks.keys()),
            ks.keys().len() == spec_len_at(s.groups@, gi as int),
            forall|j: int|
                0 <= j < gi ==> spec_group_valid(#[trigger] s.groups@[j], spec_len_at(s.groups@, j)),
            w0 == old(writer)@,
            w0.len() <= writer@.len(),
            writer@.take(w0.len() as int) == w0,
            count_newlines(writer@.skip(w0.len() as int)) == spec_groups_op_count(
                s.groups@.take(gi as int),
            ),
            spec_groups_inserts_only(s.groups@) ==> writer@.len() == w0.len()
                + spec_groups_bytes(s.groups@.take(gi as int), 0),
    {
        let g = s.groups[gi];
        let ghost wb = writer@;
        let ghost len_entry = ks.keys().len() as int;
        let outcome = run_group(writer, &mut ks, rng, &g, section_idx, gi);
        proof {
            lemma_appended_split(w0, wb, writer@);
        }
        match outcome {
            Ok(()) => {
                proof {
                    crate::model::lemma_groups_op_count_take_step(s.groups@, gi as int);
                    crate::model::lemma_groups_bytes_take_step(s.groups@, 0, gi as int);
                }
            },
            Err(e) => {
                proof {
                    if !spec_group_valid(g, len_entry) {
                        assert(!spec_section_valid(s.groups@)) by {
                            assert(s.groups@[gi as int] == g);
                            assert(!spec_group_valid(
                                s.groups@[gi as int],
                                spec_len_at(s.groups@, gi as int),
                            ));
                        }
                    } else {
                        assert(spec_groups_run_epq(s.groups@)) by {
                            assert(spec_group_runs_epq(s.groups@[gi as int]));
                        }
                    }
                }
                return Err(e);
            },
        }
    }
    proof {
        assert(s.groups@.take(n as int) =~= s.groups@);
    }
    Ok(())
}

/// Expands a workload specification into its operation stream, appending
/// one ASCII line per operation to `writer`, drawing all randomness from
/// `rng`.
///
/// On success the specification was coherent and exactly its operation
/// count of lines was appended; for a workload of nothing but inserts,
/// exactly its pre-computed byte count was appended. An incoherent
/// specification is always refused; a coherent one can only fail in the
/// empty-point-query retry loop, and only when it runs empty point
/// queries at all. Whatever was appended before a failure is not promised
/// to mean anything; what stood in `writer` before the call is never
/// touched.
pub fn write_operations(
    writer: &mut Vec<u8>,
    workload: &WorkloadSpec,
    rng: &mut rand_xoshiro::Xoshiro256Plus,
) -> (r: Result<(), WorkloadError>)
    ensures
        old(writer)@.len() <= final (writer)@.len(),
        final (writer)@.take(old(writer)@.len() as int) == old(writer)@,
        r is Ok ==> spec_workload_valid(*workload),
        !spec_workload_valid(*workload) ==> r is Err,
        r is Err ==> !spec_workload_valid(*workload) || spec_workload_runs_epq(*workload),
        (match r {
            Err(e) => spec_error_section(e) < workload.sections@.len() && spec_error_group(e)
                < workload.sections@[spec_error_section(e) as int].groups@.len() && (
            !spec_group_valid(
                workload.sections@[spec_error_section(e) as int].groups@[spec_error_group(
                    e,
                ) as int],
                spec_len_at(
                    workload.sections@[spec_error_section(e) as int].groups@,
                    spec_error_group(e) as int,
                ),
            ) || spec_group_runs_epq(
                workload.sections@[spec_error_section(e) as int].groups@[spec_error_group(
                    e,
                ) as int],
            )),
            Ok(_) => true,
        }),
        r is Ok ==> count_newlines(final (writer)@.skip(old(writer)@.len() as int))
            == spec_workload_op_count(*workload),
        r is Ok && spec_workload_inserts_only(*workload) ==> final (writer)@.len() == old(
            writer,
        )@.len() + spec_workload_bytes(*workload),
{
    let ghost w0 = old(writer)@;
    let n = workload.sections.len();
    proof {
        assert(w0.take(w0.len() as int) =~= w0);
        assert(w0.skip(w0.len() as int) =~= Seq::<u8>::empty());
    }
    for si in 0..n
        invariant
            n == workload.sections@.len(),
            forall|j: int|
                0 <= j < si ==> spec_section_valid(#[trigger] workload.sections@[j].groups@),
            w0 == old(writer)@,
            w0.len() <= writer@.len(),
            writer@.take(w0.len() as int) == w0,
            count_newlines(writer@.skip(w0.len() as int)) == spec_sections_op_count(
                workload.sections@.take(si as int),
            ),
            spec_workload_inserts_only(*workload) ==> writer@.len() == w0.len()
                + spec_sections_bytes_zero(workload.sections@.take(si as int)),
    {
        let ghost wb = writer@;
        let outcome = run_section(writer, rng, &workload.sections[si], si);
        proof {
            lemma_appended_split(w0, wb, writer@);
        }
        match outcome {
            Ok(()) => {
                proof {
                    crate::model::lemma_sections_op_count_take_step(workload.sections@, si as int);
                    lemma_sections_bytes_zero_take_step(workload.sections@, si as int);
                }
            },
            Err(e) => {
                proof {
                    if !spec_section_valid(workload.sections@[si as int].groups@) {
                        assert(!spec_workload_valid(*workload));
                    } else {
                        assert(spec_workload_runs_epq(*workload)) by {
                            assert(spec_groups_run_epq(workload.sections@[si as int].groups@));
                        }
                    }
                }
                return Err(e);
            },
        }
    }
    proof {
        assert(workload.sections@.take(n as int) =~= workload.sections@);
        if spec_workload_inserts_only(*workload) {
            lemma_sections_bytes_zero_eq(workload.sections@);
        }
    }
    Ok(())
}

/// The byte count of a run of insert-only sections, with no key length
/// assumed for lines that reference existing keys (none is produced).
pub open spec fn spec_sections_bytes_zero(ss: Seq<WorkloadSpecSection>) -> int
    decreases ss.len(),
{
    if ss.len() == 0 {
        0
    } else {
        spec_sections_bytes_zero(ss.drop_last()) + spec_groups_bytes(ss.last().groups@, 0)
    }
}

proof fn lemma_sections_bytes_zero_take_step(ss: Seq<WorkloadSpecSection>, i: int)
    requires
        0 <= i < ss.len(),
    ensures
        spec_sections_bytes_zero(ss.take(i + 1)) == spec_sections_bytes_zero(ss.take(i))
            + spec_groups_bytes(ss[i].groups@, 0),
{
    assert(ss.take(i + 1).drop_last() =~= ss.take(i));
    assert(ss.take(i + 1).last() == ss[i]);
}

/// For a workload of nothing but inserts the pre-computed byte count of
/// the model coincides with the zero-key-length count the sequencer
/// tracks.
proof fn lemma_sections_bytes_zero_eq(ss: Seq<WorkloadSpecSection>)
    requires
        forall|i: int| 0 <= i < ss.len() ==> spec_groups_inserts_only(#[trigger] ss[i].groups@),
    ensures
        spec_sections_bytes_zero(ss) == crate::model::spec_sections_bytes(ss),
    decreases ss.len(),
{
    if ss.len() > 0 {
        assert(forall|i: int|
            0 <= i < ss.drop_last().len() ==> spec_groups_inserts_only(
                #[trigger] ss.drop_last()[i].groups@,
            ));
        lemma_sections_bytes_zero_eq(ss.drop_last());
        assert(spec_groups_inserts_only(ss.last().groups@));
        lemma_groups_bytes_ikl_irrelevant(
            ss.last().groups@,
            crate::model::spec_groups_key_len(ss.last().groups@),
        );
    }
}


} // verus!
