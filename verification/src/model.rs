//! The workload specification model: a declarative description of how many
//! operations of each kind to produce, with what key and value sizes.
//!
//! A workload is an ordered sequence of sections; keys never cross section
//! boundaries. A section is an ordered sequence of groups; the operations of
//! a group share the section's set of currently valid keys. Each group holds
//! at most one request per operation kind.

use vstd::prelude::*;

verus! {

/// Request for inserts in a group.
#[derive(Copy, Clone, Debug, PartialEq, Eq, Structural)]
pub struct Inserts {
    /// Number of inserts.
    pub amount: usize,
    /// Length in bytes of each generated key.
    pub key_len: usize,
    /// Length in bytes of each generated value.
    pub val_len: usize,
}

/// Request for updates of existing keys in a group.
#[derive(Copy, Clone, Debug, PartialEq, Eq, Structural)]
pub struct Updates {
    /// Number of updates.
    pub amount: usize,
    /// Length in bytes of each generated value.
    pub val_len: usize,
}

/// Request for deletes of existing keys in a group.
#[derive(Copy, Clone, Debug, PartialEq, Eq, Structural)]
pub struct Deletes {
    /// Number of deletes.
    pub amount: usize,
}

/// Request for point queries of existing keys in a group.
#[derive(Copy, Clone, Debug, PartialEq, Eq, Structural)]
pub struct PointQueries {
    /// Number of point queries.
    pub amount: usize,
}

/// Request for point queries of keys guaranteed to be absent.
#[derive(Copy, Clone, Debug, PartialEq, Eq, Structural)]
pub struct EmptyPointQueries {
    /// Number of point queries.
    pub amount: usize,
    /// Length in bytes of each probed key.
    pub key_len: usize,
}

/// One million: the denominator of the fixed-point selectivity scale.
pub const PPM_SCALE: u32 = 1000000;

/// Request for range queries over the currently valid keys in a group.
#[derive(Copy, Clone, Debug, PartialEq, Eq, Structural)]
pub struct RangeQueries {
    /// Number of range queries.
    pub amount: usize,
    /// Fraction of the currently valid keys that a query's bounds should
    /// span, in parts per million; at most [`PPM_SCALE`] (which means all
    /// of them).
    pub selectivity_ppm: u32,
}

/// The key-space a section draws its keys from. Fixed to one value in the
/// current behaviour; an extension point of the input format.
#[derive(Copy, Clone, Debug, PartialEq, Eq, Structural)]
pub enum KeySpace {
    Alphanumeric,
}

/// The distribution keys are drawn with. Fixed to one value in the current
/// behaviour; an extension point of the input format.
#[derive(Copy, Clone, Debug, PartialEq, Eq, Structural)]
pub enum KeyDistribution {
    Uniform,
}

/// An unordered bundle of operation requests, at most one of each kind,
/// resolved against the owning section's set of currently valid keys.
#[derive(Copy, Clone, Debug)]
pub struct WorkloadSpecGroup {
    pub inserts: Option<Inserts>,
    pub updates: Option<Updates>,
    pub deletes: Option<Deletes>,
    pub point_queries: Option<PointQueries>,
    pub empty_point_queries: Option<EmptyPointQueries>,
    pub range_queries: Option<RangeQueries>,
}

/// An independent partition of the key space: a list of groups sharing one
/// set of valid keys, discarded when the section ends.
#[derive(Clone, Debug)]
pub struct WorkloadSpecSection {
    /// The operation groups; later groups see the keys earlier groups left
    /// valid.
    pub groups: Vec<WorkloadSpecGroup>,
    /// The domain the keys are drawn from.
    pub key_space: KeySpace,
    /// The distribution the keys are drawn with.
    pub key_distribution: KeyDistribution,
}

/// A whole workload: its sections in order.
#[derive(Clone, Debug)]
pub struct WorkloadSpec {
    pub sections: Vec<WorkloadSpecSection>,
}

/// Number of operations a group requests, by kind.
pub open spec fn spec_ins_amount(g: WorkloadSpecGroup) -> int {
    match g.inserts {
        Some(s) => s.amount as int,
        None => 0,
    }
}

pub open spec fn spec_upd_amount(g: WorkloadSpecGroup) -> int {
    match g.updates {
        Some(s) => s.amount as int,
        None => 0,
    }
}

pub open spec fn spec_del_amount(g: WorkloadSpecGroup) -> int {
    match g.deletes {
        Some(s) => s.amount as int,
        None => 0,
    }
}

pub open spec fn spec_pq_amount(g: WorkloadSpecGroup) -> int {
    match g.point_queries {
        Some(s) => s.amount as int,
        None => 0,
    }
}

pub open spec fn spec_epq_amount(g: WorkloadSpecGroup) -> int {
    match g.empty_point_queries {
        Some(s) => s.amount as int,
        None => 0,
    }
}

pub open spec fn spec_rq_amount(g: WorkloadSpecGroup) -> int {
    match g.range_queries {
        Some(s) => s.amount as int,
        None => 0,
    }
}

/// Total number of operations a group requests.
pub open spec fn spec_group_op_count(g: WorkloadSpecGroup) -> int {
    spec_ins_amount(g) + spec_upd_amount(g) + spec_del_amount(g) + spec_pq_amount(g)
        + spec_epq_amount(g) + spec_rq_amount(g)
}

/// Total number of operations the groups of a section request.
pub open spec fn spec_groups_op_count(gs: Seq<WorkloadSpecGroup>) -> int
    decreases gs.len(),
{
    if gs.len() == 0 {
        0
    } else {
        spec_groups_op_count(gs.drop_last()) + spec_group_op_count(gs.last())
    }
}

/// Total number of operations a workload requests.
pub open spec fn spec_sections_op_count(ss: Seq<WorkloadSpecSection>) -> int
    decreases ss.len(),
{
    if ss.len() == 0 {
        0
    } else {
        spec_sections_op_count(ss.drop_last()) + spec_groups_op_count(ss.last().groups@)
    }
}

pub open spec fn spec_workload_op_count(w: WorkloadSpec) -> int {
    spec_sections_op_count(w.sections@)
}

/// The key length of a group's inserts, or zero when it has none.
pub open spec fn spec_ins_key_len(g: WorkloadSpecGroup) -> int {
    match g.inserts {
        Some(s) => s.key_len as int,
        None => 0,
    }
}

/// The largest insert key length over the groups of a section: the length
/// the pre-flight size of update, delete, point-query and range-query lines
/// is computed with.
pub open spec fn spec_groups_key_len(gs: Seq<WorkloadSpecGroup>) -> int
    decreases gs.len(),
{
    if gs.len() == 0 {
        0
    } else {
        let rest = spec_groups_key_len(gs.drop_last());
        let cur = spec_ins_key_len(gs.last());
        if cur > rest {
            cur
        } else {
            rest
        }
    }
}

/// Exact byte length of the lines one group produces, given the key length
/// assumed for lines that reference existing keys. Each line holds a one-byte
/// tag, a space before each field, and a final newline.
pub open spec fn spec_group_bytes(g: WorkloadSpecGroup, insert_key_len: int) -> int {
    let bytes_insert = match g.inserts {
        Some(s) => (4 + s.key_len + s.val_len) * s.amount,
        None => 0,
    };
    let bytes_update = match g.updates {
        Some(s) => (4 + insert_key_len + s.val_len) * s.amount,
        None => 0,
    };
    let bytes_delete = match g.deletes {
        Some(s) => (3 + insert_key_len) * s.amount,
        None => 0,
    };
    let bytes_pq = match g.point_queries {
        Some(s) => (3 + insert_key_len) * s.amount,
        None => 0,
    };
    let bytes_epq = match g.empty_point_queries {
        Some(s) => (3 + s.key_len) * s.amount,
        None => 0,
    };
    let bytes_rq = match g.range_queries {
        Some(s) => (4 + insert_key_len + insert_key_len) * s.amount,
        None => 0,
    };
    bytes_insert + bytes_update + bytes_delete + bytes_pq + bytes_epq + bytes_rq
}

pub open spec fn spec_groups_bytes(gs: Seq<WorkloadSpecGroup>, insert_key_len: int) -> int
    decreases gs.len(),
{
    if gs.len() == 0 {
        0
    } else {
        spec_groups_bytes(gs.drop_last(), insert_key_len) + spec_group_bytes(
            gs.last(),
            insert_key_len,
        )
    }
}

pub open spec fn spec_section_bytes(s: WorkloadSpecSection) -> int {
    spec_groups_bytes(s.groups@, spec_groups_key_len(s.groups@))
}

pub open spec fn spec_sections_bytes(ss: Seq<WorkloadSpecSection>) -> int
    decreases ss.len(),
{
    if ss.len() == 0 {
        0
    } else {
        spec_sections_bytes(ss.drop_last()) + spec_section_bytes(ss.last())
    }
}

pub open spec fn spec_workload_bytes(w: WorkloadSpec) -> int {
    spec_sections_bytes(w.sections@)
}

/// Total number of inserts the groups of a section request.
pub open spec fn spec_groups_insert_count(gs: Seq<WorkloadSpecGroup>) -> int
    decreases gs.len(),
{
    if gs.len() == 0 {
        0
    } else {
        spec_groups_insert_count(gs.drop_last()) + spec_ins_amount(gs.last())
    }
}

impl WorkloadSpecGroup {
    /// Total number of operations this group requests: the number of lines
    /// it contributes to the output.
    pub fn operation_count(&self) -> (r: usize)
        requires
            spec_group_op_count(*self) <= usize::MAX,
        ensures
            r == spec_group_op_count(*self),
    {
        let a = match self.inserts {
            Some(s) => s.amount,
            None => 0,
        };
        let b = match self.updates {
            Some(s) => s.amount,
            None => 0,
        };
        let c = match self.deletes {
            Some(s) => s.amount,
            None => 0,
        };
        let d = match self.point_queries {
            Some(s) => s.amount,
            None => 0,
        };
        let e = match self.empty_point_queries {
            Some(s) => s.amount,
            None => 0,
        };
        let f = match self.range_queries {
            Some(s) => s.amount,
            None => 0,
        };
        a + b + c + d + e + f
    }

    /// Exact byte length of the lines this group produces, with
    /// `insert_key_len` assumed for lines that reference existing keys.
    pub fn bytes_count(&self, insert_key_len: usize) -> (r: usize)
        requires
            spec_group_bytes(*self, insert_key_len as int) <= usize::MAX,
        ensures
            r == spec_group_bytes(*self, insert_key_len as int),
    {
        let ikl = insert_key_len as u128;
        let bytes_insert: u128 = match self.inserts {
            Some(s) => (4 + s.key_len as u128 + s.val_len as u128) * s.amount as u128,
            None => 0,
        };
        let bytes_update: u128 = match self.updates {
            Some(s) => (4 + ikl + s.val_len as u128) * s.amount as u128,
            None => 0,
        };
        let bytes_delete: u128 = match self.deletes {
            Some(s) => (3 + ikl) * s.amount as u128,
            None => 0,
        };
        let bytes_pq: u128 = match self.point_queries {
            Some(s) => (3 + ikl) * s.amount as u128,
            None => 0,
        };
        let bytes_epq: u128 = match self.empty_point_queries {
            Some(s) => (3 + s.key_len as u128) * s.amount as u128,
            None => 0,
        };
        let bytes_rq: u128 = match self.range_queries {
            Some(s) => (4 + ikl + ikl) * s.amount as u128,
            None => 0,
        };
        (bytes_insert + bytes_update + bytes_delete + bytes_pq + bytes_epq + bytes_rq) as usize
    }
}

impl WorkloadSpecSection {
    /// Total number of operations the groups of this section request.
    pub fn operation_count(&self) -> (r: usize)
        requires
            spec_groups_op_count(self.groups@) <= usize::MAX,
        ensures
            r == spec_groups_op_count(self.groups@),
    {
        let mut total: usize = 0;
        let n = self.groups.len();
        for i in 0..n
            invariant
                n == self.groups@.len(),
                total == spec_groups_op_count(self.groups@.take(i as int)),
                spec_groups_op_count(self.groups@) <= usize::MAX,
        {
            proof {
                lemma_groups_op_count_take_step(self.groups@, i as int);
                lemma_groups_op_count_prefix_bound(self.groups@, i + 1);
                lemma_group_op_count_nonneg(self.groups@[i as int]);
                lemma_groups_op_count_nonneg(self.groups@.take(i as int));
            }
            let g = self.groups[i];
            total = total + g.operation_count();
        }
        proof {
            assert(self.groups@.take(n as int) =~= self.groups@);
        }
        total
    }

    /// The largest insert key length over this section's groups.
    pub fn insert_key_len(&self) -> (r: usize)
        ensures
            r == spec_groups_key_len(self.groups@),
    {
        let mut best: usize = 0;
        let n = self.groups.len();
        for i in 0..n
            invariant
                n == self.groups@.len(),
                best == spec_groups_key_len(self.groups@.take(i as int)),
        {
            proof {
                assert(self.groups@.take(i + 1).drop_last() =~= self.groups@.take(i as int));
                assert(self.groups@.take(i + 1).last() == self.groups@[i as int]);
            }
            let cur = match self.groups[i].inserts {
                Some(s) => s.key_len,
                None => 0,
            };
            if cur > best {
                best = cur;
            }
        }
        proof {
            assert(self.groups@.take(n as int) =~= self.groups@);
        }
        best
    }

    /// Exact byte length of the lines this section produces, as computable
    /// before any generation: lines that reference existing keys are counted
    /// with the section's largest insert key length.
    pub fn bytes_count(&self) -> (r: usize)
        requires
            self.groups@.len() >= 1,
            spec_section_bytes(*self) <= usize::MAX,
        ensures
            r == spec_section_bytes(*self),
    {
        let ikl = self.insert_key_len();
        let ghost iklg = ikl as int;
        let mut total: usize = 0;
        let n = self.groups.len();
        for i in 0..n
            invariant
                n == self.groups@.len(),
                iklg == spec_groups_key_len(self.groups@),
                ikl == iklg,
                total == spec_groups_bytes(self.groups@.take(i as int), iklg),
                spec_groups_bytes(self.groups@, iklg) <= usize::MAX,
        {
            proof {
                lemma_groups_bytes_take_step(self.groups@, iklg, i as int);
                lemma_groups_bytes_prefix_bound(self.groups@, iklg, i + 1);
                lemma_group_bytes_nonneg(self.groups@[i as int], iklg);
                lemma_groups_bytes_nonneg(self.groups@.take(i as int), iklg);
            }
            let g = self.groups[i];
            total = total + g.bytes_count(ikl);
        }
        proof {
            assert(self.groups@.take(n as int) =~= self.groups@);
        }
        total
    }

    /// Total number of inserts this section requests: the final size the
    /// section's key set would reach if nothing were deleted.
    pub fn insert_count(&self) -> (r: usize)
        requires
            spec_groups_insert_count(self.groups@) <= usize::MAX,
        ensures
            r == spec_groups_insert_count(self.groups@),
    {
        let mut total: usize = 0;
        let n = self.groups.len();
        for i in 0..n
            invariant
                n == self.groups@.len(),
                total == spec_groups_insert_count(self.groups@.take(i as int)),
                spec_groups_insert_count(self.groups@) <= usize::MAX,
        {
            proof {
                assert(self.groups@.take(i + 1).drop_last() =~= self.groups@.take(i as int));
                assert(self.groups@.take(i + 1).last() == self.groups@[i as int]);
                lemma_groups_insert_count_prefix_bound(self.groups@, i + 1);
                lemma_groups_insert_count_nonneg(self.groups@.take(i as int));
            }
            let a = match self.groups[i].inserts {
                Some(s) => s.amount,
                None => 0,
            };
            total = total + a;
        }
        proof {
            assert(self.groups@.take(n as int) =~= self.groups@);
        }
        total
    }

    /// Whether any group of this section requests inserts.
    pub fn has_inserts(&self) -> (r: bool)
        ensures
            r == exists|i: int| 0 <= i < self.groups@.len() && (#[trigger] self.groups@[i].inserts) is Some,
    {
        let n = self.groups.len();
        for i in 0..n
            invariant
                n == self.groups@.len(),
                forall|j: int| 0 <= j < i ==> (#[trigger] self.groups@[j].inserts) is None,
        {
            if self.groups[i].inserts.is_some() {
                return true;
            }
        }
        false
    }

    /// Whether any group of this section requests updates.
    pub fn has_updates(&self) -> (r: bool)
        ensures
            r == exists|i: int| 0 <= i < self.groups@.len() && (#[trigger] self.groups@[i].updates) is Some,
    {
        let n = self.groups.len();
        for i in 0..n
            invariant
                n == self.groups@.len(),
                forall|j: int| 0 <= j < i ==> (#[trigger] self.groups@[j].updates) is None,
        {
            if self.groups[i].updates.is_some() {
                return true;
            }
        }
        false
    }

    /// Whether any group of this section requests deletes.
    pub fn has_deletes(&self) -> (r: bool)
        ensures
            r == exists|i: int| 0 <= i < self.groups@.len() && (#[trigger] self.groups@[i].deletes) is Some,
    {
        let n = self.groups.len();
        for i in 0..n
            invariant
                n == self.groups@.len(),
                forall|j: int| 0 <= j < i ==> (#[trigger] self.groups@[j].deletes) is None,
        {
            if self.groups[i].deletes.is_some() {
                return true;
            }
        }
        false
    }

    /// Whether any group of this section requests point queries.
    pub fn has_point_queries(&self) -> (r: bool)
        ensures
            r == exists|i: int|
                0 <= i < self.groups@.len() && (#[trigger] self.groups@[i].point_queries) is Some,
    {
        let n = self.groups.len();
        for i in 0..n
            invariant
                n == self.groups@.len(),
                forall|j: int| 0 <= j < i ==> (#[trigger] self.groups@[j].point_queries) is None,
        {
            if self.groups[i].point_queries.is_some() {
                return true;
            }
        }
        false
    }

    /// Whether any group of this section requests empty point queries.
    pub fn has_empty_point_queries(&self) -> (r: bool)
        ensures
            r == exists|i: int|
                0 <= i < self.groups@.len() && (#[trigger] self.groups@[i].empty_point_queries) is Some,
    {
        let n = self.groups.len();
        for i in 0..n
            invariant
                n == self.groups@.len(),
                forall|j: int|
                    0 <= j < i ==> (#[trigger] self.groups@[j].empty_point_queries) is None,
        {
            if self.groups[i].empty_point_queries.is_some() {
                return true;
            }
        }
        false
    }

    /// Whether any group of this section requests range queries.
    pub fn has_range_queries(&self) -> (r: bool)
        ensures
            r == exists|i: int|
                0 <= i < self.groups@.len() && (#[trigger] self.groups@[i].range_queries) is Some,
    {
        let n = self.groups.len();
        for i in 0..n
            invariant
                n == self.groups@.len(),
                forall|j: int| 0 <= j < i ==> (#[trigger] self.groups@[j].range_queries) is None,
        {
            if self.groups[i].range_queries.is_some() {
                return true;
            }
        }
        false
    }
}

impl WorkloadSpec {
    /// Total number of operations this workload requests: the number of
    /// lines of its output.
    pub fn operation_count(&self) -> (r: usize)
        requires
            spec_workload_op_count(*self) <= usize::MAX,
        ensures
            r == spec_workload_op_count(*self),
    {
        let mut total: usize = 0;
        let n = self.sections.len();
        for i in 0..n
            invariant
                n == self.sections@.len(),
                total == spec_sections_op_count(self.sections@.take(i as int)),
                spec_sections_op_count(self.sections@) <= usize::MAX,
        {
            proof {
                assert(self.sections@.take(i + 1).drop_last() =~= self.sections@.take(i as int));
                assert(self.sections@.take(i + 1).last() == self.sections@[i as int]);
                lemma_sections_op_count_prefix_bound(self.sections@, i + 1);
                lemma_sections_op_count_nonneg(self.sections@.take(i as int));
                lemma_groups_op_count_nonneg_all(self.sections@[i as int].groups@);
            }
            let c = self.sections[i].operation_count();
            total = total + c;
        }
        proof {
            assert(self.sections@.take(n as int) =~= self.sections@);
        }
        total
    }

    /// Exact byte length of this workload's output as computable before any
    /// generation, section by section.
    pub fn bytes_count(&self) -> (r: usize)
        requires
            forall|i: int| 0 <= i < self.sections@.len() ==> (#[trigger] self.sections@[i]).groups@.len() >= 1,
            spec_workload_bytes(*self) <= usize::MAX,
        ensures
            r == spec_workload_bytes(*self),
    {
        let mut total: usize = 0;
        let n = self.sections.len();
        for i in 0..n
            invariant
                n == self.sections@.len(),
                total == spec_sections_bytes(self.sections@.take(i as int)),
                spec_sections_bytes(self.sections@) <= usize::MAX,
                forall|j: int|
                    0 <= j < self.sections@.len() ==> (#[trigger] self.sections@[j]).groups@.len() >= 1,
        {
            proof {
                assert(self.sections@.take(i + 1).drop_last() =~= self.sections@.take(i as int));
                assert(self.sections@.take(i + 1).last() == self.sections@[i as int]);
                lemma_sections_bytes_prefix_bound(self.sections@, i + 1);
                lemma_sections_bytes_nonneg(self.sections@.take(i as int));
                lemma_section_bytes_nonneg(self.sections@[i as int]);
            }
            let c = self.sections[i].bytes_count();
            total = total + c;
        }
        proof {
            assert(self.sections@.take(n as int) =~= self.sections@);
        }
        total
    }
}

pub(crate) proof fn lemma_group_op_count_nonneg(g: WorkloadSpecGroup)
    ensures
        spec_group_op_count(g) >= 0,
{
}

pub(crate) proof fn lemma_groups_op_count_nonneg(gs: Seq<WorkloadSpecGroup>)
    ensures
        spec_groups_op_count(gs) >= 0,
    decreases gs.len(),
{
    if gs.len() > 0 {
        lemma_groups_op_count_nonneg(gs.drop_last());
    }
}

/// Every suffix extension step of the running operation total.
pub(crate) proof fn lemma_groups_op_count_take_step(gs: Seq<WorkloadSpecGroup>, i: int)
    requires
        0 <= i < gs.len(),
    ensures
        spec_groups_op_count(gs.take(i + 1)) == spec_groups_op_count(gs.take(i))
            + spec_group_op_count(gs[i]),
{
    assert(gs.take(i + 1).drop_last() =~= gs.take(i));
    assert(gs.take(i + 1).last() == gs[i]);
}

/// A prefix never counts more operations than the whole.
pub(crate) proof fn lemma_groups_op_count_prefix_bound(gs: Seq<WorkloadSpecGroup>, i: int)
    requires
        0 <= i <= gs.len(),
    ensures
        spec_groups_op_count(gs.take(i)) <= spec_groups_op_count(gs),
    decreases gs.len() - i,
{
    if i < gs.len() {
        lemma_groups_op_count_take_step(gs, i);
        lemma_group_op_count_nonneg(gs[i]);
        lemma_groups_op_count_prefix_bound(gs, i + 1);
    } else {
        assert(gs.take(i) =~= gs);
    }
}

proof fn lemma_groups_op_count_nonneg_all(gs: Seq<WorkloadSpecGroup>)
    ensures
        spec_groups_op_count(gs) >= 0,
{
    lemma_groups_op_count_nonneg(gs);
}

pub(crate) proof fn lemma_sections_op_count_nonneg(ss: Seq<WorkloadSpecSection>)
    ensures
        spec_sections_op_count(ss) >= 0,
    decreases ss.len(),
{
    if ss.len() > 0 {
        lemma_sections_op_count_nonneg(ss.drop_last());
        lemma_groups_op_count_nonneg(ss.last().groups@);
    }
}

pub(crate) proof fn lemma_sections_op_count_take_step(ss: Seq<WorkloadSpecSection>, i: int)
    requires
        0 <= i < ss.len(),
    ensures
        spec_sections_op_count(ss.take(i + 1)) == spec_sections_op_count(ss.take(i))
            + spec_groups_op_count(ss[i].groups@),
{
    assert(ss.take(i + 1).drop_last() =~= ss.take(i));
    assert(ss.take(i + 1).last() == ss[i]);
}

pub(crate) proof fn lemma_sections_op_count_prefix_bound(ss: Seq<WorkloadSpecSection>, i: int)
    requires
        0 <= i <= ss.len(),
    ensures
        spec_sections_op_count(ss.take(i)) <= spec_sections_op_count(ss),
    decreases ss.len() - i,
{
    if i < ss.len() {
        lemma_sections_op_count_take_step(ss, i);
        lemma_groups_op_count_nonneg(ss[i].groups@);
        lemma_sections_op_count_prefix_bound(ss, i + 1);
    } else {
        assert(ss.take(i) =~= ss);
    }
}

pub(crate) proof fn lemma_group_bytes_nonneg(g: WorkloadSpecGroup, ikl: int)
    requires
        ikl >= 0,
    ensures
        spec_group_bytes(g, ikl) >= 0,
{
}

pub(crate) proof fn lemma_groups_bytes_nonneg(gs: Seq<WorkloadSpecGroup>, ikl: int)
    requires
        ikl >= 0,
    ensures
        spec_groups_bytes(gs, ikl) >= 0,
    decreases gs.len(),
{
    if gs.len() > 0 {
        lemma_groups_bytes_nonneg(gs.drop_last(), ikl);
        lemma_group_bytes_nonneg(gs.last(), ikl);
    }
}

pub(crate) proof fn lemma_groups_bytes_take_step(gs: Seq<WorkloadSpecGroup>, ikl: int, i: int)
    requires
        0 <= i < gs.len(),
    ensures
        spec_groups_bytes(gs.take(i + 1), ikl) == spec_groups_bytes(gs.take(i), ikl)
            + spec_group_bytes(gs[i], ikl),
{
    assert(gs.take(i + 1).drop_last() =~= gs.take(i));
    assert(gs.take(i + 1).last() == gs[i]);
}

pub(crate) proof fn lemma_groups_bytes_prefix_bound(gs: Seq<WorkloadSpecGroup>, ikl: int, i: int)
    requires
        0 <= i <= gs.len(),
        ikl >= 0,
    ensures
        spec_groups_bytes(gs.take(i), ikl) <= spec_groups_bytes(gs, ikl),
    decreases gs.len() - i,
{
    if i < gs.len() {
        lemma_groups_bytes_take_step(gs, ikl, i);
        lemma_group_bytes_nonneg(gs[i], ikl);
        lemma_groups_bytes_prefix_bound(gs, ikl, i + 1);
    } else {
        assert(gs.take(i) =~= gs);
    }
}

/// The largest insert key length is never negative.
pub(crate) proof fn lemma_groups_key_len_nonneg(gs: Seq<WorkloadSpecGroup>)
    ensures
        spec_groups_key_len(gs) >= 0,
    decreases gs.len(),
{
    if gs.len() > 0 {
        lemma_groups_key_len_nonneg(gs.drop_last());
    }
}

pub(crate) proof fn lemma_section_bytes_nonneg(s: WorkloadSpecSection)
    ensures
        spec_section_bytes(s) >= 0,
{
    lemma_groups_key_len_nonneg(s.groups@);
    lemma_groups_bytes_nonneg(s.groups@, spec_groups_key_len(s.groups@));
}

pub(crate) proof fn lemma_sections_bytes_nonneg(ss: Seq<WorkloadSpecSection>)
    ensures
        spec_sections_bytes(ss) >= 0,
    decreases ss.len(),
{
    if ss.len() > 0 {
        lemma_sections_bytes_nonneg(ss.drop_last());
        lemma_section_bytes_nonneg(ss.last());
    }
}

pub(crate) proof fn lemma_sections_bytes_take_step(ss: Seq<WorkloadSpecSection>, i: int)
    requires
        0 <= i < ss.len(),
    ensures
        spec_sections_bytes(ss.take(i + 1)) == spec_sections_bytes(ss.take(i))
            + spec_section_bytes(ss[i]),
{
    assert(ss.take(i + 1).drop_last() =~= ss.take(i));
    assert(ss.take(i + 1).last() == ss[i]);
}

pub(crate) proof fn lemma_sections_bytes_prefix_bound(ss: Seq<WorkloadSpecSection>, i: int)
    requires
        0 <= i <= ss.len(),
    ensures
        spec_sections_bytes(ss.take(i)) <= spec_sections_bytes(ss),
    decreases ss.len() - i,
{
    if i < ss.len() {
        lemma_sections_bytes_take_step(ss, i);
        lemma_section_bytes_nonneg(ss[i]);
        lemma_sections_bytes_prefix_bound(ss, i + 1);
    } else {
        assert(ss.take(i) =~= ss);
    }
}

proof fn lemma_groups_insert_count_nonneg(gs: Seq<WorkloadSpecGroup>)
    ensures
        spec_groups_insert_count(gs) >= 0,
    decreases gs.len(),
{
    if gs.len() > 0 {
        lemma_groups_insert_count_nonneg(gs.drop_last());
    }
}

proof fn lemma_groups_insert_count_prefix_bound(gs: Seq<WorkloadSpecGroup>, i: int)
    requires
        0 <= i <= gs.len(),
    ensures
        spec_groups_insert_count(gs.take(i)) <= spec_groups_insert_count(gs),
    decreases gs.len() - i,
{
    if i < gs.len() {
        assert(gs.take(i + 1).drop_last() =~= gs.take(i));
        assert(gs.take(i + 1).last() == gs[i]);
        lemma_groups_insert_count_prefix_bound(gs, i + 1);
    } else {
        assert(gs.take(i) =~= gs);
    }
}

} // verus!
