use workload_gen::model::{
    Deletes, EmptyPointQueries, Inserts, KeyDistribution, KeySpace, PointQueries, RangeQueries,
    Updates, WorkloadSpec, WorkloadSpecGroup, WorkloadSpecSection,
};

fn empty_group() -> WorkloadSpecGroup {
    WorkloadSpecGroup {
        inserts: None,
        updates: None,
        deletes: None,
        point_queries: None,
        empty_point_queries: None,
        range_queries: None,
    }
}

fn full_group() -> WorkloadSpecGroup {
    WorkloadSpecGroup {
        inserts: Some(Inserts { amount: 2, key_len: 4, val_len: 5 }),
        updates: Some(Updates { amount: 3, val_len: 2 }),
        deletes: Some(Deletes { amount: 4 }),
        point_queries: Some(PointQueries { amount: 5 }),
        empty_point_queries: Some(EmptyPointQueries { amount: 6, key_len: 3 }),
        range_queries: Some(RangeQueries { amount: 7, selectivity_ppm: 250_000 }),
    }
}

fn section(groups: Vec<WorkloadSpecGroup>) -> WorkloadSpecSection {
    WorkloadSpecSection {
        groups,
        key_space: KeySpace::Alphanumeric,
        key_distribution: KeyDistribution::Uniform,
    }
}

#[test]
fn group_operation_count_sums_all_kinds() {
    assert_eq!(full_group().operation_count(), 2 + 3 + 4 + 5 + 6 + 7);
    assert_eq!(empty_group().operation_count(), 0);
}

#[test]
fn group_bytes_count_is_exact() {
    // With an assumed key length of 10 for lines referencing existing keys:
    // inserts (2+4+1+5+1)*2, updates (2+10+1+2+1)*3, deletes (2+10+1)*4,
    // point queries (2+10+1)*5, empty point queries (2+3+1)*6, range
    // queries (2+10+1+10+1)*7.
    let expected = 13 * 2 + 16 * 3 + 13 * 4 + 13 * 5 + 6 * 6 + 24 * 7;
    assert_eq!(full_group().bytes_count(10), expected);
    assert_eq!(empty_group().bytes_count(10), 0);
}

#[test]
fn section_counts_and_flags() {
    let s = section(vec![
        WorkloadSpecGroup {
            inserts: Some(Inserts { amount: 3, key_len: 4, val_len: 4 }),
            ..empty_group()
        },
        WorkloadSpecGroup {
            inserts: Some(Inserts { amount: 2, key_len: 8, val_len: 1 }),
            deletes: Some(Deletes { amount: 1 }),
            ..empty_group()
        },
    ]);
    assert_eq!(s.operation_count(), 6);
    assert_eq!(s.insert_count(), 5);
    assert_eq!(s.insert_key_len(), 8);
    // Lines referencing existing keys are sized with the largest insert key
    // length, here 8: inserts (2+4+1+4+1)*3 + (2+8+1+1+1)*2, deletes
    // (2+8+1)*1.
    assert_eq!(s.bytes_count(), 12 * 3 + 13 * 2 + 11);
    assert!(s.has_inserts());
    assert!(s.has_deletes());
    assert!(!s.has_updates());
    assert!(!s.has_point_queries());
    assert!(!s.has_empty_point_queries());
    assert!(!s.has_range_queries());
}

#[test]
fn workload_counts_sum_sections() {
    let w = WorkloadSpec {
        sections: vec![
            section(vec![WorkloadSpecGroup {
                inserts: Some(Inserts { amount: 3, key_len: 4, val_len: 4 }),
                ..empty_group()
            }]),
            section(vec![WorkloadSpecGroup {
                inserts: Some(Inserts { amount: 2, key_len: 2, val_len: 2 }),
                ..empty_group()
            }]),
        ],
    };
    assert_eq!(w.operation_count(), 5);
    assert_eq!(w.bytes_count(), 12 * 3 + 8 * 2);
}

#[test]
fn section_flags_cover_all_kinds() {
    let s = section(vec![
        WorkloadSpecGroup { updates: Some(Updates { amount: 1, val_len: 1 }), ..empty_group() },
        WorkloadSpecGroup { point_queries: Some(PointQueries { amount: 1 }), ..empty_group() },
        WorkloadSpecGroup {
            empty_point_queries: Some(EmptyPointQueries { amount: 1, key_len: 1 }),
            ..empty_group()
        },
        WorkloadSpecGroup {
            range_queries: Some(RangeQueries { amount: 1, selectivity_ppm: 1 }),
            ..empty_group()
        },
    ]);
    assert!(!s.has_inserts());
    assert!(!s.has_deletes());
    assert!(s.has_updates());
    assert!(s.has_point_queries());
    assert!(s.has_empty_point_queries());
    assert!(s.has_range_queries());
}
