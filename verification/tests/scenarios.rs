use workload_gen::model::{
    Deletes, EmptyPointQueries, Inserts, KeyDistribution, KeySpace, PointQueries, RangeQueries,
    WorkloadSpec, WorkloadSpecGroup, WorkloadSpecSection,
};
use workload_gen::rng::rng_from_seed;
use workload_gen::sequence::{write_operations, WorkloadError};

fn empty_group() -> WorkloadSpecGroup {
    WorkloadSpecGroup {
        inserts: None,
        updates: None,
        deletes: None,
        point_queries: None,
        empty_point_queries: None,
        range_queries: None,
    }
}

fn one_section(groups: Vec<WorkloadSpecGroup>) -> WorkloadSpec {
    WorkloadSpec {
        sections: vec![WorkloadSpecSection {
            groups,
            key_space: KeySpace::Alphanumeric,
            key_distribution: KeyDistribution::Uniform,
        }],
    }
}

fn is_alnum(b: u8) -> bool {
    b.is_ascii_alphanumeric()
}

#[test]
fn single_insert_line_shape() {
    let spec = one_section(vec![WorkloadSpecGroup {
        inserts: Some(Inserts { amount: 1, key_len: 4, val_len: 4 }),
        ..empty_group()
    }]);
    let mut buf = Vec::new();
    let mut rng = rng_from_seed(10);
    write_operations(&mut buf, &spec, &mut rng).unwrap();
    // Exactly one line shaped `I xxxx yyyy\n` over the alphanumeric
    // alphabet.
    assert_eq!(buf.len(), 12);
    assert_eq!(buf[0], b'I');
    assert_eq!(buf[1], b' ');
    assert!(buf[2..6].iter().all(|&b| is_alnum(b)));
    assert_eq!(buf[6], b' ');
    assert!(buf[7..11].iter().all(|&b| is_alnum(b)));
    assert_eq!(buf[11], b'\n');
}

#[test]
fn more_deletes_than_keys_fails() {
    let spec = one_section(vec![WorkloadSpecGroup {
        inserts: Some(Inserts { amount: 3, key_len: 4, val_len: 4 }),
        deletes: Some(Deletes { amount: 5 }),
        ..empty_group()
    }]);
    let mut buf = Vec::new();
    let mut rng = rng_from_seed(11);
    let r = write_operations(&mut buf, &spec, &mut rng);
    assert_eq!(r, Err(WorkloadError::TooManyDeletes { section: 0, group: 0 }));
}

#[test]
fn range_query_spans_half_of_thousand() {
    let spec = one_section(vec![WorkloadSpecGroup {
        inserts: Some(Inserts { amount: 1000, key_len: 8, val_len: 8 }),
        range_queries: Some(RangeQueries { amount: 1, selectivity_ppm: 500_000 }),
        ..empty_group()
    }]);
    let mut buf = Vec::new();
    let mut rng = rng_from_seed(12);
    write_operations(&mut buf, &spec, &mut rng).unwrap();
    let lines: Vec<&[u8]> = buf.split(|&b| b == b'\n').filter(|l| !l.is_empty()).collect();
    assert_eq!(lines.len(), 1001);
    let mut keys: Vec<Vec<u8>> = Vec::new();
    for line in &lines[..1000] {
        assert_eq!(&line[..2], b"I ");
        keys.push(line[2..10].to_vec());
    }
    let rq = lines[1000];
    assert_eq!(&rq[..2], b"R ");
    let key1 = rq[2..10].to_vec();
    assert_eq!(rq[10], b' ');
    let key2 = rq[11..19].to_vec();
    assert!(key1 <= key2);
    keys.sort();
    let idx1 = keys.iter().position(|k| *k == key1).unwrap();
    let idx2 = keys.iter().position(|k| *k == key2).unwrap();
    // The pair spans exactly floor(0.5 * 1000) = 500 keys in sorted order.
    assert_eq!(idx2 - idx1, 500);
}

#[test]
fn point_query_on_empty_key_set_fails() {
    let spec = one_section(vec![WorkloadSpecGroup {
        point_queries: Some(PointQueries { amount: 1 }),
        ..empty_group()
    }]);
    let mut buf = Vec::new();
    let mut rng = rng_from_seed(13);
    let r = write_operations(&mut buf, &spec, &mut rng);
    assert_eq!(r, Err(WorkloadError::EmptyKeySet { section: 0, group: 0 }));
}

#[test]
fn selectivity_out_of_range_fails() {
    let spec = one_section(vec![WorkloadSpecGroup {
        inserts: Some(Inserts { amount: 2, key_len: 4, val_len: 4 }),
        range_queries: Some(RangeQueries { amount: 1, selectivity_ppm: 1_000_001 }),
        ..empty_group()
    }]);
    let mut buf = Vec::new();
    let mut rng = rng_from_seed(14);
    let r = write_operations(&mut buf, &spec, &mut rng);
    assert_eq!(r, Err(WorkloadError::SelectivityOutOfRange { section: 0, group: 0 }));
}

#[test]
fn drained_key_set_fails_point_query() {
    let spec = one_section(vec![
        WorkloadSpecGroup {
            inserts: Some(Inserts { amount: 2, key_len: 4, val_len: 4 }),
            ..empty_group()
        },
        WorkloadSpecGroup {
            deletes: Some(Deletes { amount: 2 }),
            point_queries: Some(PointQueries { amount: 1 }),
            ..empty_group()
        },
    ]);
    let mut buf = Vec::new();
    let mut rng = rng_from_seed(15);
    let r = write_operations(&mut buf, &spec, &mut rng);
    assert_eq!(r, Err(WorkloadError::KeySetDrained { section: 0, group: 1 }));
}

#[test]
fn empty_point_queries_exhaust_on_saturated_key_space() {
    // With zero-length keys the key space holds exactly one key; once it is
    // inserted, no absent candidate can ever be drawn.
    let spec = one_section(vec![
        WorkloadSpecGroup {
            inserts: Some(Inserts { amount: 1, key_len: 0, val_len: 1 }),
            ..empty_group()
        },
        WorkloadSpecGroup {
            empty_point_queries: Some(EmptyPointQueries { amount: 1, key_len: 0 }),
            ..empty_group()
        },
    ]);
    let mut buf = Vec::new();
    let mut rng = rng_from_seed(16);
    let r = write_operations(&mut buf, &spec, &mut rng);
    assert_eq!(r, Err(WorkloadError::EmptyPointQueriesExhausted { section: 0, group: 1 }));
}

#[test]
fn emitted_point_queries_use_valid_keys() {
    let spec = one_section(vec![WorkloadSpecGroup {
        inserts: Some(Inserts { amount: 50, key_len: 6, val_len: 3 }),
        point_queries: Some(PointQueries { amount: 20 }),
        ..empty_group()
    }]);
    let mut buf = Vec::new();
    let mut rng = rng_from_seed(17);
    write_operations(&mut buf, &spec, &mut rng).unwrap();
    let lines: Vec<&[u8]> = buf.split(|&b| b == b'\n').filter(|l| !l.is_empty()).collect();
    assert_eq!(lines.len(), 70);
    let keys: Vec<Vec<u8>> = lines[..50].iter().map(|l| l[2..8].to_vec()).collect();
    for line in &lines[50..] {
        assert_eq!(&line[..2], b"P ");
        let probed = line[2..8].to_vec();
        assert!(keys.contains(&probed));
    }
}

#[test]
fn emitted_empty_point_queries_probe_absent_keys() {
    let spec = one_section(vec![
        WorkloadSpecGroup {
            inserts: Some(Inserts { amount: 100, key_len: 4, val_len: 4 }),
            ..empty_group()
        },
        WorkloadSpecGroup {
            empty_point_queries: Some(EmptyPointQueries { amount: 200, key_len: 4 }),
            ..empty_group()
        },
    ]);
    let mut buf = Vec::new();
    let mut rng = rng_from_seed(18);
    write_operations(&mut buf, &spec, &mut rng).unwrap();
    let lines: Vec<&[u8]> = buf.split(|&b| b == b'\n').filter(|l| !l.is_empty()).collect();
    assert_eq!(lines.len(), 300);
    let keys: Vec<Vec<u8>> = lines[..100].iter().map(|l| l[2..6].to_vec()).collect();
    // Every empty point query probes a key that is not valid.
    for line in &lines[100..] {
        assert_eq!(&line[..2], b"P ");
        let probed = line[2..6].to_vec();
        assert!(!keys.contains(&probed));
    }
}

#[test]
fn mixed_group_resolves_in_fixed_kind_order() {
    let spec = one_section(vec![
        WorkloadSpecGroup {
            inserts: Some(Inserts { amount: 5, key_len: 4, val_len: 4 }),
            ..empty_group()
        },
        WorkloadSpecGroup {
            updates: Some(workload_gen::model::Updates { amount: 4, val_len: 4 }),
            deletes: Some(Deletes { amount: 3 }),
            point_queries: Some(PointQueries { amount: 2 }),
            empty_point_queries: Some(EmptyPointQueries { amount: 2, key_len: 4 }),
            range_queries: Some(RangeQueries { amount: 1, selectivity_ppm: 500_000 }),
            ..empty_group()
        },
    ]);
    let mut buf = Vec::new();
    let mut rng = rng_from_seed(19);
    write_operations(&mut buf, &spec, &mut rng).unwrap();
    let tags: Vec<u8> =
        buf.split(|&b| b == b'\n').filter(|l| !l.is_empty()).map(|l| l[0]).collect();
    // Inserts, updates, deletes, point queries, empty point queries (also
    // `P` lines), range queries: the fixed kind order.
    assert_eq!(tags, b"IIIIIUUUUDDDPPPPR".to_vec());
}

#[test]
fn earlier_output_is_preserved() {
    let spec = one_section(vec![WorkloadSpecGroup {
        inserts: Some(Inserts { amount: 1, key_len: 2, val_len: 2 }),
        ..empty_group()
    }]);
    let mut buf = b"prelude\n".to_vec();
    let mut rng = rng_from_seed(20);
    write_operations(&mut buf, &spec, &mut rng).unwrap();
    assert_eq!(&buf[..8], b"prelude\n");
    assert_eq!(buf.len(), 8 + 8);
}

#[test]
fn error_context_names_section_and_group() {
    let e = WorkloadError::TooManyDeletes { section: 3, group: 7 };
    assert_eq!(e.section(), 3);
    assert_eq!(e.group(), 7);
    assert!(!e.describe().is_empty());
}
