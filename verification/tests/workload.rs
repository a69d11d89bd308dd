use workload_gen::model::{
    Deletes, EmptyPointQueries, Inserts, KeyDistribution, KeySpace, RangeQueries, WorkloadSpec,
    WorkloadSpecGroup, WorkloadSpecSection,
};
use workload_gen::rng::rng_from_seed;
use workload_gen::sequence::write_operations;

fn empty_group() -> WorkloadSpecGroup {
    WorkloadSpecGroup {
        inserts: None,
        updates: None,
        deletes: None,
        point_queries: None,
        empty_point_queries: None,
        range_queries: None,
    }
}

fn section(groups: Vec<WorkloadSpecGroup>) -> WorkloadSpecSection {
    WorkloadSpecSection {
        groups,
        key_space: KeySpace::Alphanumeric,
        key_distribution: KeyDistribution::Uniform,
    }
}

fn newline_count(buf: &[u8]) -> usize {
    buf.iter().filter(|&&b| b == b'\n').count()
}

#[test]
fn workload_1m_i() {
    let spec = WorkloadSpec {
        sections: vec![section(vec![WorkloadSpecGroup {
            inserts: Some(Inserts { amount: 1_000_000, key_len: 8, val_len: 8 }),
            ..empty_group()
        }])],
    };
    let bytes_count = spec.bytes_count();
    let mut buf = Vec::with_capacity(bytes_count);
    let mut rng = rng_from_seed(1);
    write_operations(&mut buf, &spec, &mut rng).unwrap();
    assert_eq!(newline_count(&buf), 1_000_000);
    assert_eq!(newline_count(&buf), spec.operation_count());
    assert_eq!(buf.len(), bytes_count);
}

#[test]
fn workload_1m_i_1m_rq() {
    let spec = WorkloadSpec {
        sections: vec![section(vec![WorkloadSpecGroup {
            inserts: Some(Inserts { amount: 1_000_000, key_len: 8, val_len: 8 }),
            range_queries: Some(RangeQueries { amount: 1_000_000, selectivity_ppm: 500_000 }),
            ..empty_group()
        }])],
    };
    let bytes_count = spec.bytes_count();
    let mut buf = Vec::with_capacity(bytes_count);
    let mut rng = rng_from_seed(2);
    write_operations(&mut buf, &spec, &mut rng).unwrap();

    assert_eq!(newline_count(&buf), 2_000_000);
    assert_eq!(newline_count(&buf), spec.operation_count());
    assert_eq!(buf.len(), bytes_count);
}

#[test]
fn deletes() {
    let mut sections = Vec::with_capacity(10_000);
    for _ in 0..10_000 {
        sections.push(section(vec![
            WorkloadSpecGroup {
                inserts: Some(Inserts { amount: 100, key_len: 8, val_len: 8 }),
                ..empty_group()
            },
            WorkloadSpecGroup { deletes: Some(Deletes { amount: 10 }), ..empty_group() },
        ]));
    }
    let spec = WorkloadSpec { sections };
    let bytes_count = spec.bytes_count();
    let mut buf = Vec::with_capacity(bytes_count);
    let mut rng = rng_from_seed(3);
    write_operations(&mut buf, &spec, &mut rng).unwrap();
    assert_eq!(newline_count(&buf), 1_100_000);
    assert_eq!(buf.len(), bytes_count);
}

#[test]
fn empty_point_queries() {
    let spec = WorkloadSpec {
        sections: vec![section(vec![
            WorkloadSpecGroup {
                inserts: Some(Inserts { amount: 1_000, key_len: 8, val_len: 8 }),
                ..empty_group()
            },
            WorkloadSpecGroup {
                empty_point_queries: Some(EmptyPointQueries { amount: 100_000, key_len: 8 }),
                ..empty_group()
            },
        ])],
    };
    let bytes_count = spec.bytes_count();
    let mut buf = Vec::with_capacity(bytes_count);
    let mut rng = rng_from_seed(4);
    write_operations(&mut buf, &spec, &mut rng).unwrap();
    assert_eq!(newline_count(&buf), 101_000);
    assert_eq!(buf.len(), bytes_count);
}
