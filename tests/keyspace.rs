use fanout::keyspace::{
    partition, plan_scan, PartitionError, ScanPlan, Subrange, TokenSpace, RING_MAX, RING_MIN,
};

fn assert_tiles(space: TokenSpace, parts: &[Subrange]) {
    assert!(!parts.is_empty());
    assert_eq!(parts[0].lower, space.min);
    assert_eq!(parts[parts.len() - 1].upper, space.max);
    for p in parts {
        assert!(p.lower <= p.upper);
    }
    for w in parts.windows(2) {
        assert_eq!(w[0].upper as i128 + 1, w[1].lower as i128);
    }
}

#[test]
fn small_space_in_four() {
    let space = TokenSpace::new(-10, 9).unwrap();
    let parts = partition(space, 4).unwrap();
    assert_eq!(
        parts,
        vec![
            Subrange { lower: -10, upper: -6 },
            Subrange { lower: -5, upper: -1 },
            Subrange { lower: 0, upper: 4 },
            Subrange { lower: 5, upper: 9 },
        ]
    );
    assert_tiles(space, &parts);
}

#[test]
fn remainder_goes_to_last_subrange() {
    let space = TokenSpace::new(0, 10).unwrap();
    let parts = partition(space, 3).unwrap();
    assert_eq!(
        parts,
        vec![
            Subrange { lower: 0, upper: 2 },
            Subrange { lower: 3, upper: 5 },
            Subrange { lower: 6, upper: 10 },
        ]
    );
    assert_tiles(space, &parts);
}

#[test]
fn whole_ring_reaches_max() {
    let space = TokenSpace::ring();
    assert_eq!(space.min, RING_MIN);
    assert_eq!(space.max, RING_MAX);
    let parts = partition(space, 18000).unwrap();
    assert_eq!(parts.len(), 18000);
    assert_tiles(space, &parts);
    assert_eq!(parts[17999].upper, i64::MAX);
}

#[test]
fn full_i64_range() {
    let space = TokenSpace::new(i64::MIN, i64::MAX).unwrap();
    let parts = partition(space, 3).unwrap();
    assert_eq!(parts.len(), 3);
    assert_tiles(space, &parts);
}

#[test]
fn count_larger_than_space_merges_into_one() {
    let space = TokenSpace::new(5, 7).unwrap();
    let parts = partition(space, 10).unwrap();
    assert_eq!(parts, vec![Subrange { lower: 5, upper: 7 }]);
}

#[test]
fn count_equal_to_size_gives_single_tokens() {
    let space = TokenSpace::new(5, 7).unwrap();
    let parts = partition(space, 3).unwrap();
    assert_eq!(
        parts,
        vec![
            Subrange { lower: 5, upper: 5 },
            Subrange { lower: 6, upper: 6 },
            Subrange { lower: 7, upper: 7 },
        ]
    );
}

#[test]
fn single_subrange_is_the_space() {
    let space = TokenSpace::new(-3, 3).unwrap();
    assert_eq!(partition(space, 1).unwrap(), vec![Subrange { lower: -3, upper: 3 }]);
}

#[test]
fn non_positive_count_is_refused() {
    let space = TokenSpace::new(-10, 9).unwrap();
    assert_eq!(partition(space, 0), Err(PartitionError::NonPositiveCount));
    assert_eq!(partition(space, -4), Err(PartitionError::NonPositiveCount));
}

#[test]
fn empty_space_is_refused() {
    assert_eq!(TokenSpace::new(3, 2), Err(PartitionError::EmptySpace));
    let bad = TokenSpace { min: 3, max: 2 };
    assert_eq!(partition(bad, 2), Err(PartitionError::EmptySpace));
}

#[test]
fn scan_plan_of_three_nodes() {
    assert_eq!(
        plan_scan(3, 2, 3, 1000),
        Some(ScanPlan { parallelism: 18, subranges: 18000 })
    );
}

#[test]
fn scan_plan_overflow_is_none() {
    assert_eq!(plan_scan(u64::MAX, 2, 1, 1), None);
    assert_eq!(plan_scan(1 << 40, 1, 1, 1 << 30), None);
}
