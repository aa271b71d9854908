use fanout::aggregate::{partial_from_counts, AggregateError, Aggregator, PartialResult};

fn sample_results() -> Vec<PartialResult> {
    vec![
        PartialResult::Rows { entities: 2, rows: 864 },
        PartialResult::Failed,
        PartialResult::Rows { entities: 0, rows: 0 },
        PartialResult::Rows { entities: 5, rows: 4320 },
        PartialResult::Failed,
        PartialResult::Rows { entities: 1, rows: 7 },
    ]
}

fn totals(a: &Aggregator) -> (u128, u128, u64, u64) {
    (a.entities(), a.rows(), a.failures(), a.folded())
}

#[test]
fn fold_gives_arithmetic_sums() {
    let a = Aggregator::fold_all(&sample_results());
    assert_eq!(totals(&a), (8, 5191, 2, 6));
}

#[test]
fn fold_is_order_independent() {
    let base = sample_results();
    let expected = totals(&Aggregator::fold_all(&base));
    let mut seed: u64 = 7;
    for _ in 0..20 {
        let mut shuffled = base.clone();
        for i in (1..shuffled.len()).rev() {
            seed = seed.wrapping_mul(6364136223846793005).wrapping_add(1442695040888963407);
            let j = (seed >> 33) as usize % (i + 1);
            shuffled.swap(i, j);
        }
        let mut a = Aggregator::new();
        for r in shuffled {
            a.fold(r).unwrap();
        }
        assert_eq!(totals(&a), expected);
    }
}

#[test]
fn concurrent_folds_agree() {
    let rt = tokio::runtime::Builder::new_multi_thread()
        .worker_threads(4)
        .build()
        .unwrap();
    for _ in 0..5 {
        let agg = std::sync::Arc::new(std::sync::Mutex::new(Aggregator::new()));
        rt.block_on(async {
            let mut handles = Vec::new();
            for _ in 0..50 {
                for r in sample_results() {
                    let agg = std::sync::Arc::clone(&agg);
                    handles.push(tokio::spawn(async move {
                        agg.lock().unwrap().fold(r).unwrap();
                    }));
                }
            }
            for h in handles {
                h.await.unwrap();
            }
        });
        let a = agg.lock().unwrap();
        assert_eq!(totals(&a), (400, 259550, 100, 300));
    }
}

#[test]
fn empty_fold_is_zero() {
    assert_eq!(totals(&Aggregator::fold_all(&Vec::new())), (0, 0, 0, 0));
}

#[test]
fn large_values_do_not_wrap() {
    let big = PartialResult::Rows { entities: u64::MAX, rows: u64::MAX };
    let a = Aggregator::fold_all(&vec![big, big]);
    assert_eq!(a.entities(), 2 * u64::MAX as u128);
    assert_eq!(a.rows(), 2 * u64::MAX as u128);
    let _ = AggregateError::Full;
}

#[test]
fn counts_become_a_partial_result() {
    assert_eq!(
        partial_from_counts(&vec![864, 864, 10]),
        Some(PartialResult::Rows { entities: 3, rows: 1738 })
    );
    assert_eq!(
        partial_from_counts(&vec![]),
        Some(PartialResult::Rows { entities: 0, rows: 0 })
    );
    assert_eq!(partial_from_counts(&vec![u64::MAX, 1]), None);
}
