use fanout::aggregate::{Aggregator, PartialResult};
use fanout::dispatcher::{Admission, BoundedDispatcher, DispatchError, Permit, Phase};
use fanout::report::{finish, ReportError};

fn take_permit(d: &mut BoundedDispatcher) -> Permit {
    match d.try_admit() {
        Admission::Admitted(p) => p,
        other => panic!("not admitted: {:?}", other),
    }
}

#[test]
fn zero_capacity_is_refused() {
    assert!(matches!(BoundedDispatcher::new(0), Err(DispatchError::ZeroCapacity)));
}

#[test]
fn capacity_two_with_one_failure_drains() {
    let mut d = BoundedDispatcher::new(2).unwrap();
    let mut agg = Aggregator::new();
    let mut in_flight: Vec<Permit> = Vec::new();
    let mut dispatched = 0;
    for unit in 1..=5u64 {
        if in_flight.len() == 2 {
            assert!(matches!(d.try_admit(), Admission::AtCapacity));
            let p = in_flight.remove(0);
            let ok = p.unit() != 2;
            d.release(p, ok, 10).unwrap();
            let r = if ok { PartialResult::Rows { entities: 1, rows: 1 } } else { PartialResult::Failed };
            agg.fold(r).unwrap();
        }
        let p = take_permit(&mut d);
        assert_eq!(p.unit() as u64, unit - 1);
        dispatched += 1;
        in_flight.push(p);
        assert!(d.in_flight() <= d.capacity());
    }
    assert_eq!(dispatched, 5);
    d.begin_drain();
    assert_eq!(d.phase(), Phase::Draining);
    assert!(matches!(d.try_admit(), Admission::Closed));
    assert_eq!(finish(&d, &agg), Err(ReportError::NotDrained));
    for p in in_flight {
        let ok = p.unit() != 2;
        d.release(p, ok, 10).unwrap();
        let r = if ok { PartialResult::Rows { entities: 1, rows: 1 } } else { PartialResult::Failed };
        agg.fold(r).unwrap();
    }
    assert!(d.is_drained());
    assert_eq!(d.submitted(), 5);
    assert_eq!(d.succeeded(), 4);
    assert_eq!(d.failed(), 1);
    assert_eq!(d.in_flight(), 0);
    let rep = finish(&d, &agg).unwrap();
    assert_eq!(rep.requests, 5);
    assert_eq!(rep.errors, 1);
    assert_eq!(rep.failures, 1);
    assert_eq!(rep.entities, 4);
    assert_eq!(rep.mean_latency_ms, Some(10));
    assert_eq!(rep.high_latency_ms, Some(10));
}

#[test]
fn drain_with_nothing_in_flight_is_immediate() {
    let mut d = BoundedDispatcher::new(3).unwrap();
    d.begin_drain();
    assert!(d.is_drained());
    assert!(matches!(d.try_admit(), Admission::Closed));
    let rep = finish(&d, &Aggregator::new()).unwrap();
    assert_eq!(rep.requests, 0);
    assert_eq!(rep.mean_latency_ms, None);
    assert_eq!(rep.high_latency_ms, None);
}

#[test]
fn permit_cannot_be_released_twice() {
    let mut a = BoundedDispatcher::new(1).unwrap();
    let mut b = BoundedDispatcher::new(2).unwrap();
    let pa = take_permit(&mut a);
    let pb0 = take_permit(&mut b);
    let pb1 = take_permit(&mut b);
    a.release(pa, true, 1).unwrap();
    assert_eq!(a.release(pb0, true, 1), Err(DispatchError::AlreadyReleased));
    assert_eq!(a.release(pb1, true, 1), Err(DispatchError::UnknownUnit));
    assert_eq!(a.succeeded(), 1);
    assert_eq!(a.metrics().requests(), 1);
}

#[test]
fn in_flight_never_exceeds_capacity() {
    let mut d = BoundedDispatcher::new(3).unwrap();
    let mut held: Vec<Permit> = Vec::new();
    let mut seed: u64 = 12345;
    for _ in 0..1000 {
        seed = seed.wrapping_mul(6364136223846793005).wrapping_add(1442695040888963407);
        if seed >> 62 == 0 && !held.is_empty() {
            let i = (seed as usize >> 8) % held.len();
            let p = held.swap_remove(i);
            d.release(p, seed & 1 == 0, (seed >> 20) % 50).unwrap();
        } else {
            match d.try_admit() {
                Admission::Admitted(p) => held.push(p),
                Admission::AtCapacity => assert_eq!(d.in_flight(), 3),
                other => panic!("unexpected {:?}", other),
            }
        }
        assert!(d.in_flight() <= 3);
        assert_eq!(d.in_flight(), held.len());
    }
    d.begin_drain();
    for p in held {
        d.release(p, true, 1).unwrap();
    }
    assert!(d.is_drained());
    assert_eq!(d.succeeded() + d.failed(), d.submitted());
}
