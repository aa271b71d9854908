use fanout::series::{
    SeriesConfig, SeriesError, Sample, DAYS, REPORT_PERIOD_S, SAMPLES_PER_DAY, VALUE_MAX_CENTI,
    VALUE_MIN_CENTI,
};
use fanout::time::parse_utc_seconds;

#[test]
fn three_days_every_five_minutes() {
    let start = parse_utc_seconds(b"2020-01-01 00:00:00").unwrap();
    let cfg = SeriesConfig::new(start, 300, 3, 288, VALUE_MIN_CENTI, VALUE_MAX_CENTI).unwrap();
    assert_eq!(cfg.count(), 864);
    let s = cfg.generate();
    assert_eq!(s.len(), 864);
    assert_eq!(s[0].timestamp, 1577836800);
    for w in s.windows(2) {
        assert_eq!(w[1].timestamp - w[0].timestamp, 300);
    }
    for x in &s {
        assert!(x.value_centi >= -4000 && x.value_centi <= 5000);
    }
    assert_eq!(s[863].timestamp, 1577836800 + 863 * 300);
}

#[test]
fn defaults_match_the_ingestion_run() {
    assert_eq!(DAYS * SAMPLES_PER_DAY, 864);
    assert_eq!(REPORT_PERIOD_S, 300);
}

#[test]
fn lazy_samples_repeat_timestamps() {
    let cfg = SeriesConfig::new(1000, 60, 1, 10, 0, 0).unwrap();
    assert_eq!(cfg.timestamp_at(3), 1180);
    let a = cfg.sample_at(9);
    let b = cfg.sample_at(9);
    assert_eq!(a, b);
    assert_eq!(a, Sample { timestamp: 1540, value_centi: 0 });
}

#[test]
fn values_spread_over_the_range() {
    let cfg = SeriesConfig::new(0, 1, 1, 2000, -1, 1).unwrap();
    let s = cfg.generate();
    for v in [-1, 0, 1] {
        assert!(s.iter().any(|x| x.value_centi == v));
    }
}

#[test]
fn empty_series() {
    let cfg = SeriesConfig::new(0, 300, 0, 288, 0, 1).unwrap();
    assert_eq!(cfg.count(), 0);
    assert!(cfg.generate().is_empty());
}

#[test]
fn invalid_series_are_refused() {
    assert!(matches!(SeriesConfig::new(0, 0, 1, 1, 0, 1), Err(SeriesError::NonPositiveInterval)));
    assert!(matches!(SeriesConfig::new(0, 5, 1, 1, 2, 1), Err(SeriesError::EmptyValueRange)));
    assert!(matches!(
        SeriesConfig::new(i64::MAX - 10, 5, 1, 4, 0, 1),
        Err(SeriesError::TimestampOverflow)
    ));
    assert!(SeriesConfig::new(i64::MAX - 15, 5, 1, 4, 0, 1).is_ok());
}

#[test]
fn timestamps_in_milliseconds() {
    assert_eq!(Sample { timestamp: 1577836800, value_centi: 0 }.timestamp_ms(), Some(1577836800000));
    assert_eq!(Sample { timestamp: i64::MAX / 10, value_centi: 0 }.timestamp_ms(), None);
}
