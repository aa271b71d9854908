use fanout::time::{
    parse_civil, parse_utc_seconds, parse_window, utc_seconds, CivilTime, TimeError, TimeWindow,
    WindowError,
};

#[test]
fn epoch_of_2020() {
    assert_eq!(parse_utc_seconds(b"2020-01-01 00:00:00"), Ok(1577836800));
    assert_eq!(parse_utc_seconds(b"1970-01-01 00:00:00"), Ok(0));
    assert_eq!(parse_utc_seconds(b"2020-01-04 00:00:00"), Ok(1577836800 + 3 * 86400));
    assert_eq!(parse_utc_seconds(b"2020-02-29 23:59:59"), Ok(1583020799));
}

#[test]
fn fields_are_read() {
    assert_eq!(
        parse_civil(b"2021-12-31 23:58:07"),
        Ok(CivilTime { year: 2021, month: 12, day: 31, hour: 23, minute: 58, second: 7 })
    );
}

#[test]
fn malformed_text_is_refused() {
    for t in [&b"2020-01-01"[..], b"2020-01-01T00:00:00", b"2020/01/01 00:00:00", b"2020-01-01 00:00:0a", b"2020-01-01 00:00:000"] {
        assert_eq!(parse_utc_seconds(t), Err(TimeError::Malformed));
    }
}

#[test]
fn impossible_dates_are_out_of_range() {
    assert_eq!(parse_utc_seconds(b"2021-02-29 00:00:00"), Err(TimeError::OutOfRange));
    assert_eq!(parse_utc_seconds(b"2020-13-01 00:00:00"), Err(TimeError::OutOfRange));
    assert_eq!(parse_utc_seconds(b"2020-00-10 00:00:00"), Err(TimeError::OutOfRange));
    assert_eq!(parse_utc_seconds(b"2020-01-01 24:00:00"), Err(TimeError::OutOfRange));
    assert_eq!(parse_utc_seconds(b"2020-01-01 00:60:00"), Err(TimeError::OutOfRange));
    let far = CivilTime { year: 400000, month: 1, day: 1, hour: 0, minute: 0, second: 0 };
    assert_eq!(utc_seconds(far), Err(TimeError::OutOfRange));
}

#[test]
fn window_of_two_texts() {
    assert_eq!(
        parse_window(b"2020-01-01 00:00:00", b"2020-01-04 00:00:00"),
        Ok(TimeWindow { start: 1577836800, end: 1578096000 })
    );
    assert_eq!(
        parse_window(b"x", b"2020-01-04 00:00:00"),
        Err(WindowError::Start(TimeError::Malformed))
    );
    assert_eq!(
        parse_window(b"2020-01-01 00:00:00", b"2020-02-30 00:00:00"),
        Err(WindowError::End(TimeError::OutOfRange))
    );
}
