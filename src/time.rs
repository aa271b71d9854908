//! UTC instants as seconds since the Unix epoch: the `YYYY-MM-DD HH:MM:SS`
//! text form, and the calendar arithmetic that maps a civil date to seconds.
use vstd::prelude::*;

verus! {

/// Earliest and latest year that the calendar accepts.
pub const MIN_YEAR: i32 = -262143;

pub const MAX_YEAR: i32 = 262142;

/// A civil date and time of day, in UTC.
#[derive(Clone, Copy, Debug, PartialEq, Eq, Structural)]
pub struct CivilTime {
    pub year: i32,
    pub month: u32,
    pub day: u32,
    pub hour: u32,
    pub minute: u32,
    pub second: u32,
}

#[derive(Clone, Copy, Debug, PartialEq, Eq, Structural)]
pub enum TimeError {
    /// The text is not of the form `YYYY-MM-DD HH:MM:SS`.
    Malformed,
    /// The fields name no date of the calendar, or no time of day.
    OutOfRange,
}

pub open spec fn is_leap_year(y: int) -> bool {
    y % 4 == 0 && (y % 100 != 0 || y % 400 == 0)
}

pub open spec fn days_in_month(y: int, m: int) -> int {
    if m == 2 {
        if is_leap_year(y) {
            29
        } else {
            28
        }
    } else if m == 4 || m == 6 || m == 9 || m == 11 {
        30
    } else {
        31
    }
}

/// A date of the proleptic Gregorian calendar within the accepted years.
pub open spec fn is_valid_date(y: int, m: int, d: int) -> bool {
    &&& MIN_YEAR <= y <= MAX_YEAR
    &&& 1 <= m <= 12
    &&& 1 <= d <= days_in_month(y, m)
}

/// Seconds from the Unix epoch to midnight UTC at the start of a date.
pub uninterp spec fn utc_midnight_of(year: int, month: int, day: int) -> int;

/// Relies on `chrono::NaiveDate::from_ymd_opt`, which accepts exactly the
/// dates of the proleptic Gregorian calendar within its year range, and on
/// `DateTime::<Utc>::timestamp` of that date's midnight.
#[verifier::external_body]
fn utc_midnight(year: i32, month: u32, day: u32) -> (r: Option<i64>)
    ensures
        r is Some <==> is_valid_date(year as int, month as int, day as int),
        r is Some ==> r->Some_0 == utc_midnight_of(year as int, month as int, day as int),
{
    match chrono::NaiveDate::from_ymd_opt(year, month, day) {
        Some(d) => Some(d.and_time(chrono::NaiveTime::MIN).and_utc().timestamp()),
        None => None,
    }
}

pub open spec fn is_valid_time_of_day(h: int, m: int, s: int) -> bool {
    0 <= h < 24 && 0 <= m < 60 && 0 <= s < 60
}

pub open spec fn is_valid_civil(c: CivilTime) -> bool {
    is_valid_date(c.year as int, c.month as int, c.day as int) && is_valid_time_of_day(
        c.hour as int,
        c.minute as int,
        c.second as int,
    )
}

/// Seconds since the Unix epoch of a civil time.
pub open spec fn utc_seconds_of(c: CivilTime) -> int {
    utc_midnight_of(c.year as int, c.month as int, c.day as int) + c.hour * 3600 + c.minute * 60
        + c.second
}

/// The Unix time of `c`, or `OutOfRange` where `c` names no date or no time
/// of day, or its seconds do not fit an `i64`.
pub fn utc_seconds(c: CivilTime) -> (r: Result<i64, TimeError>)
    ensures
        is_valid_civil(c) && i64::MIN <= utc_seconds_of(c) <= i64::MAX ==> r == Ok::<
            i64,
            TimeError,
        >(utc_seconds_of(c) as i64),
        !(is_valid_civil(c) && i64::MIN <= utc_seconds_of(c) <= i64::MAX) ==> r == Err::<
            i64,
            TimeError,
        >(TimeError::OutOfRange),
{
    if c.hour >= 24 || c.minute >= 60 || c.second >= 60 {
        return Err(TimeError::OutOfRange);
    }
    match utc_midnight(c.year, c.month, c.day) {
        None => Err(TimeError::OutOfRange),
        Some(midnight) => {
            let tod: i64 = (c.hour * 3600 + c.minute * 60 + c.second) as i64;
            match midnight.checked_add(tod) {
                Some(s) => Ok(s),
                None => Err(TimeError::OutOfRange),
            }
        },
    }
}

pub open spec fn is_digit(b: u8) -> bool {
    0x30 <= b <= 0x39
}

/// Value of the decimal digits `t[from..from + len]`.
pub open spec fn digits_value(t: Seq<u8>, from: int, len: int) -> int
    decreases len,
{
    if len <= 0 {
        0
    } else {
        digits_value(t, from, len - 1) * 10 + (t[from + len - 1] - 0x30)
    }
}

/// `t` has the shape `DDDD-DD-DD DD:DD:DD`.
pub open spec fn is_civil_text(t: Seq<u8>) -> bool {
    &&& t.len() == 19
    &&& t[4] == 0x2d && t[7] == 0x2d && t[10] == 0x20 && t[13] == 0x3a && t[16] == 0x3a
    &&& forall|i: int|
        0 <= i < 19 && i != 4 && i != 7 && i != 10 && i != 13 && i != 16 ==> is_digit(
            #[trigger] t[i],
        )
}

/// The fields written in a text of that shape.
pub open spec fn civil_of_text(t: Seq<u8>) -> CivilTime {
    CivilTime {
        year: digits_value(t, 0, 4) as i32,
        month: digits_value(t, 5, 2) as u32,
        day: digits_value(t, 8, 2) as u32,
        hour: digits_value(t, 11, 2) as u32,
        minute: digits_value(t, 14, 2) as u32,
        second: digits_value(t, 17, 2) as u32,
    }
}

spec fn pow10(n: int) -> int
    decreases n,
{
    if n <= 0 {
        1
    } else {
        10 * pow10(n - 1)
    }
}

proof fn lemma_digits_bound(t: Seq<u8>, from: int, len: int)
    requires
        0 <= from,
        0 <= len,
        from + len <= t.len(),
        forall|i: int| from <= i < from + len ==> is_digit(#[trigger] t[i]),
    ensures
        0 <= digits_value(t, from, len),
        digits_value(t, from, len) < pow10(len),
        len <= 4 ==> digits_value(t, from, len) < 10000,
        len <= 2 ==> digits_value(t, from, len) < 100,
        len <= 1 ==> digits_value(t, from, len) < 10,
    decreases len,
{
    if len > 0 {
        lemma_digits_bound(t, from, len - 1);
        let p = pow10(len - 1);
        let d = digits_value(t, from, len - 1);
        let c = t[from + len - 1] - 0x30;
        assert(d * 10 + c < 10 * p) by (nonlinear_arith)
            requires
                d < p,
                0 <= c <= 9,
        ;
    }
    reveal_with_fuel(pow10, 5);
}

fn read_digits(t: &[u8], from: usize, len: usize) -> (r: u32)
    requires
        from + len <= t@.len(),
        len <= 4,
        forall|i: int| from <= i < from + len ==> is_digit(#[trigger] t@[i]),
    ensures
        r == digits_value(t@, from as int, len as int),
{
    let n: usize = t.len();
    let mut v: u32 = 0;
    let mut k: usize = 0;
    while k < len
        invariant
            n == t@.len(),
            k <= len,
            len <= 4,
            from + len <= t@.len(),
            forall|i: int| from <= i < from + len ==> is_digit(#[trigger] t@[i]),
            v == digits_value(t@, from as int, k as int),
        decreases len - k,
    {
        proof {
            lemma_digits_bound(t@, from as int, k as int);
        }
        assert(is_digit(t@[from + k]));
        let b: u8 = t[from + k];
        v = v * 10 + (b - 0x30u8) as u32;
        k = k + 1;
    }
    v
}

/// Reads the fields of a `YYYY-MM-DD HH:MM:SS` text, without checking that
/// they name a real date.
pub fn parse_civil(text: &[u8]) -> (r: Result<CivilTime, TimeError>)
    ensures
        is_civil_text(text@) ==> r == Ok::<CivilTime, TimeError>(civil_of_text(text@)),
        !is_civil_text(text@) ==> r == Err::<CivilTime, TimeError>(TimeError::Malformed),
{
    if text.len() != 19 || text[4] != 0x2d || text[7] != 0x2d || text[10] != 0x20 || text[13]
        != 0x3a || text[16] != 0x3a {
        return Err(TimeError::Malformed);
    }
    let mut i: usize = 0;
    while i < 19
        invariant
            text@.len() == 19,
            i <= 19,
            forall|j: int|
                0 <= j < i && j != 4 && j != 7 && j != 10 && j != 13 && j != 16 ==> is_digit(
                    #[trigger] text@[j],
                ),
        decreases 19 - i,
    {
        if i != 4 && i != 7 && i != 10 && i != 13 && i != 16 && (text[i] < 0x30 || text[i]
            > 0x39) {
            return Err(TimeError::Malformed);
        }
        i = i + 1;
    }
    let year = read_digits(text, 0, 4);
    let month = read_digits(text, 5, 2);
    let day = read_digits(text, 8, 2);
    let hour = read_digits(text, 11, 2);
    let minute = read_digits(text, 14, 2);
    let second = read_digits(text, 17, 2);
    proof {
        lemma_digits_bound(text@, 0, 4);
    }
    Ok(CivilTime { year: year as i32, month, day, hour, minute, second })
}

/// The Unix time written as `YYYY-MM-DD HH:MM:SS` in UTC.
pub fn parse_utc_seconds(text: &[u8]) -> (r: Result<i64, TimeError>)
    ensures
        !is_civil_text(text@) ==> r == Err::<i64, TimeError>(TimeError::Malformed),
        is_civil_text(text@) ==> r == utc_seconds_spec(civil_of_text(text@)),
{
    match parse_civil(text) {
        Err(e) => Err(e),
        Ok(c) => utc_seconds(c),
    }
}

/// What `utc_seconds` returns for `c`.
pub open spec fn utc_seconds_spec(c: CivilTime) -> Result<i64, TimeError> {
    if is_valid_civil(c) && i64::MIN <= utc_seconds_of(c) <= i64::MAX {
        Ok(utc_seconds_of(c) as i64)
    } else {
        Err(TimeError::OutOfRange)
    }
}

/// A closed window of time, in seconds since the Unix epoch.
#[derive(Clone, Copy, Debug, PartialEq, Eq, Structural)]
pub struct TimeWindow {
    pub start: i64,
    pub end: i64,
}

#[derive(Clone, Copy, Debug, PartialEq, Eq, Structural)]
pub enum WindowError {
    Start(TimeError),
    End(TimeError),
}

/// The window between two `YYYY-MM-DD HH:MM:SS` texts in UTC; the first
/// error found, in the start before the end, is returned.
pub fn parse_window(start: &[u8], end: &[u8]) -> (r: Result<TimeWindow, WindowError>)
    ensures
        ({
            let s = if is_civil_text(start@) {
                utc_seconds_spec(civil_of_text(start@))
            } else {
                Err(TimeError::Malformed)
            };
            let e = if is_civil_text(end@) {
                utc_seconds_spec(civil_of_text(end@))
            } else {
                Err(TimeError::Malformed)
            };
            r == match (s, e) {
                (Err(x), _) => Err(WindowError::Start(x)),
                (Ok(_), Err(y)) => Err(WindowError::End(y)),
                (Ok(a), Ok(b)) => Ok(TimeWindow { start: a, end: b }),
            }
        }),
{
    let s = match parse_utc_seconds(start) {
        Ok(v) => v,
        Err(x) => {
            return Err(WindowError::Start(x));
        },
    };
    let e = match parse_utc_seconds(end) {
        Ok(v) => v,
        Err(y) => {
            return Err(WindowError::End(y));
        },
    };
    Ok(TimeWindow { start: s, end: e })
}

} // verus!
