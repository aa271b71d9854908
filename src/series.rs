//! Sample series for one entity: `count` samples at a fixed cadence from a
//! start instant, each with a value drawn uniformly from a range and kept in
//! hundredths (two decimal places).
use vstd::prelude::*;

verus! {

/// Days of samples written per device.
pub const DAYS: u32 = 3;

/// Samples per day: one every five minutes.
pub const SAMPLES_PER_DAY: u32 = 288;

/// Seconds between two samples.
pub const REPORT_PERIOD_S: i64 = 300;

/// Range of sample values, in hundredths: -40.00 to 50.00.
pub const VALUE_MIN_CENTI: i32 = -4000;

pub const VALUE_MAX_CENTI: i32 = 5000;

/// Relies on `rand::Rng::gen_range` over `rand::thread_rng()`: a value in
/// `[low, high)`; it panics when `low >= high`, which `requires` leaves out.
#[verifier::external_body]
fn random_below(low: i64, high: i64) -> (r: i64)
    requires
        low < high,
    ensures
        low <= r < high,
{
    rand::Rng::gen_range(&mut rand::thread_rng(), low, high)
}

#[derive(Clone, Copy, Debug, PartialEq, Eq, Structural)]
pub enum SeriesError {
    /// The interval between samples is zero or negative.
    NonPositiveInterval,
    /// The lowest value exceeds the highest.
    EmptyValueRange,
    /// The last timestamp does not fit an `i64`.
    TimestampOverflow,
}

/// One sample: seconds since the Unix epoch, and a value in hundredths.
#[derive(Clone, Copy, Debug, PartialEq, Eq, Structural)]
pub struct Sample {
    pub timestamp: i64,
    pub value_centi: i32,
}

impl Sample {
    /// The timestamp in milliseconds, or `None` where that overflows.
    pub fn timestamp_ms(&self) -> (r: Option<i64>)
        ensures
            i64::MIN <= self.timestamp * 1000 <= i64::MAX ==> r == Some(
                (self.timestamp * 1000) as i64,
            ),
            !(i64::MIN <= self.timestamp * 1000 <= i64::MAX) ==> r is None,
    {
        self.timestamp.checked_mul(1000)
    }
}

pub struct SeriesConfig {
    start: i64,
    interval: i64,
    count: u64,
    value_min: i32,
    value_max: i32,
}

pub ghost struct SeriesView {
    pub start: int,
    pub interval: int,
    pub count: nat,
    pub value_min: int,
    pub value_max: int,
}

impl SeriesView {
    /// Timestamp of the `i`-th sample.
    pub open spec fn timestamp_at(self, i: int) -> int {
        self.start + i * self.interval
    }

    /// What a sample at position `i` may hold.
    pub open spec fn admits(self, i: int, s: Sample) -> bool {
        s.timestamp == self.timestamp_at(i) && self.value_min <= s.value_centi <= self.value_max
    }
}

impl View for SeriesConfig {
    type V = SeriesView;

    closed spec fn view(&self) -> SeriesView {
        SeriesView {
            start: self.start as int,
            interval: self.interval as int,
            count: self.count as nat,
            value_min: self.value_min as int,
            value_max: self.value_max as int,
        }
    }
}

impl SeriesConfig {
    pub closed spec fn wf(&self) -> bool {
        &&& self.interval > 0
        &&& self.value_min <= self.value_max
        &&& self.count > 0 ==> self.start + (self.count - 1) * self.interval <= i64::MAX
    }

    /// A series of `days * samples_per_day` samples, `interval` seconds apart
    /// from `start`, with values in `[value_min, value_max]` hundredths.
    pub fn new(
        start: i64,
        interval: i64,
        days: u32,
        samples_per_day: u32,
        value_min: i32,
        value_max: i32,
    ) -> (r: Result<SeriesConfig, SeriesError>)
        ensures
            interval <= 0 ==> r == Err::<SeriesConfig, SeriesError>(
                SeriesError::NonPositiveInterval,
            ),
            interval > 0 && value_min > value_max ==> r == Err::<SeriesConfig, SeriesError>(
                SeriesError::EmptyValueRange,
            ),
            interval > 0 && value_min <= value_max && days * samples_per_day > 0 && start + (
            days * samples_per_day - 1) * interval > i64::MAX ==> r == Err::<
                SeriesConfig,
                SeriesError,
            >(SeriesError::TimestampOverflow),
            interval > 0 && value_min <= value_max && (days * samples_per_day == 0 || start + (
            days * samples_per_day - 1) * interval <= i64::MAX) ==> r is Ok && r->Ok_0.wf()
                && r->Ok_0@ == (SeriesView {
                start: start as int,
                interval: interval as int,
                count: (days * samples_per_day) as nat,
                value_min: value_min as int,
                value_max: value_max as int,
            }),
    {
        if interval <= 0 {
            return Err(SeriesError::NonPositiveInterval);
        }
        if value_min > value_max {
            return Err(SeriesError::EmptyValueRange);
        }
        proof {
            assert(days * samples_per_day <= 0xffff_ffffu32 * 0xffff_ffffu32) by (nonlinear_arith)
                requires
                    0 <= days <= 0xffff_ffffu32,
                    0 <= samples_per_day <= 0xffff_ffffu32,
            ;
        }
        let count: u64 = days as u64 * samples_per_day as u64;
        if count > 0 {
            proof {
                assert((count - 1) * interval <= 0xffff_ffff_ffff_ffffu64 * 0x7fff_ffff_ffff_ffffi64)
                    by (nonlinear_arith)
                    requires
                        0 <= count - 1 <= 0xffff_ffff_ffff_ffffu64,
                        0 < interval <= 0x7fff_ffff_ffff_ffffi64,
                ;
            }
            let last: i128 = start as i128 + (count - 1) as i128 * interval as i128;
            if last > i64::MAX as i128 {
                return Err(SeriesError::TimestampOverflow);
            }
        }
        Ok(SeriesConfig { start, interval, count, value_min, value_max })
    }

    /// Number of samples in the series.
    pub fn count(&self) -> (r: u64)
        ensures
            r == self@.count,
    {
        self.count
    }

    /// Timestamp of the `i`-th sample: `start + i * interval`.
    pub fn timestamp_at(&self, i: u64) -> (r: i64)
        requires
            self.wf(),
            i < self@.count,
        ensures
            r == self@.timestamp_at(i as int),
    {
        proof {
            assert(0 <= i * self.interval <= (self.count - 1) * self.interval) by (nonlinear_arith)
                requires
                    0 <= i <= self.count - 1,
                    self.interval > 0,
            ;
        }
        let t: i128 = self.start as i128 + i as i128 * self.interval as i128;
        t as i64
    }

    /// The `i`-th sample, with a freshly drawn value. Asking again for the same
    /// position gives the same timestamp, so the series can be walked lazily
    /// and restarted.
    pub fn sample_at(&self, i: u64) -> (r: Sample)
        requires
            self.wf(),
            i < self@.count,
        ensures
            self@.admits(i as int, r),
    {
        let timestamp = self.timestamp_at(i);
        let v = random_below(self.value_min as i64, self.value_max as i64 + 1);
        Sample { timestamp, value_centi: v as i32 }
    }

    /// The whole series, in order of time.
    pub fn generate(&self) -> (r: Vec<Sample>)
        requires
            self.wf(),
        ensures
            r@.len() == self@.count,
            forall|i: int| 0 <= i < r@.len() ==> self@.admits(i, #[trigger] r@[i]),
    {
        let mut out: Vec<Sample> = Vec::new();
        let mut i: u64 = 0;
        while i < self.count
            invariant
                self.wf(),
                i <= self@.count,
                out@.len() == i,
                forall|j: int| 0 <= j < i ==> self@.admits(j, #[trigger] out@[j]),
            decreases self@.count - i,
        {
            let s = self.sample_at(i);
            out.push(s);
            i = i + 1;
        }
        out
    }
}

/// In every generated series the timestamps rise strictly, each exactly one
/// interval after the one before.
pub proof fn lemma_series_cadence(cfg: SeriesView, s: Seq<Sample>)
    requires
        cfg.interval > 0,
        s.len() == cfg.count,
        forall|i: int| 0 <= i < s.len() ==> cfg.admits(i, #[trigger] s[i]),
    ensures
        forall|i: int|
            0 <= i < s.len() - 1 ==> #[trigger] s[i + 1].timestamp == s[i].timestamp
                + cfg.interval,
        forall|i: int, j: int| 0 <= i < j < s.len() ==> #[trigger] s[i].timestamp < #[trigger] s[j].timestamp,
{
    assert forall|i: int| 0 <= i < s.len() - 1 implies #[trigger] s[i + 1].timestamp
        == s[i].timestamp + cfg.interval by {
        assert(cfg.admits(i, s[i]));
        assert(cfg.admits(i + 1, s[i + 1]));
        assert((i + 1) * cfg.interval == i * cfg.interval + cfg.interval) by (nonlinear_arith);
    }
    assert forall|i: int, j: int| 0 <= i < j < s.len() implies #[trigger] s[i].timestamp
        < #[trigger] s[j].timestamp by {
        assert(cfg.admits(i, s[i]));
        assert(cfg.admits(j, s[j]));
        assert(i * cfg.interval < j * cfg.interval) by (nonlinear_arith)
            requires
                i < j,
                cfg.interval > 0,
        ;
    }
}

} // verus!
