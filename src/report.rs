//! The report of a finished run: the aggregate and the run's metrics, made
//! only once the dispatcher has drained.
use vstd::prelude::*;
use crate::aggregate::Aggregator;
use crate::dispatcher::{BoundedDispatcher, Phase};
use crate::metrics::{is_rank_bucket, rank_of};

verus! {

/// The high percentile reported, in thousandths: 99.9%.
pub const HIGH_PERCENTILE_PER_MILLE: u64 = 999;

#[derive(Clone, Copy, Debug, PartialEq, Eq, Structural)]
pub struct RunReport {
    /// Entities found by the units that succeeded.
    pub entities: u128,
    /// Rows found by the units that succeeded.
    pub rows: u128,
    /// Units whose results were folded as failures.
    pub failures: u64,
    /// Operations that completed, successfully or not.
    pub requests: u64,
    /// Operations that failed.
    pub errors: u64,
    /// Mean latency in milliseconds; `None` when nothing ran.
    pub mean_latency_ms: Option<u128>,
    /// 99.9th percentile of latency in milliseconds; `None` when nothing ran.
    pub high_latency_ms: Option<u64>,
}

#[derive(Clone, Copy, Debug, PartialEq, Eq, Structural)]
pub enum ReportError {
    /// Some units may still be in flight: the totals would be incomplete.
    NotDrained,
}

/// The final report, refused until `dispatcher` has drained.
pub fn finish(dispatcher: &BoundedDispatcher, totals: &Aggregator) -> (r: Result<
    RunReport,
    ReportError,
>)
    requires
        dispatcher.wf(),
        totals.wf(),
    ensures
        dispatcher@.phase != Phase::Done ==> r == Err::<RunReport, ReportError>(
            ReportError::NotDrained,
        ),
        dispatcher@.phase == Phase::Done ==> r is Ok && {
            let rep = r->Ok_0;
            let m = dispatcher@.metrics;
            &&& rep.entities == totals@.entities
            &&& rep.rows == totals@.rows
            &&& rep.failures == totals@.failures
            &&& rep.requests == m.requests
            &&& rep.requests == dispatcher@.units.len()
            &&& rep.errors == m.errors
            &&& (m.requests == 0 ==> rep.mean_latency_ms is None && rep.high_latency_ms is None)
            &&& (m.requests > 0 ==> rep.mean_latency_ms == Some(
                (m.latency_total / m.requests) as u128,
            ) && rep.high_latency_ms is Some && is_rank_bucket(
                m.histogram,
                rank_of(m.requests as int, HIGH_PERCENTILE_PER_MILLE as int),
                rep.high_latency_ms->Some_0 as int,
            ))
        },
{
    if !dispatcher.is_drained() {
        return Err(ReportError::NotDrained);
    }
    proof {
        dispatcher.lemma_drained_all_complete();
    }
    let m = dispatcher.metrics();
    Ok(
        RunReport {
            entities: totals.entities(),
            rows: totals.rows(),
            failures: totals.failures(),
            requests: m.requests(),
            errors: m.errors(),
            mean_latency_ms: m.mean_latency_ms(),
            high_latency_ms: m.latency_percentile_ms(HIGH_PERCENTILE_PER_MILLE),
        },
    )
}

} // verus!
