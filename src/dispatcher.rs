//! An admission-controlled dispatcher, as a state machine. The caller asks
//! for a permit before it starts a unit of work, and hands the permit back
//! with the outcome when the work ends; the dispatcher never lets more than
//! its capacity be in flight, and reports itself drained only once every
//! dispatched unit has come back.
use vstd::prelude::*;
use crate::metrics::{RunMetrics, MetricsView};

verus! {

/// Where one dispatched unit of work stands.
#[derive(Clone, Copy, Debug, PartialEq, Eq, Structural)]
pub enum UnitStatus {
    InFlight,
    Succeeded,
    Failed,
}

#[derive(Clone, Copy, Debug, PartialEq, Eq, Structural)]
pub enum Phase {
    /// Units are admitted while permits remain.
    Dispatching,
    /// No unit is admitted any more; some are still in flight.
    Draining,
    /// No unit is admitted and none is in flight.
    Done,
}

/// The right to have one unit in flight; given back exactly once.
#[derive(Debug)]
pub struct Permit {
    unit: usize,
}

impl Permit {
    pub closed spec fn spec_unit(&self) -> nat {
        self.unit as nat
    }

    /// Index of the unit, in the order of admission.
    pub fn unit(&self) -> (r: usize)
        ensures
            r == self.spec_unit(),
    {
        self.unit
    }
}

#[derive(Debug)]
pub enum Admission {
    /// The unit may start; the permit goes back with its outcome.
    Admitted(Permit),
    /// Every permit is out: wait for a unit to finish and ask again.
    AtCapacity,
    /// Draining has begun: no unit is admitted any more.
    Closed,
    /// The count of units has reached the largest `usize`.
    Exhausted,
}

#[derive(Clone, Copy, Debug, PartialEq, Eq, Structural)]
pub enum DispatchError {
    /// A dispatcher of capacity zero could never admit a unit.
    ZeroCapacity,
    /// The permit names no unit of this dispatcher.
    UnknownUnit,
    /// The unit's permit was already given back.
    AlreadyReleased,
}

/// Number of entries of `s` equal to `st`.
pub open spec fn count_of(s: Seq<UnitStatus>, st: UnitStatus) -> nat
    decreases s.len(),
{
    if s.len() == 0 {
        0
    } else {
        count_of(s.drop_last(), st) + if s.last() == st {
            1nat
        } else {
            0nat
        }
    }
}

proof fn lemma_count_push(s: Seq<UnitStatus>, x: UnitStatus, st: UnitStatus)
    ensures
        count_of(s.push(x), st) == count_of(s, st) + if x == st {
            1nat
        } else {
            0nat
        },
{
    assert(s.push(x).drop_last() =~= s);
}

proof fn lemma_count_update(s: Seq<UnitStatus>, i: int, x: UnitStatus, st: UnitStatus)
    requires
        0 <= i < s.len(),
    ensures
        count_of(s.update(i, x), st) + (if s[i] == st {
            1nat
        } else {
            0nat
        }) == count_of(s, st) + if x == st {
            1nat
        } else {
            0nat
        },
    decreases s.len(),
{
    let t = s.update(i, x);
    if i == s.len() - 1 {
        assert(t.drop_last() =~= s.drop_last());
    } else {
        assert(t.drop_last() =~= s.drop_last().update(i, x));
        lemma_count_update(s.drop_last(), i, x, st);
    }
}

/// Every unit is in exactly one of the three states.
proof fn lemma_count_total(s: Seq<UnitStatus>)
    ensures
        count_of(s, UnitStatus::InFlight) + count_of(s, UnitStatus::Succeeded) + count_of(
            s,
            UnitStatus::Failed,
        ) == s.len(),
    decreases s.len(),
{
    if s.len() > 0 {
        lemma_count_total(s.drop_last());
    }
}

pub struct BoundedDispatcher {
    capacity: usize,
    in_flight: usize,
    succeeded: usize,
    failed: usize,
    units: Vec<UnitStatus>,
    phase: Phase,
    metrics: RunMetrics,
}

/// What a `BoundedDispatcher` holds: its capacity, the state of every unit
/// admitted so far (by order of admission), its phase, and its metrics.
pub ghost struct DispatcherView {
    pub capacity: nat,
    pub units: Seq<UnitStatus>,
    pub phase: Phase,
    pub metrics: MetricsView,
}

impl DispatcherView {
    pub open spec fn in_flight(self) -> nat {
        count_of(self.units, UnitStatus::InFlight)
    }

    pub open spec fn succeeded(self) -> nat {
        count_of(self.units, UnitStatus::Succeeded)
    }

    pub open spec fn failed(self) -> nat {
        count_of(self.units, UnitStatus::Failed)
    }

    pub open spec fn completed(self) -> nat {
        self.succeeded() + self.failed()
    }
}

impl View for BoundedDispatcher {
    type V = DispatcherView;

    closed spec fn view(&self) -> DispatcherView {
        DispatcherView {
            capacity: self.capacity as nat,
            units: self.units@,
            phase: self.phase,
            metrics: self.metrics@,
        }
    }
}

impl BoundedDispatcher {
    pub closed spec fn wf(&self) -> bool {
        &&& self.capacity > 0
        &&& self.in_flight == count_of(self.units@, UnitStatus::InFlight)
        &&& self.succeeded == count_of(self.units@, UnitStatus::Succeeded)
        &&& self.failed == count_of(self.units@, UnitStatus::Failed)
        &&& self.in_flight <= self.capacity
        &&& (self.phase == Phase::Done ==> self.in_flight == 0)
        &&& (self.phase == Phase::Draining ==> self.in_flight > 0)
        &&& self.metrics.wf()
        &&& self.metrics@.requests == self.succeeded + self.failed
        &&& self.metrics@.errors == self.failed
    }

    pub fn new(capacity: usize) -> (r: Result<BoundedDispatcher, DispatchError>)
        ensures
            capacity == 0 ==> r == Err::<BoundedDispatcher, DispatchError>(
                DispatchError::ZeroCapacity,
            ),
            capacity > 0 ==> r is Ok && r->Ok_0.wf() && r->Ok_0@.capacity == capacity
                && r->Ok_0@.units.len() == 0 && r->Ok_0@.in_flight() == 0 && r->Ok_0@.completed()
                == 0 && r->Ok_0@.phase == Phase::Dispatching
                && r->Ok_0@.metrics.requests == 0 && r->Ok_0@.metrics.errors == 0
                && r->Ok_0@.metrics.latency_total == 0,
    {
        if capacity == 0 {
            return Err(DispatchError::ZeroCapacity);
        }
        let units: Vec<UnitStatus> = Vec::new();
        let d = BoundedDispatcher {
            capacity,
            in_flight: 0,
            succeeded: 0,
            failed: 0,
            units,
            phase: Phase::Dispatching,
            metrics: RunMetrics::new(),
        };
        assert(d.units@ =~= Seq::<UnitStatus>::empty());
        assert(d@.in_flight() == 0 && d@.succeeded() == 0 && d@.failed() == 0);
        Ok(d)
    }

    /// Asks for a permit to start the next unit. While dispatching and below
    /// capacity the unit is admitted and counted as in flight; otherwise
    /// nothing changes.
    pub fn try_admit(&mut self) -> (r: Admission)
        requires
            old(self).wf(),
        ensures
            final(self).wf(),
            final(self)@.in_flight() <= final(self)@.capacity,
            old(self)@.phase != Phase::Dispatching ==> r is Closed && final(self)@ == old(self)@,
            old(self)@.phase == Phase::Dispatching && old(self)@.in_flight() == old(self)@.capacity
                ==> r is AtCapacity && final(self)@ == old(self)@,
            old(self)@.phase == Phase::Dispatching && old(self)@.in_flight() < old(self)@.capacity
                && old(self)@.units.len() == usize::MAX ==> r is Exhausted && final(self)@ == old(
                self,
            )@,
            old(self)@.phase == Phase::Dispatching && old(self)@.in_flight() < old(self)@.capacity
                && old(self)@.units.len() < usize::MAX ==> r is Admitted && r->Admitted_0.spec_unit()
                == old(self)@.units.len() && final(self)@.in_flight() == old(self)@.in_flight() + 1
                && final(self)@.succeeded() == old(self)@.succeeded() && final(self)@.failed()
                == old(self)@.failed() && final(self)@ == (DispatcherView {
                units: old(self)@.units.push(UnitStatus::InFlight),
                ..old(self)@
            }),
    {
        if self.phase != Phase::Dispatching {
            return Admission::Closed;
        }
        if self.in_flight == self.capacity {
            return Admission::AtCapacity;
        }
        if self.units.len() == usize::MAX {
            return Admission::Exhausted;
        }
        let unit = self.units.len();
        proof {
            lemma_count_push(self.units@, UnitStatus::InFlight, UnitStatus::InFlight);
            lemma_count_push(self.units@, UnitStatus::InFlight, UnitStatus::Succeeded);
            lemma_count_push(self.units@, UnitStatus::InFlight, UnitStatus::Failed);
        }
        self.units.push(UnitStatus::InFlight);
        self.in_flight = self.in_flight + 1;
        Admission::Admitted(Permit { unit })
    }

    /// Gives back the permit of a finished unit, with its outcome and how long
    /// it ran. A failure is recorded, not fatal: the permit returns either way.
    /// Once draining, the last unit to come back ends the drain.
    pub fn release(&mut self, permit: Permit, succeeded: bool, latency_ms: u64) -> (r: Result<
        (),
        DispatchError,
    >)
        requires
            old(self).wf(),
        ensures
            final(self).wf(),
            final(self)@.in_flight() <= final(self)@.capacity,
            permit.spec_unit() >= old(self)@.units.len() ==> r == Err::<(), DispatchError>(
                DispatchError::UnknownUnit,
            ) && final(self)@ == old(self)@,
            permit.spec_unit() < old(self)@.units.len() && old(self)@.units[permit.spec_unit() as int]
                != UnitStatus::InFlight ==> r == Err::<(), DispatchError>(
                DispatchError::AlreadyReleased,
            ) && final(self)@ == old(self)@,
            permit.spec_unit() < old(self)@.units.len() && old(self)@.units[permit.spec_unit() as int]
                == UnitStatus::InFlight ==> {
                &&& r is Ok
                &&& final(self)@.capacity == old(self)@.capacity
                &&& final(self)@.units == old(self)@.units.update(
                    permit.spec_unit() as int,
                    if succeeded {
                        UnitStatus::Succeeded
                    } else {
                        UnitStatus::Failed
                    },
                )
                &&& final(self)@.in_flight() + 1 == old(self)@.in_flight()
                &&& final(self)@.succeeded() == old(self)@.succeeded() + if succeeded {
                    1int
                } else {
                    0int
                }
                &&& final(self)@.failed() == old(self)@.failed() + if succeeded {
                    0int
                } else {
                    1int
                }
                &&& final(self)@.phase == if old(self)@.phase == Phase::Draining
                    && final(self)@.in_flight() == 0 {
                    Phase::Done
                } else {
                    old(self)@.phase
                }
                &&& final(self)@.metrics.requests == old(self)@.metrics.requests + 1
                &&& final(self)@.metrics.errors == old(self)@.metrics.errors + if succeeded {
                    0int
                } else {
                    1int
                }
                &&& final(self)@.metrics.latency_total == old(self)@.metrics.latency_total
                    + latency_ms
            },
    {
        let unit = permit.unit;
        if unit >= self.units.len() {
            return Err(DispatchError::UnknownUnit);
        }
        if self.units[unit] != UnitStatus::InFlight {
            return Err(DispatchError::AlreadyReleased);
        }
        let outcome = if succeeded {
            UnitStatus::Succeeded
        } else {
            UnitStatus::Failed
        };
        proof {
            lemma_count_update(self.units@, unit as int, outcome, UnitStatus::InFlight);
            lemma_count_update(self.units@, unit as int, outcome, UnitStatus::Succeeded);
            lemma_count_update(self.units@, unit as int, outcome, UnitStatus::Failed);
            lemma_count_total(self.units@);
        }
        self.units.set(unit, outcome);
        self.in_flight = self.in_flight - 1;
        if succeeded {
            self.succeeded = self.succeeded + 1;
        } else {
            self.failed = self.failed + 1;
        }
        self.metrics.record(!succeeded, latency_ms);
        if self.phase == Phase::Draining && self.in_flight == 0 {
            self.phase = Phase::Done;
        }
        Ok(())
    }

    /// Stops admission. With nothing in flight the dispatcher is drained at
    /// once; otherwise it drains as the last units come back.
    pub fn begin_drain(&mut self)
        requires
            old(self).wf(),
        ensures
            final(self).wf(),
            final(self)@.capacity == old(self)@.capacity,
            final(self)@.units == old(self)@.units,
            final(self)@.metrics == old(self)@.metrics,
            final(self)@.phase == if old(self)@.in_flight() == 0 {
                Phase::Done
            } else {
                Phase::Draining
            },
    {
        if self.in_flight == 0 {
            self.phase = Phase::Done;
        } else {
            self.phase = Phase::Draining;
        }
    }

    /// Whether draining has begun and every admitted unit has come back.
    pub fn is_drained(&self) -> (r: bool)
        requires
            self.wf(),
        ensures
            r == (self@.phase == Phase::Done),
    {
        self.phase == Phase::Done
    }

    pub fn phase(&self) -> (r: Phase)
        requires
            self.wf(),
        ensures
            r == self@.phase,
    {
        self.phase
    }

    pub fn capacity(&self) -> (r: usize)
        requires
            self.wf(),
        ensures
            r == self@.capacity,
    {
        self.capacity
    }

    /// Units admitted so far.
    pub fn submitted(&self) -> (r: usize)
        requires
            self.wf(),
        ensures
            r == self@.units.len(),
    {
        self.units.len()
    }

    pub fn in_flight(&self) -> (r: usize)
        requires
            self.wf(),
        ensures
            r == self@.in_flight(),
    {
        self.in_flight
    }

    pub fn succeeded(&self) -> (r: usize)
        requires
            self.wf(),
        ensures
            r == self@.succeeded(),
    {
        self.succeeded
    }

    pub fn failed(&self) -> (r: usize)
        requires
            self.wf(),
        ensures
            r == self@.failed(),
    {
        self.failed
    }

    pub fn metrics(&self) -> (r: &RunMetrics)
        requires
            self.wf(),
        ensures
            r.wf(),
            r@ == self@.metrics,
    {
        &self.metrics
    }

    /// In every reachable state, the units in flight never exceed the
    /// capacity.
    pub proof fn lemma_in_flight_within_capacity(&self)
        requires
            self.wf(),
        ensures
            self@.in_flight() <= self@.capacity,
    {
    }

    /// Once drained, every admitted unit has completed, as a success or a
    /// failure, and no permit is out.
    pub proof fn lemma_drained_all_complete(&self)
        requires
            self.wf(),
            self@.phase == Phase::Done,
        ensures
            self@.in_flight() == 0,
            self@.completed() == self@.units.len(),
            self@.metrics.requests == self@.units.len(),
            forall|i: int| 0 <= i < self@.units.len() ==> #[trigger] self@.units[i]
                != UnitStatus::InFlight,
    {
        lemma_count_total(self.units@);
        assert forall|i: int| 0 <= i < self@.units.len() implies #[trigger] self@.units[i]
            != UnitStatus::InFlight by {
            if self@.units[i] == UnitStatus::InFlight {
                lemma_count_positive(self.units@, i);
            }
        }
    }
}

proof fn lemma_count_positive(s: Seq<UnitStatus>, i: int)
    requires
        0 <= i < s.len(),
    ensures
        count_of(s, s[i]) > 0,
    decreases s.len(),
{
    if i < s.len() - 1 {
        lemma_count_positive(s.drop_last(), i);
    }
}

} // verus!
