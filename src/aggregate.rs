//! Scatter-gather folding of per-unit partial results into running totals.
//! The totals depend only on which results were folded, never on the order
//! in which they came back.
use vstd::prelude::*;
use crate::metrics::sum_of;

verus! {

/// Outcome of one dispatched unit.
#[derive(Clone, Copy, Debug, PartialEq, Eq, Structural)]
pub enum PartialResult {
    /// The unit found `entities` distinct entities holding `rows` rows.
    Rows { entities: u64, rows: u64 },
    /// The unit's remote operation failed.
    Failed,
}

#[derive(Clone, Copy, Debug, PartialEq, Eq, Structural)]
pub enum AggregateError {
    /// The count of folded results has reached the largest `u64`.
    Full,
}

/// Running totals, as numbers.
pub ghost struct AggregateView {
    pub entities: nat,
    pub rows: nat,
    pub failures: nat,
    pub folded: nat,
}

pub open spec fn empty_totals() -> AggregateView {
    AggregateView { entities: 0, rows: 0, failures: 0, folded: 0 }
}

/// `v` with one more result folded in.
pub open spec fn add_result(v: AggregateView, r: PartialResult) -> AggregateView {
    match r {
        PartialResult::Rows { entities, rows } => AggregateView {
            entities: v.entities + entities as nat,
            rows: v.rows + rows as nat,
            folded: v.folded + 1,
            ..v
        },
        PartialResult::Failed => AggregateView {
            failures: v.failures + 1,
            folded: v.folded + 1,
            ..v
        },
    }
}

/// Totals of a sequence of results: the arithmetic sums of entities and rows,
/// and the counts of failures and of results.
pub open spec fn totals(s: Seq<PartialResult>) -> AggregateView
    decreases s.len(),
{
    if s.len() == 0 {
        empty_totals()
    } else {
        add_result(totals(s.drop_last()), s.last())
    }
}

pub struct Aggregator {
    entities: u128,
    rows: u128,
    failures: u64,
    folded: u64,
}

impl View for Aggregator {
    type V = AggregateView;

    closed spec fn view(&self) -> AggregateView {
        AggregateView {
            entities: self.entities as nat,
            rows: self.rows as nat,
            failures: self.failures as nat,
            folded: self.folded as nat,
        }
    }
}

impl Aggregator {
    pub closed spec fn wf(&self) -> bool {
        &&& self.entities <= self.folded * 0xffff_ffff_ffff_ffffu64
        &&& self.rows <= self.folded * 0xffff_ffff_ffff_ffffu64
        &&& self.failures <= self.folded
    }

    pub fn new() -> (r: Aggregator)
        ensures
            r.wf(),
            r@ == empty_totals(),
    {
        Aggregator { entities: 0, rows: 0, failures: 0, folded: 0 }
    }

    /// Folds one result into the totals. Refused, with nothing changed, only
    /// once `u64::MAX` results have been folded.
    pub fn fold(&mut self, r: PartialResult) -> (res: Result<(), AggregateError>)
        requires
            old(self).wf(),
        ensures
            final(self).wf(),
            old(self)@.folded == u64::MAX ==> res == Err::<(), AggregateError>(
                AggregateError::Full,
            ) && final(self)@ == old(self)@,
            old(self)@.folded < u64::MAX ==> res is Ok && final(self)@ == add_result(
                old(self)@,
                r,
            ),
    {
        if self.folded == u64::MAX {
            return Err(AggregateError::Full);
        }
        proof {
            assert((self.folded + 1) * 0xffff_ffff_ffff_ffffu64 == self.folded
                * 0xffff_ffff_ffff_ffffu64 + 0xffff_ffff_ffff_ffffu64) by (nonlinear_arith);
        }
        match r {
            PartialResult::Rows { entities, rows } => {
                self.entities = self.entities + entities as u128;
                self.rows = self.rows + rows as u128;
            },
            PartialResult::Failed => {
                self.failures = self.failures + 1;
            },
        }
        self.folded = self.folded + 1;
        Ok(())
    }

    /// Folds a whole sequence of results, in order.
    pub fn fold_all(results: &Vec<PartialResult>) -> (r: Aggregator)
        ensures
            r.wf(),
            r@ == totals(results@),
    {
        let mut agg = Aggregator::new();
        let mut i: usize = 0;
        while i < results.len()
            invariant
                agg.wf(),
                i <= results.len(),
                agg@ == totals(results@.take(i as int)),
                agg@.folded == i,
            decreases results.len() - i,
        {
            assert(results@.take(i as int + 1).drop_last() =~= results@.take(i as int));
            let _ = agg.fold(results[i]);
            i = i + 1;
        }
        assert(results@.take(i as int) =~= results@);
        agg
    }

    pub fn entities(&self) -> (r: u128)
        ensures
            r == self@.entities,
    {
        self.entities
    }

    pub fn rows(&self) -> (r: u128)
        ensures
            r == self@.rows,
    {
        self.rows
    }

    pub fn failures(&self) -> (r: u64)
        ensures
            r == self@.failures,
    {
        self.failures
    }

    pub fn folded(&self) -> (r: u64)
        ensures
            r == self@.folded,
    {
        self.folded
    }
}

/// The result of one unit whose query returned one row per entity found,
/// each with its row count: the entities are the rows returned, the rows their
/// counts summed. `None` where that sum exceeds `u64::MAX`.
pub fn partial_from_counts(counts: &Vec<u64>) -> (r: Option<PartialResult>)
    ensures
        sum_of(counts@) <= u64::MAX ==> r == Some(
            PartialResult::Rows { entities: counts@.len() as u64, rows: sum_of(counts@) as u64 },
        ),
        sum_of(counts@) > u64::MAX ==> r is None,
{
    let mut sum: u64 = 0;
    let mut i: usize = 0;
    while i < counts.len()
        invariant
            i <= counts.len(),
            sum == sum_of(counts@.take(i as int)),
        decreases counts.len() - i,
    {
        assert(counts@.take(i as int + 1).drop_last() =~= counts@.take(i as int));
        match sum.checked_add(counts[i]) {
            Some(s) => {
                sum = s;
            },
            None => {
                proof {
                    lemma_prefix_sum_le(counts@, i as int + 1);
                }
                return None;
            },
        }
        i = i + 1;
    }
    assert(counts@.take(i as int) =~= counts@);
    Some(PartialResult::Rows { entities: counts.len() as u64, rows: sum })
}

proof fn lemma_prefix_sum_le(s: Seq<u64>, k: int)
    requires
        0 <= k <= s.len(),
    ensures
        sum_of(s.take(k)) <= sum_of(s),
    decreases s.len(),
{
    if k < s.len() {
        lemma_prefix_sum_le(s.drop_last(), k);
        assert(s.drop_last().take(k) =~= s.take(k));
    } else {
        assert(s.take(k) =~= s);
    }
}

proof fn lemma_add_commutes(v: AggregateView, x: PartialResult, y: PartialResult)
    ensures
        add_result(add_result(v, x), y) == add_result(add_result(v, y), x),
{
}

/// Taking out the `j`-th result and folding it in last gives the same totals.
proof fn lemma_totals_remove(s: Seq<PartialResult>, j: int)
    requires
        0 <= j < s.len(),
    ensures
        totals(s) == add_result(totals(s.remove(j)), s[j]),
    decreases s.len(),
{
    if j < s.len() - 1 {
        let t = s.drop_last();
        assert(s.remove(j).drop_last() =~= t.remove(j));
        assert(s.remove(j).last() == s.last());
        lemma_totals_remove(t, j);
        lemma_add_commutes(totals(t.remove(j)), s[j], s.last());
    } else {
        assert(s.remove(j) =~= s.drop_last());
    }
}

/// The totals of a set of results do not depend on the order of folding: any
/// two sequences holding the same results, each as many times, give the same
/// sums and counts.
pub proof fn lemma_totals_order_independent(a: Seq<PartialResult>, b: Seq<PartialResult>)
    requires
        a.to_multiset() == b.to_multiset(),
    ensures
        totals(a) == totals(b),
    decreases a.len(),
{
    broadcast use vstd::seq_lib::group_to_multiset_ensures;

    if a.len() == 0 {
        vstd::seq_lib::to_multiset_len(a);
        vstd::seq_lib::to_multiset_len(b);
        assert(b.len() == 0);
        assert(b =~= Seq::<PartialResult>::empty());
    } else {
        let x = a.last();
        let rest = a.drop_last();
        assert(rest.push(x) =~= a);
        assert(a.to_multiset().count(x) > 0);
        assert(b.contains(x));
        let j = choose|j: int| 0 <= j < b.len() && b[j] == x;
        assert(b.remove(j).to_multiset() =~= b.to_multiset().remove(x));
        assert(rest.to_multiset() =~= a.to_multiset().remove(x));
        lemma_totals_order_independent(rest, b.remove(j));
        lemma_totals_remove(b, j);
    }
}

} // verus!
