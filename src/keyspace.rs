//! Partitioning of a signed token ring into contiguous, adjacent subranges.
use vstd::prelude::*;

verus! {

/// Smallest token of the store's partitioner, `-(2^63 - 1)`.
pub const RING_MIN: i64 = -9223372036854775807;

/// Largest token of the store's partitioner, `2^63 - 1`.
pub const RING_MAX: i64 = 9223372036854775807;

/// Nodes of the cluster scanned.
pub const NODES: u64 = 3;

/// Cores (shards) per node.
pub const CORES_PER_NODE: u64 = 2;

/// Queries kept in flight per core, so that no shard sits idle.
pub const OVERSUBSCRIPTION: u64 = 3;

/// Subranges queried per unit of parallelism over the whole scan.
pub const SUBRANGES_PER_LANE: u64 = 1000;

/// How a full scan is cut: how many queries may be in flight at once, and
/// into how many subranges the ring is split.
#[derive(Clone, Copy, Debug, PartialEq, Eq, Structural)]
pub struct ScanPlan {
    pub parallelism: u64,
    pub subranges: i64,
}

/// Parallelism `nodes * cores_per_node * oversubscription`, and that many
/// times `subranges_per_lane` subranges; `None` where either overflows.
pub fn plan_scan(nodes: u64, cores_per_node: u64, oversubscription: u64, subranges_per_lane: u64) -> (r:
    Option<ScanPlan>)
    ensures
        ({
            let p = nodes * cores_per_node * oversubscription;
            let n = p * subranges_per_lane;
            &&& p <= u64::MAX && n <= i64::MAX ==> r == Some(
                ScanPlan { parallelism: p as u64, subranges: n as i64 },
            )
            &&& !(p <= u64::MAX && n <= i64::MAX) ==> r is None
        }),
{
    proof {
        assert(0 <= nodes * cores_per_node) by (nonlinear_arith)
            requires
                0 <= nodes,
                0 <= cores_per_node,
        ;
        assert(0 <= nodes * cores_per_node * oversubscription) by (nonlinear_arith)
            requires
                0 <= nodes * cores_per_node,
                0 <= oversubscription,
        ;
    }
    let a = match nodes.checked_mul(cores_per_node) {
        Some(a) => a,
        None => {
            proof {
                assert(nodes * cores_per_node * oversubscription > u64::MAX || oversubscription
                    == 0) by (nonlinear_arith)
                    requires
                        nodes * cores_per_node > u64::MAX,
                        oversubscription >= 0,
                ;
            }
            if oversubscription == 0 {
                return Some(ScanPlan { parallelism: 0, subranges: 0 });
            }
            return None;
        },
    };
    let p = match a.checked_mul(oversubscription) {
        Some(p) => p,
        None => {
            return None;
        },
    };
    let n = match p.checked_mul(subranges_per_lane) {
        Some(n) => n,
        None => {
            return None;
        },
    };
    if n > i64::MAX as u64 {
        return None;
    }
    Some(ScanPlan { parallelism: p, subranges: n as i64 })
}

/// An inclusive interval `[min, max]` of tokens.
#[derive(Clone, Copy, Debug, PartialEq, Eq, Structural)]
pub struct TokenSpace {
    pub min: i64,
    pub max: i64,
}

/// An inclusive slice `[lower, upper]` of a token space.
#[derive(Clone, Copy, Debug, PartialEq, Eq, Structural)]
pub struct Subrange {
    pub lower: i64,
    pub upper: i64,
}

#[derive(Clone, Copy, Debug, PartialEq, Eq, Structural)]
pub enum PartitionError {
    /// `min > max`: the interval holds no token.
    EmptySpace,
    /// The requested number of subranges is zero or negative.
    NonPositiveCount,
}

impl TokenSpace {
    pub open spec fn wf(self) -> bool {
        self.min <= self.max
    }

    /// Number of tokens in the interval.
    pub open spec fn size(self) -> int {
        self.max - self.min + 1
    }

    pub open spec fn contains(self, t: int) -> bool {
        self.min <= t <= self.max
    }

    pub fn new(min: i64, max: i64) -> (r: Result<TokenSpace, PartitionError>)
        ensures
            min <= max ==> r == Ok::<TokenSpace, PartitionError>(TokenSpace { min, max }),
            min > max ==> r == Err::<TokenSpace, PartitionError>(PartitionError::EmptySpace),
    {
        if min <= max {
            Ok(TokenSpace { min, max })
        } else {
            Err(PartitionError::EmptySpace)
        }
    }

    /// The whole ring of the store's partitioner.
    pub fn ring() -> (r: TokenSpace)
        ensures
            r.min == RING_MIN,
            r.max == RING_MAX,
            r.wf(),
    {
        TokenSpace { min: RING_MIN, max: RING_MAX }
    }
}

impl Subrange {
    pub open spec fn contains(self, t: int) -> bool {
        self.lower <= t <= self.upper
    }
}

/// Width of every subrange but the last: the size divided by the count,
/// rounded down.
pub open spec fn chunk_of(space: TokenSpace, n: int) -> int {
    space.size() / n
}

/// The `i`-th of `n` subranges of width `chunk`; the last one reaches `max`.
pub open spec fn subrange_at(space: TokenSpace, n: int, chunk: int, i: int) -> Subrange {
    Subrange {
        lower: (space.min + i * chunk) as i64,
        upper: if i == n - 1 {
            space.max
        } else {
            (space.min + (i + 1) * chunk - 1) as i64
        },
    }
}

/// The partition of `space` into `n` subranges. When `n` exceeds the size the
/// chunk is zero, and the empty subranges merge into one that spans it all.
pub open spec fn partition_of(space: TokenSpace, n: int) -> Seq<Subrange> {
    let chunk = chunk_of(space, n);
    if chunk == 0 {
        seq![Subrange { lower: space.min, upper: space.max }]
    } else {
        Seq::new(n as nat, |i: int| subrange_at(space, n, chunk, i))
    }
}

proof fn lemma_chunk_bounds(size: int, n: int, i: int)
    requires
        size > 0,
        n > 0,
        size / n > 0,
        0 <= i < n,
    ensures
        0 <= i * (size / n),
        (i + 1) * (size / n) <= size,
        i * (size / n) + (size / n) == (i + 1) * (size / n),
{
    let c = size / n;
    vstd::arithmetic::div_mod::lemma_fundamental_div_mod(size, n);
    vstd::arithmetic::div_mod::lemma_mod_pos_bound(size, n);
    assert(n * c <= size);
    assert(0 <= i * c) by (nonlinear_arith)
        requires
            0 <= i,
            c > 0,
    ;
    assert((i + 1) * c <= n * c) by (nonlinear_arith)
        requires
            i + 1 <= n,
            c > 0,
    ;
    assert(i * c + c == (i + 1) * c) by (nonlinear_arith);
}

/// Splits `space` into `n` ordered subranges of equal width; the last one
/// absorbs the remainder of the division, so the tail of the space is kept.
pub fn partition(space: TokenSpace, n: i64) -> (r: Result<Vec<Subrange>, PartitionError>)
    ensures
        n <= 0 ==> r == Err::<Vec<Subrange>, PartitionError>(PartitionError::NonPositiveCount),
        n > 0 && !space.wf() ==> r == Err::<Vec<Subrange>, PartitionError>(
            PartitionError::EmptySpace,
        ),
        n > 0 && space.wf() ==> r is Ok && r->Ok_0@ == partition_of(space, n as int),
{
    if n <= 0 {
        return Err(PartitionError::NonPositiveCount);
    }
    if space.min > space.max {
        return Err(PartitionError::EmptySpace);
    }
    let size: i128 = space.max as i128 - space.min as i128 + 1;
    let count: i128 = n as i128;
    let chunk: i128 = size / count;
    let mut out: Vec<Subrange> = Vec::new();
    if chunk == 0 {
        out.push(Subrange { lower: space.min, upper: space.max });
        assert(out@ =~= partition_of(space, n as int));
        return Ok(out);
    }
    let mut i: i128 = 0;
    while i < count
        invariant
            space.wf(),
            size == space.size(),
            count == n as int,
            n > 0,
            chunk == chunk_of(space, n as int),
            chunk > 0,
            0 <= i <= count,
            out@.len() == i,
            forall|j: int| 0 <= j < i ==> out@[j] == subrange_at(space, n as int, chunk as int, j),
        decreases count - i,
    {
        proof {
            lemma_chunk_bounds(size as int, count as int, i as int);
        }
        let lower: i128 = space.min as i128 + i * chunk;
        let upper: i64 = if i == count - 1 {
            space.max
        } else {
            (lower + chunk - 1) as i64
        };
        out.push(Subrange { lower: lower as i64, upper });
        i = i + 1;
    }
    assert(out@ =~= partition_of(space, n as int));
    Ok(out)
}

/// Every partition into a positive number of subranges covers the space
/// exactly: it starts at `min`, ends at `max`, every subrange is non-empty, and
/// each one begins right after the one before it ends, so there is neither gap
/// nor overlap.
pub proof fn lemma_partition_covers(space: TokenSpace, n: int)
    requires
        space.wf(),
        n > 0,
    ensures
        ({
            let p = partition_of(space, n);
            &&& p.len() > 0
            &&& p[0].lower == space.min
            &&& p[p.len() - 1].upper == space.max
            &&& forall|i: int| 0 <= i < p.len() ==> #[trigger] p[i].lower <= p[i].upper
            &&& forall|i: int|
                0 <= i < p.len() - 1 ==> #[trigger] p[i].upper + 1 == p[i + 1].lower
        }),
{
    let p = partition_of(space, n);
    let chunk = chunk_of(space, n);
    if chunk > 0 {
        assert forall|i: int| 0 <= i < p.len() implies #[trigger] p[i].lower <= p[i].upper by {
            lemma_chunk_bounds(space.size(), n, i);
        }
        assert forall|i: int| 0 <= i < p.len() - 1 implies #[trigger] p[i].upper + 1 == p[i
            + 1].lower by {
            lemma_chunk_bounds(space.size(), n, i);
            lemma_chunk_bounds(space.size(), n, i + 1);
        }
        lemma_chunk_bounds(space.size(), n, 0);
        lemma_chunk_bounds(space.size(), n, n - 1);
    }
}

/// Subranges that start at `min`, end at `max`, are each non-empty, and
/// follow one another without gap or overlap.
pub open spec fn is_tiling(p: Seq<Subrange>, space: TokenSpace) -> bool {
    &&& p.len() > 0
    &&& p[0].lower == space.min
    &&& p[p.len() - 1].upper == space.max
    &&& forall|i: int| 0 <= i < p.len() ==> #[trigger] p[i].lower <= p[i].upper
    &&& forall|i: int| 0 <= i < p.len() - 1 ==> #[trigger] p[i].upper + 1 == p[i + 1].lower
}

proof fn lemma_tiling_ordered(p: Seq<Subrange>, space: TokenSpace, i: int, j: int)
    requires
        is_tiling(p, space),
        0 <= i < j < p.len(),
    ensures
        p[i].upper < p[j].lower,
    decreases j - i,
{
    if j == i + 1 {
        assert(p[i].upper + 1 == p[i + 1].lower);
    } else {
        lemma_tiling_ordered(p, space, i, j - 1);
        assert(p[j - 1].upper + 1 == p[j].lower);
        assert(p[j - 1].lower <= p[j - 1].upper);
    }
}

proof fn lemma_tiling_finds(p: Seq<Subrange>, space: TokenSpace, t: int, k: int) -> (i: int)
    requires
        is_tiling(p, space),
        0 <= k < p.len(),
        space.min <= t <= p[k].upper,
    ensures
        0 <= i <= k,
        p[i].contains(t),
    decreases k,
{
    if t >= p[k].lower {
        k
    } else {
        assert(k > 0);
        assert(p[k - 1].upper + 1 == p[k].lower);
        lemma_tiling_finds(p, space, t, k - 1)
    }
}

/// Every token of the space lies in exactly one subrange of the partition,
/// and no subrange holds a token outside the space.
pub proof fn lemma_partition_exact_cover(space: TokenSpace, n: int)
    requires
        space.wf(),
        n > 0,
    ensures
        ({
            let p = partition_of(space, n);
            &&& forall|t: int|
                space.contains(t) ==> exists|i: int| 0 <= i < p.len() && #[trigger] p[i].contains(t)
            &&& forall|t: int, i: int|
                0 <= i < p.len() && #[trigger] p[i].contains(t) ==> space.contains(t)
            &&& forall|t: int, i: int, j: int|
                0 <= i < p.len() && 0 <= j < p.len() && #[trigger] p[i].contains(t)
                    && #[trigger] p[j].contains(t) ==> i == j
        }),
{
    let p = partition_of(space, n);
    lemma_partition_covers(space, n);
    assert(is_tiling(p, space));
    assert forall|t: int| space.contains(t) implies exists|i: int|
        0 <= i < p.len() && #[trigger] p[i].contains(t) by {
        let i = lemma_tiling_finds(p, space, t, p.len() - 1);
        assert(p[i].contains(t));
    }
    assert forall|t: int, i: int| 0 <= i < p.len() && #[trigger] p[i].contains(t) implies space.contains(
        t,
    ) by {
        if i < p.len() - 1 {
            lemma_tiling_ordered(p, space, i, p.len() - 1);
        }
        if i > 0 {
            lemma_tiling_ordered(p, space, 0, i);
        }
    }
    assert forall|t: int, i: int, j: int|
        0 <= i < p.len() && 0 <= j < p.len() && #[trigger] p[i].contains(t)
            && #[trigger] p[j].contains(t) implies i == j by {
        if i < j {
            lemma_tiling_ordered(p, space, i, j);
        } else if j < i {
            lemma_tiling_ordered(p, space, j, i);
        }
    }
}

} // verus!
