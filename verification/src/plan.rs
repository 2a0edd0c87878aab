//! The chunk planner: how a total is dealt to the workers.

use vstd::prelude::*;
use crate::error::{ConfigIssue, GenError};

verus! {

/// Units per worker, and the units that no worker takes.
#[derive(Debug, Clone, PartialEq, Eq)]
pub struct ChunkPlan {
    pub chunks: Vec<usize>,
    pub leftover: usize,
}

/// Sum of a sequence of counts.
pub open spec fn sum(s: Seq<usize>) -> int
    decreases s.len(),
{
    if s.len() == 0 {
        0
    } else {
        sum(s.drop_last()) + s.last()
    }
}

/// How many whole groups of `unit` remain after every worker took the same
/// number of groups.
pub open spec fn extra_groups(total: int, workers: int, unit: int) -> int {
    (total % (workers * unit)) / unit
}

/// The units of worker `i`: an equal base for all, and one more group for
/// each of the first `extra_groups` workers.
pub open spec fn share(total: int, workers: int, unit: int, i: int) -> int {
    (total / (workers * unit)) * unit + if i < extra_groups(total, workers, unit) {
        unit
    } else {
        0
    }
}

/// The units that are left below one group.
pub open spec fn rest(total: int, workers: int, unit: int) -> int {
    (total % (workers * unit)) % unit
}

impl ChunkPlan {
    /// All units of the plan.
    pub open spec fn total(self) -> int {
        sum(self.chunks@) + self.leftover
    }

    /// The plan deals `total` to `workers` workers in groups of `unit`.
    pub open spec fn deals(self, total: int, workers: int, unit: int) -> bool {
        &&& self.chunks@.len() == workers
        &&& forall|i: int|
            0 <= i < workers ==> #[trigger] self.chunks@[i] == share(total, workers, unit, i)
        &&& self.leftover == rest(total, workers, unit)
    }
}

/// What division with remainder gives for a total, a number of workers and
/// a unit.
proof fn lemma_div_mod_facts(total: int, workers: int, unit: int)
    by (nonlinear_arith)
    requires
        0 <= total,
        1 <= workers,
        1 <= unit,
    ensures
        0 < workers * unit,
        0 <= total % (workers * unit) < workers * unit,
        total == (workers * unit) * (total / (workers * unit)) + total % (workers * unit),
        0 <= total / (workers * unit) <= total,
        0 <= (total / (workers * unit)) * unit <= total,
        0 <= extra_groups(total, workers, unit) < workers,
        extra_groups(total, workers, unit) >= 1 ==> (total / (workers * unit)) * unit + unit
            <= total,
        0 <= rest(total, workers, unit) < unit,
        total % (workers * unit) == unit * extra_groups(total, workers, unit) + rest(
            total,
            workers,
            unit,
        ),
{
}

/// A total below the divisor has quotient zero and is its own remainder.
proof fn lemma_small_total(total: int, group: int)
    by (nonlinear_arith)
    requires
        0 <= total < group,
    ensures
        total / group == 0,
        total % group == total,
{
}

/// What is left over is the total modulo the unit.
pub proof fn lemma_rest_is_remainder(total: int, workers: int, unit: int)
    requires
        1 <= workers,
        1 <= unit,
    ensures
        rest(total, workers, unit) == total % unit,
{
    assert(workers * unit == unit * workers) by (nonlinear_arith);
    vstd::arithmetic::div_mod::lemma_mod_mod(total, unit, workers);
}

/// No count of a sequence is more than the sum of all.
pub proof fn lemma_sum_bounds(s: Seq<usize>, i: int)
    requires
        0 <= i < s.len(),
    ensures
        0 <= s[i] <= sum(s),
    decreases s.len(),
{
    lemma_sum_nonnegative(s.drop_last());
    if i < s.len() - 1 {
        lemma_sum_bounds(s.drop_last(), i);
    }
}

/// A sum of counts is not negative.
pub proof fn lemma_sum_nonnegative(s: Seq<usize>)
    ensures
        sum(s) >= 0,
    decreases s.len(),
{
    if s.len() > 0 {
        lemma_sum_nonnegative(s.drop_last());
    }
}

/// The first `k` shares add up to `k` bases and the groups dealt so far.
proof fn lemma_prefix_sum(s: Seq<usize>, total: int, workers: int, unit: int, k: int)
    requires
        0 <= total,
        1 <= workers,
        1 <= unit,
        0 <= k <= s.len(),
        s.len() <= workers,
        forall|i: int| 0 <= i < s.len() ==> #[trigger] s[i] == share(total, workers, unit, i),
    ensures
        sum(s.take(k)) == k * ((total / (workers * unit)) * unit) + unit * (if k < extra_groups(
            total,
            workers,
            unit,
        ) {
            k
        } else {
            extra_groups(total, workers, unit)
        }),
    decreases k,
{
    let base = (total / (workers * unit)) * unit;
    let extra = extra_groups(total, workers, unit);
    lemma_div_mod_facts(total, workers, unit);
    if k == 0 {
        assert(s.take(0) =~= Seq::<usize>::empty());
    } else {
        lemma_prefix_sum(s, total, workers, unit, k - 1);
        assert(s.take(k).drop_last() =~= s.take(k - 1));
        assert(s.take(k).last() == s[k - 1]);
        assert(k * base == (k - 1) * base + base) by (nonlinear_arith);
        if k - 1 < extra {
            assert(unit * k == unit * (k - 1) + unit) by (nonlinear_arith);
        }
    }
}

/// Nothing is lost and nothing is made up: the shares of all workers and the
/// rest add up to the total; the rest is less than one group; every share is
/// a whole number of groups.
pub proof fn lemma_plan_is_exact(plan: ChunkPlan, total: int, workers: int, unit: int)
    requires
        0 <= total,
        1 <= workers,
        1 <= unit,
        plan.deals(total, workers, unit),
    ensures
        plan.total() == total,
        plan.leftover < unit,
        forall|i: int| 0 <= i < workers ==> (#[trigger] plan.chunks@[i]) as int % (unit as int) == 0,
{
    let s = plan.chunks@;
    let q = total / (workers * unit);
    let base = q * unit;
    let extra = extra_groups(total, workers, unit);
    lemma_div_mod_facts(total, workers, unit);
    lemma_prefix_sum(s, total, workers, unit, workers);
    assert(s.take(workers) =~= s);
    assert(workers * (q * unit) == (workers * unit) * q) by (nonlinear_arith);
    assert forall|i: int| 0 <= i < workers implies (#[trigger] s[i]) as int % (unit as int) == 0 by {
        assert(s[i] == share(total, workers, unit, i));
        assert((q * unit) % unit == 0 && (q * unit + unit) % unit == 0) by (nonlinear_arith)
            requires
                unit >= 1,
                q >= 0,
        ;
    }
}

/// Deals `total` units to `workers` workers in groups of `unit`: every worker
/// gets the same number of whole groups, the groups that remain go one each
/// to the workers from the first on, and what is less than a group is left over.
pub fn plan_chunks(total: usize, workers: usize, unit: usize) -> (plan: ChunkPlan)
    requires
        workers >= 1,
        unit >= 1,
    ensures
        plan.deals(total as int, workers as int, unit as int),
        plan.total() == total,
        plan.leftover < unit,
        plan.leftover == total % unit,
        forall|i: int| 0 <= i < workers ==> (#[trigger] plan.chunks@[i]) as int % (unit as int) == 0,
{
    proof {
        lemma_div_mod_facts(total as int, workers as int, unit as int);
        lemma_rest_is_remainder(total as int, workers as int, unit as int);
    }
    // A group of all workers that does not fit the machine's range holds
    // more than the total: no worker gets a base, and the whole total remains.
    let (base, remaining): (usize, usize) = match workers.checked_mul(unit) {
        Some(group) => (total / group * unit, total % group),
        None => {
            proof {
                lemma_small_total(total as int, workers * unit);
            }
            (0, total)
        },
    };
    let extra: usize = remaining / unit;
    let mut chunks: Vec<usize> = Vec::new();
    let mut i: usize = 0;
    while i < workers
        invariant
            i <= workers,
            chunks@.len() == i,
            extra == extra_groups(total as int, workers as int, unit as int),
            base == (total as int / (workers * unit)) * unit,
            base + unit <= usize::MAX || extra == 0,
            forall|j: int|
                0 <= j < i ==> #[trigger] chunks@[j] == share(
                    total as int,
                    workers as int,
                    unit as int,
                    j,
                ),
        decreases workers - i,
    {
        if i < extra {
            chunks.push(base + unit);
        } else {
            chunks.push(base);
        }
        i += 1;
    }
    let plan = ChunkPlan { chunks, leftover: remaining % unit };
    proof {
        lemma_plan_is_exact(plan, total as int, workers as int, unit as int);
    }
    plan
}

/// Changing one count changes the sum by as much.
proof fn lemma_sum_update(s: Seq<usize>, i: int, x: usize)
    requires
        0 <= i < s.len(),
    ensures
        sum(s.update(i, x)) == sum(s) - s[i] + x,
    decreases s.len(),
{
    if i == s.len() - 1 {
        assert(s.update(i, x).drop_last() =~= s.drop_last());
    } else {
        lemma_sum_update(s.drop_last(), i, x);
        assert(s.update(i, x).drop_last() =~= s.drop_last().update(i, x));
    }
}

/// The items of worker `i` of a scalar stream: its share of the items dealt
/// one by one, less the closing item for the first worker.
pub open spec fn line_share(total: int, workers: int, i: int) -> int {
    share(total, workers, 1, i) - if i == 0 {
        1int
    } else {
        0int
    }
}

/// Deals `total` items, each on a line of its own, to `workers` workers. The
/// items are dealt one by one as `plan_chunks` deals groups of one; then the
/// first worker gives one item up: the item that closes the output, which is
/// written last and without a line end, and is the plan's leftover.
pub fn plan_lines(total: usize, workers: usize) -> (plan: ChunkPlan)
    requires
        total >= 1,
        workers >= 1,
    ensures
        plan.chunks@.len() == workers,
        forall|i: int|
            0 <= i < workers ==> #[trigger] plan.chunks@[i] == line_share(
                total as int,
                workers as int,
                i,
            ),
        plan.leftover == 1,
        plan.total() == total,
{
    let dealt = plan_chunks(total, workers, 1);
    let mut chunks = dealt.chunks;
    proof {
        lemma_div_mod_facts(total as int, workers as int, 1);
        assert(share(total as int, workers as int, 1, 0) >= 1) by {
            if total as int / (workers * 1) == 0 {
                assert(total as int % (workers * 1) == total) by (nonlinear_arith)
                    requires
                        total as int / (workers * 1) == 0,
                        workers >= 1,
                        total >= 0,
                ;
            }
        }
        lemma_sum_update(chunks@, 0, (chunks@[0] - 1) as usize);
    }
    let first: usize = chunks[0];
    chunks.set(0, first - 1);
    ChunkPlan { chunks, leftover: 1 }
}

/// Units that a worker's buffer holds in streaming mode.
pub const STREAM_BUFFER: usize = 1024;

/// The buffer of each text worker for a requested size `requested` of all
/// buffers together: `Ok(None)` is a buffer as large as the worker's chunk.
pub open spec fn text_capacity_of(requested: Option<usize>, workers: usize, unit: usize) -> Result<
    Option<usize>,
    GenError,
> {
    match requested {
        None => Ok(None),
        Some(b) => if b / workers < unit {
            Err(GenError::ConfigError(ConfigIssue::BufferTooSmall { workers, unit }))
        } else {
            Ok(Some((b / workers / unit * unit) as usize))
        },
    }
}

/// The buffer, in items, of a worker that writes `chunk` lines.
pub open spec fn item_capacity_of(requested: Option<usize>, chunk: usize, workers: usize) -> Result<
    usize,
    GenError,
> {
    match requested {
        Some(b) => if b == 0 {
            Err(GenError::ConfigError(ConfigIssue::BufferTooSmall { workers, unit: 1 }))
        } else {
            Ok(b)
        },
        None => Ok(chunk),
    }
}

/// The buffer of each text worker, when the request names a buffer size for
/// all workers together: an equal part for each worker, rounded down to whole
/// groups of `unit`. A part smaller than one group is refused. `None` stands
/// for a buffer as large as the worker's chunk.
pub fn text_capacity(requested: Option<usize>, workers: usize, unit: usize) -> (r: Result<
    Option<usize>,
    GenError,
>)
    requires
        workers >= 1,
        unit >= 1,
    ensures
        r == text_capacity_of(requested, workers, unit),
        r matches Ok(Some(c)) ==> c >= unit && c as int % (unit as int) == 0,
{
    match requested {
        None => Ok(None),
        Some(b) => {
            let part: usize = b / workers;
            if part < unit {
                Err(GenError::ConfigError(ConfigIssue::BufferTooSmall { workers, unit }))
            } else {
                assert(part / unit * unit <= part && part / unit * unit >= unit && (part / unit
                    * unit) % (unit as int) == 0) by (nonlinear_arith)
                    requires
                        part >= unit,
                        unit >= 1,
                ;
                Ok(Some(part / unit * unit))
            }
        },
    }
}

/// The buffer, in items, of a worker that writes `chunk` lines: the size the
/// request names, or else the whole chunk. A named buffer of no items is
/// refused; a request that names none is never refused.
pub fn item_capacity(requested: Option<usize>, chunk: usize, workers: usize) -> (r: Result<
    usize,
    GenError,
>)
    ensures
        r == item_capacity_of(requested, chunk, workers),
        r matches Ok(c) ==> c > 0 || chunk == 0,
{
    match requested {
        Some(b) => if b == 0 {
            Err(GenError::ConfigError(ConfigIssue::BufferTooSmall { workers, unit: 1 }))
        } else {
            Ok(b)
        },
        None => Ok(chunk),
    }
}

} // verus!
