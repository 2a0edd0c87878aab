//! The accounts of one worker: rounds of filling and flushing.
//!
//! A worker produces its chunk in rounds. A round is opened with a budget of
//! units, filled, and then settled with the sink's answer to the write. The
//! caller performs the write; this module decides what comes next.

use vstd::prelude::*;
use crate::error::GenError;
use crate::plan::{ChunkPlan, sum};

verus! {

/// Where a worker stands.
#[derive(Debug, Clone, Copy, PartialEq, Eq, Structural)]
pub enum Status {
    /// Rounds are opened, filled and settled.
    Running,
    /// The whole chunk was written (finite mode only).
    Finished,
    /// The sink closed under a streaming worker, which then stopped quietly.
    Closed,
    /// A write failed in finite mode.
    Failed,
}

/// The accounts of one worker.
#[derive(Debug, Clone, Copy, PartialEq, Eq, Structural)]
pub struct Rounds {
    /// No fixed total: rounds go on until the sink closes.
    pub streaming: bool,
    /// Units to produce in finite mode.
    pub chunk: usize,
    /// Most units of one round.
    pub capacity: usize,
    /// Units that the sink accepted.
    pub written: usize,
    /// Budget of the open round; zero while no round is open.
    pub pending: usize,
    /// Units generated in the open round.
    pub filled: usize,
    pub status: Status,
}

/// `a + b`, held at the largest `usize`.
pub open spec fn capped(a: int, b: int) -> usize {
    if a + b > usize::MAX {
        usize::MAX
    } else {
        (a + b) as usize
    }
}

impl Rounds {
    /// The accounts are consistent.
    pub open spec fn wf(self) -> bool {
        &&& self.filled <= self.pending <= self.capacity
        &&& !self.streaming ==> self.written + self.pending <= self.chunk
        &&& self.status == Status::Running && (self.streaming || self.written < self.chunk)
            ==> self.capacity > 0
        &&& self.status == Status::Finished ==> !self.streaming && self.written == self.chunk
            && self.pending == 0
    }

    /// The accounts of a worker that has not begun.
    pub open spec fn fresh(streaming: bool, chunk: usize, capacity: usize) -> Rounds {
        Rounds {
            streaming,
            chunk,
            capacity,
            written: 0,
            pending: 0,
            filled: 0,
            status: Status::Running,
        }
    }

    /// A round is open and its budget is met.
    pub open spec fn full(self) -> bool {
        self.pending > 0 && self.filled == self.pending
    }

    /// A full round waits for the sink.
    pub open spec fn ready(self) -> bool {
        self.status == Status::Running && self.full()
    }

    /// Units generated in completed batches: what a progress counter has
    /// been told.
    pub open spec fn generated(self) -> int {
        self.written + if self.full() {
            self.pending as int
        } else {
            0
        }
    }

    /// The accounts after asking for the next round.
    pub open spec fn after_begin(self) -> Rounds {
        if self.status != Status::Running || self.pending > 0 {
            self
        } else if self.streaming {
            Rounds { pending: self.capacity, filled: 0, ..self }
        } else if self.written == self.chunk {
            Rounds { status: Status::Finished, ..self }
        } else if self.capacity <= self.chunk - self.written {
            Rounds { pending: self.capacity, filled: 0, ..self }
        } else {
            Rounds { pending: (self.chunk - self.written) as usize, filled: 0, ..self }
        }
    }

    /// The accounts after `n` more units were generated in the open round.
    pub open spec fn after_note(self, n: int) -> Rounds {
        Rounds { filled: (self.filled + n) as usize, ..self }
    }

    /// The accounts after the sink answered the write of a full round.
    pub open spec fn after_settle(self, ok: bool) -> Rounds {
        if !self.ready() {
            self
        } else if ok {
            Rounds {
                written: capped(self.written as int, self.pending as int),
                pending: 0,
                filled: 0,
                ..self
            }
        } else if self.streaming {
            Rounds { status: Status::Closed, ..self }
        } else {
            Rounds { status: Status::Failed, ..self }
        }
    }

    /// Accounts for `chunk` units, written in rounds of at most `capacity`.
    pub fn finite(chunk: usize, capacity: usize) -> (r: Rounds)
        requires
            chunk > 0 ==> capacity > 0,
        ensures
            r.wf(),
            r == Rounds::fresh(false, chunk, capacity),
    {
        Rounds {
            streaming: false,
            chunk,
            capacity,
            written: 0,
            pending: 0,
            filled: 0,
            status: Status::Running,
        }
    }

    /// Accounts for rounds of `capacity` units without end.
    pub fn unbounded(capacity: usize) -> (r: Rounds)
        requires
            capacity > 0,
        ensures
            r.wf(),
            r == Rounds::fresh(true, 0, capacity),
    {
        Rounds {
            streaming: true,
            chunk: 0,
            capacity,
            written: 0,
            pending: 0,
            filled: 0,
            status: Status::Running,
        }
    }

    /// Asks for the round to work on: the open one, or else a new one of
    /// `capacity` units, or of what is left of the chunk if that is less.
    /// Returns its budget, or `None` when the worker has stopped: a finite
    /// worker whose chunk is written finishes here.
    pub fn begin(&mut self) -> (budget: Option<usize>)
        requires
            old(self).wf(),
        ensures
            final(self).wf(),
            *final(self) == old(self).after_begin(),
            budget == (if final(self).status == Status::Running {
                Some(final(self).pending)
            } else {
                None
            }),
            budget matches Some(b) ==> b > 0,
    {
        if !matches!(self.status, Status::Running) {
            return None;
        }
        if self.pending == 0 {
            if self.streaming {
                self.pending = self.capacity;
                self.filled = 0;
            } else if self.written == self.chunk {
                self.status = Status::Finished;
                return None;
            } else {
                let left: usize = self.chunk - self.written;
                self.pending = if self.capacity <= left {
                    self.capacity
                } else {
                    left
                };
                self.filled = 0;
            }
        }
        Some(self.pending)
    }

    /// Records `n` units generated in the open round.
    pub fn note(&mut self, n: usize)
        requires
            old(self).wf(),
            old(self).filled + n <= old(self).pending,
        ensures
            final(self).wf(),
            *final(self) == old(self).after_note(n as int),
    {
        self.filled = self.filled + n;
    }

    /// Whether a full round waits to be written.
    pub fn is_ready(&self) -> (r: bool)
        ensures
            r == self.ready(),
    {
        matches!(self.status, Status::Running) && self.pending > 0 && self.filled == self.pending
    }

    /// Takes the sink's answer to the write of the full round. After a
    /// success the round's units count as written and the round is closed.
    /// After a failure the worker stops: a streaming worker quietly, a finite
    /// one with `IoFailure`. With no full round waiting, nothing changes.
    pub fn settle(&mut self, ok: bool) -> (failure: Option<GenError>)
        requires
            old(self).wf(),
        ensures
            final(self).wf(),
            *final(self) == old(self).after_settle(ok),
            failure == (if old(self).ready() && !ok && !old(self).streaming {
                Some(GenError::IoFailure)
            } else {
                None
            }),
    {
        if !self.is_ready() {
            return None;
        }
        if ok {
            self.written = self.written.saturating_add(self.pending);
            self.pending = 0;
            self.filled = 0;
            None
        } else if self.streaming {
            self.status = Status::Closed;
            None
        } else {
            self.status = Status::Failed;
            Some(GenError::IoFailure)
        }
    }
}

/// Units written by a group of workers.
pub open spec fn sum_written(ws: Seq<Rounds>) -> int
    decreases ws.len(),
{
    if ws.len() == 0 {
        0
    } else {
        sum_written(ws.drop_last()) + ws.last().written
    }
}

/// A finite worker that finished has written its chunk, no more and no less,
/// and has reported as much to the progress counter.
pub proof fn lemma_finished_is_exact(r: Rounds)
    requires
        r.wf(),
        r.status == Status::Finished,
    ensures
        r.written == r.chunk,
        r.generated() == r.chunk,
{
}

/// In finite mode a worker never accounts for more than its chunk.
pub proof fn lemma_never_over(r: Rounds)
    requires
        r.wf(),
        !r.streaming,
    ensures
        r.written <= r.generated() <= r.chunk,
{
}

/// The counts only grow: whatever a worker is asked or told, the units
/// written do not decrease, and while it runs neither do the units generated.
pub proof fn lemma_counts_grow(r: Rounds, n: int, ok: bool)
    requires
        r.wf(),
        0 <= n,
        r.filled + n <= r.pending,
    ensures
        r.after_begin().written == r.written,
        r.after_note(n).written == r.written,
        r.after_settle(ok).written >= r.written,
        r.after_begin().generated() >= r.generated(),
        r.after_note(n).generated() >= r.generated(),
        !r.streaming && ok ==> r.after_settle(ok).generated() == r.generated(),
{
}

/// A worker that has stopped stays as it is: it opens no further round, so
/// nothing is handed to the sink after the sink was seen to fail.
pub proof fn lemma_stopped_stays(r: Rounds, ok: bool)
    requires
        r.status != Status::Running,
    ensures
        r.after_begin() == r,
        r.after_settle(ok) == r,
        !r.ready(),
{
}

/// A failed write stops the worker at once: a streaming worker is closed, a
/// finite one has failed, and neither is ready or running afterwards.
pub proof fn lemma_failure_stops(r: Rounds)
    requires
        r.wf(),
        r.ready(),
    ensures
        r.after_settle(false).status == (if r.streaming {
            Status::Closed
        } else {
            Status::Failed
        }),
        r.after_settle(false).written == r.written,
        !r.after_settle(false).ready(),
        r.after_settle(false).after_begin() == r.after_settle(false),
{
}

/// When every worker of a plan has finished its chunk, and the worker that
/// produces the leftover has finished too, the units written add up to the
/// total that was planned.
pub proof fn lemma_exact_total(plan: ChunkPlan, ws: Seq<Rounds>, tail: Rounds)
    requires
        ws.len() == plan.chunks@.len(),
        forall|i: int|
            0 <= i < ws.len() ==> {
                &&& (#[trigger] ws[i]).wf()
                &&& ws[i].status == Status::Finished
                &&& ws[i].chunk == plan.chunks@[i]
            },
        tail.wf(),
        tail.status == Status::Finished,
        tail.chunk == plan.leftover,
    ensures
        sum_written(ws) + tail.written == plan.total(),
{
    lemma_written_is_sum(plan.chunks@, ws);
}

proof fn lemma_written_is_sum(chunks: Seq<usize>, ws: Seq<Rounds>)
    requires
        ws.len() == chunks.len(),
        forall|i: int|
            0 <= i < ws.len() ==> {
                &&& (#[trigger] ws[i]).wf()
                &&& ws[i].status == Status::Finished
                &&& ws[i].chunk == chunks[i]
            },
    ensures
        sum_written(ws) == sum(chunks),
    decreases ws.len(),
{
    if ws.len() > 0 {
        lemma_written_is_sum(chunks.drop_last(), ws.drop_last());
        assert(ws.last() == ws[ws.len() - 1]);
    }
}

} // verus!
