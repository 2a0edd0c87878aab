//! The line worker: fills a bounded buffer with items, one per line.

use vstd::prelude::*;
use crate::buffer::append;
use crate::error::GenError;
use crate::items::{draw_item, valid_item, ScalarKind};
use crate::outside::thread_source;
use crate::progress::{lemma_reports_add, ProgressState};
use crate::rounds::{Rounds, Status};
use crate::worker::{answer, Action};

verus! {

/// The byte that ends a line.
pub const LINE_END: u8 = 10;

/// The items, each followed by a line end.
pub open spec fn join_lines(items: Seq<Seq<u8>>) -> Seq<u8>
    decreases items.len(),
{
    if items.len() == 0 {
        Seq::empty()
    } else {
        join_lines(items.drop_last()) + items.last() + seq![LINE_END]
    }
}

/// Every item is an item of `kind`.
pub open spec fn all_valid(kind: ScalarKind, items: Seq<Seq<u8>>) -> bool {
    forall|i: int| 0 <= i < items.len() ==> valid_item(kind, #[trigger] items[i])
}

/// `bytes` holds `n` items of `kind`, each on a line of its own.
pub open spec fn lines_of(kind: ScalarKind, n: int, bytes: Seq<u8>) -> bool {
    exists|items: Seq<Seq<u8>>|
        items.len() == n && #[trigger] all_valid(kind, items) && bytes == join_lines(items)
}

/// `bytes` is a stream of `n` items of `kind`: a line end after each item but
/// the last.
pub open spec fn stream_of(kind: ScalarKind, n: int, bytes: Seq<u8>) -> bool {
    exists|items: Seq<Seq<u8>>|
        items.len() == n && n >= 1 && #[trigger] all_valid(kind, items) && bytes == join_lines(
            items.drop_last(),
        ) + items.last()
}

/// The lines of two runs of items, one after the other, are the lines of the
/// joined run.
pub proof fn lemma_join_concat(a: Seq<Seq<u8>>, b: Seq<Seq<u8>>)
    ensures
        join_lines(a + b) == join_lines(a) + join_lines(b),
    decreases b.len(),
{
    if b.len() == 0 {
        assert(a + b =~= a);
        assert(join_lines(a) + join_lines(b) =~= join_lines(a));
    } else {
        lemma_join_concat(a, b.drop_last());
        assert((a + b).drop_last() =~= a + b.drop_last());
        assert((a + b).last() == b.last());
        assert(join_lines(a + b) =~= join_lines(a) + join_lines(b));
    }
}

/// Buffers of whole lines may reach the output in any order: joined either
/// way they hold the items of both, each on a line of its own.
pub proof fn lemma_lines_concat(kind: ScalarKind, n: int, a: Seq<u8>, m: int, b: Seq<u8>)
    requires
        lines_of(kind, n, a),
        lines_of(kind, m, b),
    ensures
        lines_of(kind, n + m, a + b),
        lines_of(kind, n + m, b + a),
{
    let ia = choose|items: Seq<Seq<u8>>|
        items.len() == n && #[trigger] all_valid(kind, items) && a == join_lines(items);
    let ib = choose|items: Seq<Seq<u8>>|
        items.len() == m && #[trigger] all_valid(kind, items) && b == join_lines(items);
    lemma_join_concat(ia, ib);
    lemma_join_concat(ib, ia);
    assert(all_valid(kind, ia + ib));
    assert(all_valid(kind, ib + ia));
}

proof fn lemma_no_lines(kind: ScalarKind)
    ensures
        lines_of(kind, 0, Seq::<u8>::empty()),
{
    let none = Seq::<Seq<u8>>::empty();
    assert(all_valid(kind, none));
    assert(join_lines(none) =~= Seq::<u8>::empty());
}

proof fn lemma_one_more_line(kind: ScalarKind, n: int, bytes: Seq<u8>, item: Seq<u8>)
    requires
        lines_of(kind, n, bytes),
        valid_item(kind, item),
    ensures
        lines_of(kind, n + 1, bytes + item + seq![LINE_END]),
{
    let items = choose|items: Seq<Seq<u8>>|
        items.len() == n && #[trigger] all_valid(kind, items) && bytes == join_lines(items);
    let more = items.push(item);
    assert(more.drop_last() =~= items);
    assert(all_valid(kind, more));
    assert(join_lines(more) == bytes + item + seq![LINE_END]);
}

/// One worker of a scalar stream, with its own random source.
pub struct LineWorker {
    pub rounds: Rounds,
    pub kind: ScalarKind,
    /// The lines of the open round.
    pub buffer: Vec<u8>,
    pub rng: rand::rngs::ThreadRng,
}

impl LineWorker {
    /// The buffer holds the items of the open round, each on its line.
    pub open spec fn wf(self) -> bool {
        &&& self.rounds.wf()
        &&& self.kind.wf()
        &&& lines_of(self.kind, self.rounds.filled as int, self.buffer@)
    }

    /// Turns after which a worker that runs has finished: one for every item
    /// to draw and one for every item to flush, at most, and one to notice
    /// the end.
    pub open spec fn turns_needed(self) -> int {
        2 * (self.rounds.chunk - self.rounds.written) - self.rounds.filled + 1
    }

    /// A worker for `chunk` items, flushed in buffers of `capacity` items.
    pub fn finite(kind: ScalarKind, chunk: usize, capacity: usize) -> (w: LineWorker)
        requires
            kind.wf(),
            chunk > 0 ==> capacity > 0,
        ensures
            w.wf(),
            w.rounds == Rounds::fresh(false, chunk, capacity),
            w.kind == kind,
            w.buffer@.len() == 0,
    {
        proof {
            lemma_no_lines(kind);
        }
        let w = LineWorker {
            rounds: Rounds::finite(chunk, capacity),
            kind,
            buffer: Vec::new(),
            rng: thread_source(),
        };
        assert(w.buffer@ =~= Seq::<u8>::empty());
        w
    }

    /// A worker that fills buffers of `capacity` items until the sink closes.
    pub fn streaming(kind: ScalarKind, capacity: usize) -> (w: LineWorker)
        requires
            kind.wf(),
            capacity > 0,
        ensures
            w.wf(),
            w.rounds == Rounds::fresh(true, 0, capacity),
            w.kind == kind,
            w.buffer@.len() == 0,
    {
        proof {
            lemma_no_lines(kind);
        }
        let w = LineWorker {
            rounds: Rounds::unbounded(capacity),
            kind,
            buffer: Vec::new(),
            rng: thread_source(),
        };
        assert(w.buffer@ =~= Seq::<u8>::empty());
        w
    }

    /// Takes one item into the current round: the item and a line end are
    /// appended, unless the worker has stopped or the round is full already.
    pub fn push(&mut self, item: &Vec<u8>) -> (action: Action)
        requires
            old(self).wf(),
            valid_item(old(self).kind, item@),
        ensures
            final(self).wf(),
            final(self).kind == old(self).kind,
            ({
                let open = old(self).rounds.after_begin();
                if open.status == Status::Running && !open.full() {
                    &&& final(self).rounds == open.after_note(1)
                    &&& final(self).buffer@ == old(self).buffer@ + item@ + seq![LINE_END]
                } else {
                    &&& final(self).rounds == open
                    &&& final(self).buffer@ == old(self).buffer@
                }
            }),
            action == answer(final(self).rounds),
    {
        let budget: usize = match self.rounds.begin() {
            None => {
                return Action::Stop;
            },
            Some(b) => b,
        };
        if self.rounds.filled < budget {
            proof {
                lemma_one_more_line(self.kind, self.rounds.filled as int, self.buffer@, item@);
            }
            append(&mut self.buffer, item);
            self.buffer.push(LINE_END);
            assert(self.buffer@ =~= old(self).buffer@ + item@ + seq![LINE_END]);
            self.rounds.note(1);
        }
        if self.rounds.filled == budget {
            Action::Flush(budget)
        } else {
            Action::Again
        }
    }

    /// Draws one item of the worker's kind, with no line end.
    pub fn item(&mut self) -> (item: Vec<u8>)
        requires
            old(self).wf(),
            old(self).kind.drawn(),
        ensures
            final(self).wf(),
            final(self).rounds == old(self).rounds,
            final(self).kind == old(self).kind,
            final(self).buffer@ == old(self).buffer@,
            valid_item(old(self).kind, item@),
    {
        draw_item(&self.kind, &mut self.rng)
    }

    /// Works on the current round by drawing at most `draws` items. Every
    /// item drawn fits, so the round is full after as many draws as items
    /// are missing.
    pub fn advance(&mut self, draws: usize) -> (action: Action)
        requires
            old(self).wf(),
            old(self).kind.drawn(),
        ensures
            final(self).wf(),
            final(self).kind == old(self).kind,
            ({
                let open = old(self).rounds.after_begin();
                let missing = open.pending - open.filled;
                let taken = if open.status != Status::Running {
                    0
                } else if draws < missing {
                    draws as int
                } else {
                    missing
                };
                &&& final(self).rounds == open.after_note(taken)
                &&& exists|items: Seq<Seq<u8>>|
                    items.len() == taken && #[trigger] all_valid(old(self).kind, items)
                        && final(self).buffer@ == old(self).buffer@ + join_lines(items)
            }),
            action == answer(final(self).rounds),
    {
        let ghost before = self.buffer@;
        let ghost mut items: Seq<Seq<u8>> = Seq::empty();
        proof {
            assert(all_valid(self.kind, items));
            assert(before + join_lines(items) =~= before);
        }
        let mut action: Action = match self.rounds.begin() {
            None => Action::Stop,
            Some(b) => if self.rounds.filled == b {
                Action::Flush(b)
            } else {
                Action::Again
            },
        };
        let ghost open = self.rounds;
        let mut used: usize = 0;
        while used < draws && matches!(action, Action::Again)
            invariant
                self.wf(),
                self.kind == old(self).kind,
                self.kind.drawn(),
                open == old(self).rounds.after_begin(),
                used <= draws,
                open.status == Status::Running ==> used <= open.pending - open.filled,
                open.status != Status::Running ==> used == 0,
                self.rounds == open.after_note(used as int),
                action == answer(self.rounds),
                items.len() == used,
                all_valid(self.kind, items),
                self.buffer@ == before + join_lines(items),
            decreases draws - used,
        {
            let item = self.item();
            let ghost so_far = self.buffer@;
            action = self.push(&item);
            proof {
                let more = items.push(item@);
                assert(more.drop_last() =~= items);
                assert(all_valid(self.kind, more));
                assert(before + (join_lines(items) + item@ + seq![LINE_END]) =~= so_far + item@
                    + seq![LINE_END]);
                items = more;
            }
            used += 1;
        }
        action
    }

    /// Runs the worker against a sink in memory, which takes every write, for
    /// at most `turns` turns: a turn is at most one item, and the flush of
    /// the round if it is full then. Says whether
    /// the worker has finished. The sink grows by the lines of as many items
    /// as the worker counts as written; a finished worker has written its
    /// chunk. The items of each buffer are reported to `progress` before the
    /// buffer is written.
    pub fn run_into(&mut self, sink: &mut Vec<u8>, progress: &mut ProgressState, turns: usize) -> (done:
        bool)
        requires
            old(self).wf(),
            old(self).kind.drawn(),
            old(progress).wf(),
            !old(self).rounds.streaming,
        ensures
            final(self).wf(),
            final(progress).wf(),
            *final(progress) == old(progress).after(
                final(self).rounds.written - old(self).rounds.written,
            ),
            final(self).kind == old(self).kind,
            final(self).rounds.chunk == old(self).rounds.chunk,
            !final(self).rounds.streaming,
            done == (final(self).rounds.status == Status::Finished),
            done ==> final(self).rounds.written == final(self).rounds.chunk,
            final(self).rounds.written >= old(self).rounds.written,
            exists|items: Seq<Seq<u8>>|
                items.len() == final(self).rounds.written - old(self).rounds.written
                    && #[trigger] all_valid(old(self).kind, items) && final(sink)@ == old(sink)@
                    + join_lines(items),
            (old(self).rounds.status == Status::Running || old(self).rounds.status
                == Status::Finished) && turns >= old(self).turns_needed() ==> done,
    {
        let ghost kind = self.kind;
        let ghost sure = (self.rounds.status == Status::Running || self.rounds.status
            == Status::Finished) && turns >= self.turns_needed();
        let ghost mut items: Seq<Seq<u8>> = Seq::empty();
        proof {
            assert(all_valid(kind, items));
            assert(old(sink)@ + join_lines(items) =~= old(sink)@);
            lemma_reports_add(*progress, 0, 0);
        }
        let mut left: usize = turns;
        while left > 0
            invariant
                self.wf(),
                self.kind == kind,
                kind == old(self).kind,
                kind.drawn(),
                self.rounds.chunk == old(self).rounds.chunk,
                !self.rounds.streaming,
                self.rounds.written >= old(self).rounds.written,
                items.len() == self.rounds.written - old(self).rounds.written,
                all_valid(kind, items),
                sink@ == old(sink)@ + join_lines(items),
                progress.wf(),
                old(progress).wf(),
                *progress == old(progress).after(
                    self.rounds.written - old(self).rounds.written,
                ),
                sure == ((old(self).rounds.status == Status::Running || old(self).rounds.status
                    == Status::Finished) && turns >= old(self).turns_needed()),
                sure ==> (self.rounds.status == Status::Running || self.rounds.status
                    == Status::Finished) && left >= self.turns_needed(),
            decreases left,
        {
            match self.advance(1) {
                Action::Flush(units) => {
                    proof {
                        lemma_reports_add(
                            *old(progress),
                            self.rounds.written - old(self).rounds.written,
                            units as int,
                        );
                        let more = choose|more: Seq<Seq<u8>>|
                            more.len() == self.rounds.filled && #[trigger] all_valid(kind, more)
                                && self.buffer@ == join_lines(more);
                        lemma_join_concat(items, more);
                        assert(all_valid(kind, items + more));
                        assert(old(sink)@ + (join_lines(items) + join_lines(more)) =~= (old(
                            sink,
                        )@ + join_lines(items)) + join_lines(more));
                        items = items + more;
                    }
                    progress.increment(units);
                    append(sink, &self.buffer);
                    self.settle(true);
                },
                Action::Again => {},
                Action::Stop => {
                    return matches!(self.rounds.status, Status::Finished);
                },
            }
            left -= 1;
        }
        matches!(self.rounds.status, Status::Finished)
    }

    /// Takes the sink's answer to the write of the buffer. After a success
    /// the buffer is emptied for the next round; after a failure the worker
    /// has stopped. With no full round waiting, nothing changes.
    pub fn settle(&mut self, ok: bool) -> (failure: Option<GenError>)
        requires
            old(self).wf(),
        ensures
            final(self).wf(),
            final(self).kind == old(self).kind,
            final(self).rounds == old(self).rounds.after_settle(ok),
            final(self).buffer@ == (if old(self).rounds.ready() && ok {
                Seq::<u8>::empty()
            } else {
                old(self).buffer@
            }),
            failure == (if old(self).rounds.ready() && !ok && !old(self).rounds.streaming {
                Some(GenError::IoFailure)
            } else {
                None
            }),
    {
        let ready: bool = self.rounds.is_ready();
        let failure = self.rounds.settle(ok);
        if ready && ok {
            self.buffer.clear();
            proof {
                lemma_no_lines(self.kind);
            }
        }
        failure
    }
}

} // verus!
