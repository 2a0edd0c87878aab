//! From a request to a job: everything that is decided before a worker starts.

use vstd::prelude::*;
use crate::alphabet::{resolve, Alphabet, AlphabetSpec};
use crate::buffer::append;
use crate::codec::{
    encode_all, lemma_encode_concat, members, symbol_width, uniform, Encoding,
};
use crate::error::{ConfigIssue, GenError};
use crate::items::ScalarKind;
use crate::lines::{all_valid, join_lines, lemma_join_concat, stream_of, LineWorker};
use crate::plan::{
    item_capacity, item_capacity_of, lemma_rest_is_remainder, lemma_sum_bounds,
    lemma_sum_nonnegative, line_share, plan_chunks, plan_lines, rest, share, sum, text_capacity,
    text_capacity_of, ChunkPlan, STREAM_BUFFER,
};
use crate::progress::{lemma_reports_add, ProgressState};
use crate::worker::TextWorker;

verus! {

/// What is asked for.
#[derive(Debug, Clone)]
pub struct GenerationRequest {
    /// Bytes of text, or items of a scalar stream. Where none is given, one
    /// atomic unit is meant. Not looked at in streaming mode.
    pub total: Option<usize>,
    pub encoding: Encoding,
    /// The alphabet of a text; not looked at for a scalar stream.
    pub alphabet_spec: AlphabetSpec,
    /// The items of a scalar stream; not looked at for a text.
    pub items: ScalarKind,
    pub worker_count: usize,
    /// Bytes of all buffers together for a text; items of one worker's
    /// buffer for a scalar stream.
    pub buffer_capacity: Option<usize>,
    /// Generate until the sink closes.
    pub streaming: bool,
}

/// A request that was accepted: the alphabet, and the work of each worker.
#[derive(Debug, Clone)]
pub struct Job {
    pub encoding: Encoding,
    pub items: ScalarKind,
    /// The resolved alphabet of a text.
    pub alphabet: Option<Alphabet>,
    pub streaming: bool,
    /// Units of the whole output; zero in streaming mode.
    pub total: usize,
    /// Units of each worker.
    pub chunks: Vec<usize>,
    /// Units of each worker's buffer.
    pub capacities: Vec<usize>,
    /// Units that are produced after the workers, in one piece.
    pub leftover: usize,
}

impl GenerationRequest {
    /// The units asked for.
    pub open spec fn units(self) -> int {
        match self.total {
            Some(t) => t as int,
            None => self.encoding.unit(),
        }
    }

    /// The units of worker `i` in finite mode.
    pub open spec fn chunk(self, i: int) -> int {
        if self.encoding.is_text() {
            share(self.units(), self.worker_count as int, self.encoding.deal_unit(), i)
        } else {
            line_share(self.units(), self.worker_count as int, i)
        }
    }

    /// The units produced after the workers in finite mode.
    pub open spec fn tail(self) -> int {
        if self.encoding.is_text() {
            rest(self.units(), self.worker_count as int, self.encoding.deal_unit())
        } else {
            1
        }
    }

    /// The units of the buffer of worker `i` in finite mode, if the sizes
    /// asked for allow one.
    pub open spec fn capacity(self, i: int) -> Result<usize, GenError> {
        if self.encoding.is_text() {
            match text_capacity_of(
                self.buffer_capacity,
                self.worker_count,
                self.encoding.deal_unit() as usize,
            ) {
                Ok(Some(c)) => Ok(c),
                Ok(None) => Ok(self.chunk(i) as usize),
                Err(e) => Err(e),
            }
        } else {
            item_capacity_of(self.buffer_capacity, self.chunk(i) as usize, self.worker_count)
        }
    }

    /// What is wrong with the numbers of the request, if anything: the first
    /// of these that applies. No worker; streaming in a Unicode encoding; a
    /// named text buffer too small for one group per worker; in finite mode
    /// a total below one atomic unit, or not a multiple of it; for a scalar
    /// stream an empty range or an impossible label length; in finite mode a
    /// named buffer of no item for the workers of a scalar stream. A request
    /// that names no buffer is never refused for its buffer.
    pub open spec fn issue(self) -> Option<ConfigIssue> {
        let unit = self.encoding.unit();
        let deal = self.encoding.deal_unit();
        if self.worker_count == 0 {
            Some(ConfigIssue::NoWorkers)
        } else if self.streaming && (self.encoding == Encoding::Utf8 || self.encoding
            == Encoding::Utf16LE || self.encoding == Encoding::Utf32LE) {
            Some(ConfigIssue::StreamingUnsupported)
        } else if self.encoding.is_text() && text_capacity_of(
            self.buffer_capacity,
            self.worker_count,
            deal as usize,
        ) is Err {
            Some(
                ConfigIssue::BufferTooSmall { workers: self.worker_count, unit: deal as usize },
            )
        } else if !self.streaming && self.units() < unit {
            Some(ConfigIssue::SizeTooSmall { unit: unit as usize })
        } else if !self.streaming && self.units() % unit != 0 {
            Some(ConfigIssue::SizeNotAligned { unit: unit as usize })
        } else if !self.encoding.is_text() && !self.items.wf() {
            match self.items {
                ScalarKind::Int { .. } => Some(ConfigIssue::EmptyRange),
                _ => Some(ConfigIssue::OutOfRange),
            }
        } else if !self.encoding.is_text() && !self.streaming && self.buffer_capacity == Some(
            0usize,
        ) {
            Some(ConfigIssue::BufferTooSmall { workers: self.worker_count, unit: 1 })
        } else {
            None
        }
    }

    /// Why the request is refused, if it is: for what is wrong with its
    /// numbers, or else, for a text, for an alphabet without symbols.
    pub open spec fn refusal(self) -> Option<GenError> {
        match self.issue() {
            Some(issue) => Some(GenError::ConfigError(issue)),
            None => if self.encoding.is_text() && self.alphabet_spec.symbols().len() == 0 {
                Some(GenError::EmptyAlphabet)
            } else {
                None
            },
        }
    }
}

impl Job {
    /// The number of workers.
    pub open spec fn workers(self) -> int {
        self.chunks@.len() as int
    }

    /// The job is consistent: every worker has its buffer, a text has its
    /// alphabet, a scalar stream has items that can be drawn or are supplied.
    /// In finite mode the chunks and the leftover add up to the total; the
    /// chunks, the buffers and the leftover of a text are whole numbers of
    /// atomic units; the leftover of a scalar stream is its closing item.
    pub open spec fn wf(self) -> bool {
        &&& self.capacities@.len() == self.chunks@.len()
        &&& forall|i: int|
            0 <= i < self.chunks@.len() ==> (#[trigger] self.chunks@[i] > 0
                ==> self.capacities@[i] > 0)
        &&& self.streaming ==> forall|i: int|
            0 <= i < self.chunks@.len() ==> #[trigger] self.capacities@[i] > 0
        &&& if self.encoding.is_text() {
            self.alphabet matches Some(a) && a.wf()
        } else {
            self.items.wf() && (!self.streaming ==> self.leftover == 1)
        }
        &&& !self.streaming ==> self.plan().total() == self.total
        &&& !self.streaming && self.encoding.is_text() ==> self.aligned(self.encoding.unit())
    }

    /// Every chunk, every buffer and the leftover hold a whole number of
    /// symbols of `width` bytes.
    pub open spec fn aligned(self, width: int) -> bool {
        &&& self.leftover as int % width == 0
        &&& forall|i: int|
            0 <= i < self.chunks@.len() ==> (#[trigger] self.chunks@[i]) as int % width == 0
        &&& forall|i: int|
            0 <= i < self.capacities@.len() ==> (#[trigger] self.capacities@[i]) as int % width
                == 0
    }

    /// Chance has no say in whether the job gets done: it is one of lines, or
    /// one of a text whose symbols are all as wide as the encoding's unit.
    pub open spec fn steady(self) -> bool {
        self.encoding.is_text() ==> (self.alphabet matches Some(a) && uniform(self.encoding, a@)
            && symbol_width(self.encoding, a@[0]) == self.encoding.unit())
    }

    /// The job is the one that `request` asks for.
    pub open spec fn answers(self, request: GenerationRequest) -> bool {
        &&& self.encoding == request.encoding
        &&& self.items == request.items
        &&& self.streaming == request.streaming
        &&& self.workers() == request.worker_count
        &&& self.capacities@.len() == request.worker_count
        &&& request.encoding.is_text() ==> (self.alphabet matches Some(a) && a@
            == request.alphabet_spec.symbols())
        &&& if request.streaming {
            &&& self.total == 0
            &&& self.leftover == 0
            &&& forall|i: int|
                0 <= i < self.workers() ==> #[trigger] self.chunks@[i] == 0
                    && self.capacities@[i] == STREAM_BUFFER
        } else {
            &&& self.total == request.units()
            &&& self.leftover == request.tail()
            &&& forall|i: int|
                0 <= i < self.workers() ==> #[trigger] self.chunks@[i] == request.chunk(i)
                    && request.capacity(i) == Ok::<usize, GenError>(self.capacities@[i])
        }
    }

    /// The plan of the job.
    pub open spec fn plan(self) -> ChunkPlan {
        ChunkPlan { chunks: self.chunks, leftover: self.leftover }
    }

    /// The worker for chunk `index` of a text.
    pub fn text_worker(&self, index: usize) -> (w: TextWorker)
        requires
            self.wf(),
            self.encoding.is_text(),
            index < self.workers(),
        ensures
            w.wf(self.alphabet->0@),
            w.encoding == self.encoding,
            w.buffer@.len() == 0,
            w.rounds == (if self.streaming {
                crate::rounds::Rounds::fresh(true, 0, self.capacities@[index as int])
            } else {
                crate::rounds::Rounds::fresh(
                    false,
                    self.chunks@[index as int],
                    self.capacities@[index as int],
                )
            }),
    {
        let w = if self.streaming {
            TextWorker::streaming(self.encoding, self.capacities[index])
        } else {
            TextWorker::finite(self.encoding, self.chunks[index], self.capacities[index])
        };
        assert(w.wf(self.alphabet->0@));
        w
    }

    /// The worker that produces the leftover of a text once the others are done.
    pub fn tail_worker(&self) -> (w: TextWorker)
        requires
            self.wf(),
            self.encoding.is_text(),
        ensures
            w.wf(self.alphabet->0@),
            w.encoding == self.encoding,
            w.buffer@.len() == 0,
            w.rounds == crate::rounds::Rounds::fresh(false, self.leftover, self.leftover),
    {
        let w = TextWorker::finite(self.encoding, self.leftover, self.leftover);
        assert(w.wf(self.alphabet->0@));
        w
    }

    /// The worker for chunk `index` of a scalar stream.
    pub fn line_worker(&self, index: usize) -> (w: LineWorker)
        requires
            self.wf(),
            !self.encoding.is_text(),
            index < self.workers(),
        ensures
            w.wf(),
            w.kind == self.items,
            w.buffer@.len() == 0,
            w.rounds == (if self.streaming {
                crate::rounds::Rounds::fresh(true, 0, self.capacities@[index as int])
            } else {
                crate::rounds::Rounds::fresh(
                    false,
                    self.chunks@[index as int],
                    self.capacities@[index as int],
                )
            }),
    {
        if self.streaming {
            LineWorker::streaming(self.items, self.capacities[index])
        } else {
            LineWorker::finite(self.items, self.chunks[index], self.capacities[index])
        }
    }
}

/// Sum of the first `k` chunks and the next one.
proof fn lemma_sum_take(chunks: Seq<usize>, k: int)
    requires
        0 <= k < chunks.len(),
    ensures
        sum(chunks.take(k + 1)) == sum(chunks.take(k)) + chunks[k],
{
    assert(chunks.take(k + 1).drop_last() =~= chunks.take(k));
}

impl Job {
    /// Runs the whole job against a sink in memory, one worker after the
    /// other and what is left over last, with at most `turns` turns for each
    /// worker. Says whether all of them finished.
    ///
    /// The sink only grows by whole symbols of the alphabet, or by whole
    /// lines of items of the job's kind. When all workers finished, it has
    /// grown by exactly the job's total: that many bytes of text, or that
    /// many items with a line end after each but the last. What is written
    /// is reported to `progress` before it is written: a counter that starts
    /// at zero with the job's total as its bound shows the total at the end.
    pub fn run_into(&self, sink: &mut Vec<u8>, progress: &mut ProgressState, turns: usize) -> (done:
        bool)
        requires
            self.wf(),
            old(progress).wf(),
            !self.streaming,
            !self.encoding.is_text() ==> self.items.drawn(),
        ensures
            final(progress).wf(),
            self.encoding.is_text() ==> {
                &&& exists|syms: Seq<char>| #[trigger]
                    members(syms, self.alphabet->0@) && final(sink)@ == old(sink)@ + encode_all(
                        self.encoding,
                        syms,
                    )
                &&& final(sink)@.len() >= old(sink)@.len()
                &&& *final(progress) == old(progress).after(
                    final(sink)@.len() - old(sink)@.len(),
                )
            },
            self.encoding.is_text() && done ==> final(sink)@.len() == old(sink)@.len()
                + self.total,
            !self.encoding.is_text() && done ==> exists|bytes: Seq<u8>|
                #[trigger] stream_of(self.items, self.total as int, bytes) && final(sink)@ == old(
                    sink,
                )@ + bytes,
            !self.encoding.is_text() && !done ==> exists|items: Seq<Seq<u8>>|
                #[trigger] all_valid(self.items, items) && final(sink)@ == old(sink)@ + join_lines(
                    items,
                ) && *final(progress) == old(progress).after(items.len() as int),
            done ==> *final(progress) == old(progress).after(self.total as int),
            self.steady() && turns > 2 * self.total ==> done,
    {
        if matches!(self.encoding, Encoding::ScalarStream) {
            return self.run_lines(sink, progress, turns);
        }
        match &self.alphabet {
            Some(alphabet) => self.run_text(alphabet, sink, progress, turns),
            None => {
                proof {
                    lemma_reports_add(*progress, 0, 0);
                }
                false
            },
        }
    }

    fn run_text(
        &self,
        alphabet: &Alphabet,
        sink: &mut Vec<u8>,
        progress: &mut ProgressState,
        turns: usize,
    ) -> (done: bool)
        requires
            self.wf(),
            old(progress).wf(),
            !self.streaming,
            self.encoding.is_text(),
            self.alphabet == Some(*alphabet),
        ensures
            final(progress).wf(),
            exists|syms: Seq<char>| #[trigger]
                members(syms, alphabet@) && final(sink)@ == old(sink)@ + encode_all(
                    self.encoding,
                    syms,
                ),
            final(sink)@.len() >= old(sink)@.len(),
            *final(progress) == old(progress).after(final(sink)@.len() - old(sink)@.len()),
            done ==> final(sink)@.len() == old(sink)@.len() + self.total,
            self.steady() && turns > 2 * self.total ==> done,
    {
        let enc: Encoding = self.encoding;
        proof {
            lemma_sum_nonnegative(self.chunks@);
            lemma_reports_add(*progress, 0, 0);
        }
        let ghost mut syms: Seq<char> = Seq::empty();
        proof {
            assert(members(syms, alphabet@));
            assert(old(sink)@ + encode_all(enc, syms) =~= old(sink)@);
            assert(self.chunks@.take(0) =~= Seq::<usize>::empty());
        }
        let mut i: usize = 0;
        while i < self.chunks.len()
            invariant
                self.wf(),
                !self.streaming,
                enc == self.encoding,
                enc.is_text(),
                self.alphabet == Some(*alphabet),
                i <= self.chunks@.len(),
                members(syms, alphabet@),
                sink@ == old(sink)@ + encode_all(enc, syms),
                sink@.len() == old(sink)@.len() + sum(self.chunks@.take(i as int)),
                sum(self.chunks@.take(i as int)) >= 0,
                progress.wf(),
                old(progress).wf(),
                *progress == old(progress).after(sink@.len() - old(sink)@.len()),
            decreases self.chunks.len() - i,
        {
            let mut worker = self.text_worker(i);
            let ghost so_far = sink@;
            proof {
                lemma_sum_bounds(self.chunks@, i as int);
                if self.steady() {
                    assert(worker.steady(alphabet@));
                }
            }
            let done = worker.run_into(alphabet, sink, progress, turns);
            proof {
                let more = choose|s: Seq<char>| #[trigger]
                    members(s, alphabet@) && sink@ == so_far + encode_all(enc, s);
                lemma_encode_concat(enc, syms, more);
                assert(members(syms + more, alphabet@));
                assert(old(sink)@ + (encode_all(enc, syms) + encode_all(enc, more)) =~= (old(
                    sink,
                )@ + encode_all(enc, syms)) + encode_all(enc, more));
                syms = syms + more;
                lemma_sum_take(self.chunks@, i as int);
                lemma_reports_add(
                    *old(progress),
                    so_far.len() - old(sink)@.len(),
                    worker.rounds.written as int,
                );
            }
            if !done {
                return false;
            }
            i += 1;
        }
        let mut worker = self.tail_worker();
        let ghost so_far = sink@;
        proof {
            if self.steady() {
                assert(worker.steady(alphabet@));
            }
        }
        let done = worker.run_into(alphabet, sink, progress, turns);
        proof {
            let more = choose|s: Seq<char>| #[trigger]
                members(s, alphabet@) && sink@ == so_far + encode_all(enc, s);
            lemma_encode_concat(enc, syms, more);
            assert(members(syms + more, alphabet@));
            assert(old(sink)@ + (encode_all(enc, syms) + encode_all(enc, more)) =~= (old(sink)@
                + encode_all(enc, syms)) + encode_all(enc, more));
            assert(self.chunks@.take(self.chunks@.len() as int) =~= self.chunks@);
            lemma_reports_add(
                *old(progress),
                so_far.len() - old(sink)@.len(),
                worker.rounds.written as int,
            );
        }
        done
    }

    fn run_lines(&self, sink: &mut Vec<u8>, progress: &mut ProgressState, turns: usize) -> (done:
        bool)
        requires
            self.wf(),
            old(progress).wf(),
            !self.streaming,
            !self.encoding.is_text(),
            self.items.drawn(),
        ensures
            final(progress).wf(),
            done ==> exists|bytes: Seq<u8>|
                #[trigger] stream_of(self.items, self.total as int, bytes) && final(sink)@ == old(
                    sink,
                )@ + bytes,
            !done ==> exists|items: Seq<Seq<u8>>|
                #[trigger] all_valid(self.items, items) && final(sink)@ == old(sink)@ + join_lines(
                    items,
                ) && *final(progress) == old(progress).after(items.len() as int),
            done ==> *final(progress) == old(progress).after(self.total as int),
            turns > 2 * self.total ==> done,
    {
        let ghost kind = self.items;
        proof {
            lemma_sum_nonnegative(self.chunks@);
            lemma_reports_add(*progress, 0, 0);
        }
        let ghost mut items: Seq<Seq<u8>> = Seq::empty();
        proof {
            assert(all_valid(kind, items));
            assert(old(sink)@ + join_lines(items) =~= old(sink)@);
            assert(self.chunks@.take(0) =~= Seq::<usize>::empty());
        }
        let mut i: usize = 0;
        while i < self.chunks.len()
            invariant
                self.wf(),
                !self.streaming,
                !self.encoding.is_text(),
                kind == self.items,
                kind.drawn(),
                i <= self.chunks@.len(),
                all_valid(kind, items),
                items.len() == sum(self.chunks@.take(i as int)),
                sink@ == old(sink)@ + join_lines(items),
                progress.wf(),
                old(progress).wf(),
                *progress == old(progress).after(items.len() as int),
            decreases self.chunks.len() - i,
        {
            let mut worker = self.line_worker(i);
            let ghost so_far = sink@;
            proof {
                lemma_sum_bounds(self.chunks@, i as int);
            }
            let done = worker.run_into(sink, progress, turns);
            proof {
                let more = choose|more: Seq<Seq<u8>>|
                    more.len() == worker.rounds.written && #[trigger] all_valid(kind, more)
                        && sink@ == so_far + join_lines(more);
                lemma_join_concat(items, more);
                assert(all_valid(kind, items + more));
                assert(old(sink)@ + (join_lines(items) + join_lines(more)) =~= (old(sink)@
                    + join_lines(items)) + join_lines(more));
                lemma_reports_add(*old(progress), items.len() as int, more.len() as int);
                items = items + more;
                lemma_sum_take(self.chunks@, i as int);
            }
            if !done {
                return false;
            }
            i += 1;
        }
        let mut closer = LineWorker::finite(self.items, 0, 0);
        let last = closer.item();
        progress.increment(1);
        append(sink, &last);
        proof {
            assert(self.chunks@.take(self.chunks@.len() as int) =~= self.chunks@);
            let all = items.push(last@);
            assert(all.drop_last() =~= items);
            assert(all_valid(kind, all));
            let bytes = join_lines(items) + last@;
            assert(stream_of(kind, self.total as int, bytes));
            assert(sink@ =~= old(sink)@ + bytes);
            lemma_reports_add(*old(progress), items.len() as int, 1);
        }
        true
    }
}

/// A multiple of the dealing unit is a multiple of the atomic unit, which
/// the dealing unit is a multiple of.
proof fn lemma_multiple_of_unit(x: int, deal: int, unit: int)
    requires
        x % deal == 0,
        (unit == 1 && deal == 8) || (deal == unit && 1 <= unit <= 4),
    ensures
        x % unit == 0,
{
}

fn check_items(items: &ScalarKind) -> (r: Result<(), GenError>)
    ensures
        r == (if items.wf() {
            Ok::<(), GenError>(())
        } else {
            match *items {
                ScalarKind::Int { .. } => Err(GenError::ConfigError(ConfigIssue::EmptyRange)),
                _ => Err(GenError::ConfigError(ConfigIssue::OutOfRange)),
            }
        }),
{
    match items {
        ScalarKind::Int { min, max } => if *min > *max {
            Err(GenError::ConfigError(ConfigIssue::EmptyRange))
        } else {
            Ok(())
        },
        ScalarKind::Url { length: Some(l), segments: _, query: _ } => if *l > usize::MAX / 2 {
            Err(GenError::ConfigError(ConfigIssue::OutOfRange))
        } else {
            Ok(())
        },
        _ => Ok(()),
    }
}

fn repeated(value: usize, count: usize) -> (v: Vec<usize>)
    ensures
        v@.len() == count,
        forall|i: int| 0 <= i < count ==> #[trigger] v@[i] == value,
{
    let mut v: Vec<usize> = Vec::new();
    let mut i: usize = 0;
    while i < count
        invariant
            i <= count,
            v@.len() == i,
            forall|j: int| 0 <= j < i ==> #[trigger] v@[j] == value,
        decreases count - i,
    {
        v.push(value);
        i += 1;
    }
    v
}

/// Decides a request before any worker exists: its numbers are checked, the
/// alphabet of a text is resolved, the total is dealt to the workers and
/// every worker gets its buffer. A request is refused for the first reason
/// that `refusal` names, and for no other.
#[verifier::loop_isolation(false)]
pub fn prepare(request: &GenerationRequest) -> (r: Result<Job, GenError>)
    ensures
        match r {
            Ok(job) => request.refusal() is None && job.wf() && job.answers(*request),
            Err(e) => request.refusal() == Some(e),
        },
{
    let workers: usize = request.worker_count;
    let encoding: Encoding = request.encoding;
    let unit: usize = encoding.atomic_unit();
    let deal: usize = encoding.dealing_unit();
    let text: bool = !matches!(encoding, Encoding::ScalarStream);
    if workers == 0 {
        return Err(GenError::ConfigError(ConfigIssue::NoWorkers));
    }
    if request.streaming && matches!(
        encoding,
        Encoding::Utf8 | Encoding::Utf16LE | Encoding::Utf32LE
    ) {
        return Err(GenError::ConfigError(ConfigIssue::StreamingUnsupported));
    }
    let shared: Option<usize> = if text {
        match text_capacity(request.buffer_capacity, workers, deal) {
            Ok(c) => c,
            Err(e) => {
                return Err(e);
            },
        }
    } else {
        None
    };
    let total: usize = if request.streaming {
        0
    } else {
        match request.total {
            Some(t) => t,
            None => unit,
        }
    };
    if !request.streaming {
        if total < unit {
            return Err(GenError::ConfigError(ConfigIssue::SizeTooSmall { unit }));
        }
        if total % unit != 0 {
            return Err(GenError::ConfigError(ConfigIssue::SizeNotAligned { unit }));
        }
    }
    if !text {
        match check_items(&request.items) {
            Ok(()) => {},
            Err(e) => {
                return Err(e);
            },
        }
    }
    if request.streaming {
        let alphabet: Option<Alphabet> = if text {
            match resolve(&request.alphabet_spec) {
                Ok(a) => Some(a),
                Err(e) => {
                    return Err(e);
                },
            }
        } else {
            None
        };
        return Ok(
            Job {
                encoding,
                items: request.items,
                alphabet,
                streaming: true,
                total: 0,
                chunks: repeated(0, workers),
                capacities: repeated(STREAM_BUFFER, workers),
                leftover: 0,
            },
        );
    }
    if text {
        let alphabet: Alphabet = match resolve(&request.alphabet_spec) {
            Ok(a) => a,
            Err(e) => {
                return Err(e);
            },
        };
        let plan = plan_chunks(total, workers, deal);
        let mut capacities: Vec<usize> = Vec::new();
        let mut i: usize = 0;
        while i < workers
            invariant
                i <= workers,
                workers == request.worker_count,
                plan.chunks@.len() == workers,
                capacities@.len() == i,
                shared matches Some(c) ==> c > 0,
                forall|j: int|
                    0 <= j < i ==> #[trigger] capacities@[j] == (match shared {
                        Some(c) => c,
                        None => plan.chunks@[j],
                    }),
            decreases workers - i,
        {
            capacities.push(
                match shared {
                    Some(c) => c,
                    None => plan.chunks[i],
                },
            );
            i += 1;
        }
        let job = Job {
            encoding,
            items: request.items,
            alphabet: Some(alphabet),
            streaming: false,
            total,
            chunks: plan.chunks,
            capacities,
            leftover: plan.leftover,
        };
        proof {
            lemma_rest_is_remainder(total as int, workers as int, deal as int);
            assert forall|i: int| 0 <= i < job.chunks@.len() implies (
            #[trigger] job.chunks@[i]) as int % (unit as int) == 0 && job.capacities@[i] as int
                % (unit as int) == 0 by {
                lemma_multiple_of_unit(job.chunks@[i] as int, deal as int, unit as int);
                lemma_multiple_of_unit(job.capacities@[i] as int, deal as int, unit as int);
            }
            assert(job.aligned(unit as int));
        }
        assert(job.answers(*request));
        Ok(job)
    } else {
        let plan = plan_lines(total, workers);
        let mut capacities: Vec<usize> = Vec::new();
        let mut i: usize = 0;
        while i < workers
            invariant
                i <= workers,
                workers == request.worker_count,
                workers >= 1,
                !request.encoding.is_text(),
                total == request.units(),
                plan.chunks@.len() == workers,
                forall|j: int|
                    0 <= j < workers ==> #[trigger] plan.chunks@[j] == line_share(
                        total as int,
                        workers as int,
                        j,
                    ),
                capacities@.len() == i,
                forall|j: int|
                    0 <= j < i ==> (#[trigger] request.capacity(j)) == Ok::<usize, GenError>(
                        capacities@[j],
                    ) && (plan.chunks@[j] > 0 ==> capacities@[j] > 0),
            decreases workers - i,
        {
            match item_capacity(request.buffer_capacity, plan.chunks[i], workers) {
                Ok(c) => {
                    capacities.push(c);
                },
                Err(e) => {
                    assert(request.capacity(i as int) is Err);
                    return Err(e);
                },
            }
            i += 1;
        }
        let job = Job {
            encoding,
            items: request.items,
            alphabet: None,
            streaming: false,
            total,
            chunks: plan.chunks,
            capacities,
            leftover: plan.leftover,
        };
        assert(job.answers(*request));
        Ok(job)
    }
}

} // verus!
