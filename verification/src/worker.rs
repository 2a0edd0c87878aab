//! The text worker: fills a bounded buffer with whole symbols.

use vstd::prelude::*;
use crate::alphabet::Alphabet;
use crate::buffer::append;
use crate::codec::{
    batch_symbols, encode_all, lemma_batch_members, lemma_encode_concat, lemma_encode_push,
    lemma_raw_bytes, lemma_symbol_width, lemma_whole_empty, members, place_symbol, push_batch,
    symbol_bytes, symbol_width, uniform, whole, Encoding, BATCH,
};
use crate::error::GenError;
use crate::outside::{draw_index, draw_u64, thread_source};
use crate::progress::{lemma_reports_add, ProgressState};
use crate::rounds::{Rounds, Status};

verus! {

/// What the caller has to do next.
#[derive(Debug, Clone, Copy, PartialEq, Eq, Structural)]
pub enum Action {
    /// The buffer holds a full round of this many units: report them as
    /// generated, write the buffer to the sink, and settle with the answer.
    Flush(usize),
    /// The draws ran out before the round was full: advance again.
    Again,
    /// The worker has stopped: there is nothing more to write.
    Stop,
}

/// One worker of a text generation, with its own random source.
pub struct TextWorker {
    pub rounds: Rounds,
    pub encoding: Encoding,
    /// The bytes of the open round.
    pub buffer: Vec<u8>,
    pub rng: rand::rngs::ThreadRng,
}

/// What `advance` answers for accounts `r` as they stand after it.
pub open spec fn answer(r: Rounds) -> Action {
    if r.status != Status::Running {
        Action::Stop
    } else if r.full() {
        Action::Flush(r.pending)
    } else {
        Action::Again
    }
}

/// Bytes by which a round of equally wide symbols grows in `draws` draws when
/// `missing` bytes are missing. In raw-byte output a draw gives a batch
/// while a batch is missing and one byte after that; elsewhere every draw
/// gives one symbol of `width` bytes. Nothing is added to a full round.
pub open spec fn sure_growth(raw: bool, width: int, missing: int, draws: int) -> int {
    if raw {
        let batches = missing / (BATCH as int);
        if draws <= batches {
            BATCH * draws
        } else if draws - batches >= missing % (BATCH as int) {
            missing
        } else {
            BATCH * batches + (draws - batches)
        }
    } else if draws * width >= missing {
        missing
    } else {
        draws * width
    }
}

/// The sum and the difference of two multiples of a width are multiples of it.
proof fn lemma_multiples(a: int, b: int, width: int)
    by (nonlinear_arith)
    requires
        1 <= width <= 4,
        a % width == 0,
        b % width == 0,
    ensures
        (a - b) % width == 0,
        (a + b) % width == 0,
{
}

impl TextWorker {
    /// The buffer holds the units of the open round, and only whole symbols
    /// of the alphabet.
    pub open spec fn wf(self, alphabet: Seq<char>) -> bool {
        &&& self.rounds.wf()
        &&& self.encoding.is_text()
        &&& self.buffer@.len() == self.rounds.filled
        &&& whole(self.encoding, alphabet, self.buffer@)
    }

    /// Chance has no say in whether the worker finishes: the symbols of the
    /// alphabet are equally wide, and the chunk, what is written of it, the
    /// buffers and the open round all hold a whole number of them.
    pub open spec fn steady(self, alphabet: Seq<char>) -> bool {
        let width = symbol_width(self.encoding, alphabet[0]);
        &&& uniform(self.encoding, alphabet)
        &&& !self.rounds.streaming
        &&& self.rounds.status == Status::Running || self.rounds.status == Status::Finished
        &&& self.rounds.capacity as int % width == 0
        &&& (self.rounds.chunk - self.rounds.written) % width == 0
        &&& self.rounds.pending as int % width == 0
        &&& self.rounds.filled as int % width == 0
    }

    /// Turns after which a steady worker has finished: one for every byte to
    /// generate and one for every byte to flush, at most, and one to notice
    /// the end.
    pub open spec fn turns_needed(self) -> int {
        2 * (self.rounds.chunk - self.rounds.written) - self.rounds.filled + 1
    }

    /// A worker for `chunk` bytes, flushed in buffers of `capacity` bytes.
    pub fn finite(encoding: Encoding, chunk: usize, capacity: usize) -> (w: TextWorker)
        requires
            encoding.is_text(),
            chunk > 0 ==> capacity > 0,
        ensures
            w.rounds == Rounds::fresh(false, chunk, capacity),
            w.encoding == encoding,
            w.buffer@.len() == 0,
            forall|alphabet: Seq<char>| w.wf(alphabet),
    {
        let w = TextWorker {
            rounds: Rounds::finite(chunk, capacity),
            encoding,
            buffer: Vec::new(),
            rng: thread_source(),
        };
        proof {
            assert forall|alphabet: Seq<char>| w.wf(alphabet) by {
                lemma_whole_empty(encoding, alphabet);
                assert(w.buffer@ =~= Seq::<u8>::empty());
            }
        }
        w
    }

    /// A worker that fills buffers of `capacity` bytes until the sink closes.
    pub fn streaming(encoding: Encoding, capacity: usize) -> (w: TextWorker)
        requires
            encoding.is_text(),
            capacity > 0,
        ensures
            w.rounds == Rounds::fresh(true, 0, capacity),
            w.encoding == encoding,
            w.buffer@.len() == 0,
            forall|alphabet: Seq<char>| w.wf(alphabet),
    {
        let w = TextWorker {
            rounds: Rounds::unbounded(capacity),
            encoding,
            buffer: Vec::new(),
            rng: thread_source(),
        };
        proof {
            assert forall|alphabet: Seq<char>| w.wf(alphabet) by {
                lemma_whole_empty(encoding, alphabet);
                assert(w.buffer@ =~= Seq::<u8>::empty());
            }
        }
        w
    }

    /// Takes the symbol at `index` of the alphabet into the current round:
    /// its bytes are appended if they still fit in the round's budget; if
    /// not, or if the worker has stopped, nothing changes but that a round
    /// may have been opened.
    pub fn offer(&mut self, alphabet: &Alphabet, index: usize) -> (action: Action)
        requires
            alphabet.wf(),
            old(self).wf(alphabet@),
            index < alphabet@.len(),
        ensures
            final(self).wf(alphabet@),
            final(self).encoding == old(self).encoding,
            ({
                let open = old(self).rounds.after_begin();
                let c = alphabet@[index as int];
                let width = symbol_width(old(self).encoding, c);
                if open.status == Status::Running && open.filled + width <= open.pending {
                    &&& final(self).rounds == open.after_note(width)
                    &&& final(self).buffer@ == old(self).buffer@ + symbol_bytes(
                        old(self).encoding,
                        c,
                    )
                } else {
                    &&& final(self).rounds == open
                    &&& final(self).buffer@ == old(self).buffer@
                }
            }),
            action == answer(final(self).rounds),
    {
        let budget: usize = match self.rounds.begin() {
            None => {
                return Action::Stop;
            },
            Some(b) => b,
        };
        let c: char = alphabet.symbol(index);
        let ghost before = self.buffer@;
        let start: usize = self.buffer.len();
        let placed: bool = place_symbol(self.encoding, c, budget, &mut self.buffer);
        proof {
            lemma_symbol_width(self.encoding, c);
            if placed {
                let mine = choose|s: Seq<char>| #[trigger]
                    members(s, alphabet@) && before == encode_all(self.encoding, s);
                lemma_encode_push(self.encoding, mine, c);
                assert(alphabet@.contains(c));
                assert(members(mine.push(c), alphabet@));
            }
        }
        self.rounds.note(self.buffer.len() - start);
        if self.buffer.len() == budget {
            Action::Flush(budget)
        } else {
            Action::Again
        }
    }

    /// Takes a batch into the current round of raw-byte output: the eight
    /// symbols that `draw` selects are appended if eight bytes are still
    /// missing; if not, nothing changes but that a round may have been opened.
    pub fn offer_batch(&mut self, alphabet: &Alphabet, draw: u64) -> (action: Action)
        requires
            alphabet.wf(),
            old(self).wf(alphabet@),
            old(self).encoding == Encoding::RawByte,
        ensures
            final(self).wf(alphabet@),
            final(self).encoding == old(self).encoding,
            ({
                let open = old(self).rounds.after_begin();
                if open.status == Status::Running && open.filled + BATCH <= open.pending {
                    &&& final(self).rounds == open.after_note(BATCH as int)
                    &&& final(self).buffer@ == old(self).buffer@ + encode_all(
                        Encoding::RawByte,
                        batch_symbols(draw, alphabet@),
                    )
                } else {
                    &&& final(self).rounds == open
                    &&& final(self).buffer@ == old(self).buffer@
                }
            }),
            action == answer(final(self).rounds),
    {
        let budget: usize = match self.rounds.begin() {
            None => {
                return Action::Stop;
            },
            Some(b) => b,
        };
        if budget - self.buffer.len() >= BATCH {
            let ghost before = self.buffer@;
            push_batch(draw, &alphabet.symbols, &mut self.buffer);
            proof {
                let more = batch_symbols(draw, alphabet@);
                let mine = choose|s: Seq<char>| #[trigger]
                    members(s, alphabet@) && before == encode_all(Encoding::RawByte, s);
                lemma_encode_concat(Encoding::RawByte, mine, more);
                assert(members(mine + more, alphabet@));
            }
            self.rounds.note(BATCH);
        }
        if self.buffer.len() == budget {
            Action::Flush(budget)
        } else {
            Action::Again
        }
    }

    /// Works on the current round with at most `draws` random draws.
    ///
    /// A draw selects a symbol of the alphabet, which is offered to the
    /// round: it is appended if it still fits in the round's budget; if not,
    /// the draw is discarded. In raw-byte output, while eight bytes or more
    /// are missing, one draw selects a batch of eight symbols. The buffer
    /// therefore only ever grows by whole symbols and never beyond the budget.
    ///
    /// Which symbols are drawn is left to chance, and so is whether a round
    /// of symbols of different widths gets full. Of equally wide symbols
    /// every draw is placed, as long as a whole number of them is missing:
    /// the round grows by `sure_growth` bytes exactly, and is full after as
    /// many draws as symbols, or batches and single bytes, are missing.
    pub fn advance(&mut self, alphabet: &Alphabet, draws: usize) -> (action: Action)
        requires
            alphabet.wf(),
            old(self).wf(alphabet@),
        ensures
            final(self).wf(alphabet@),
            final(self).encoding == old(self).encoding,
            final(self).buffer@.len() >= old(self).buffer@.len(),
            final(self).rounds == old(self).rounds.after_begin().after_note(
                final(self).buffer@.len() - old(self).buffer@.len(),
            ),
            exists|syms: Seq<char>| #[trigger]
                members(syms, alphabet@) && final(self).buffer@ == old(self).buffer@ + encode_all(
                    old(self).encoding,
                    syms,
                ),
            action == answer(final(self).rounds),
            old(self).rounds.after_begin().status != Status::Running ==> final(self).buffer@
                == old(self).buffer@,
            ({
                let open = old(self).rounds.after_begin();
                let missing = open.pending - old(self).buffer@.len();
                let width = symbol_width(old(self).encoding, alphabet@[0]);
                let grown = final(self).buffer@.len() - old(self).buffer@.len();
                open.status == Status::Running && uniform(old(self).encoding, alphabet@) && missing
                    % width == 0 ==> {
                    &&& (missing - grown) % width == 0
                    &&& action == Action::Flush(open.pending) || grown >= draws * width
                    &&& grown == sure_growth(
                        old(self).encoding == Encoding::RawByte,
                        width,
                        missing,
                        draws as int,
                    )
                }
            }),
    {
        let enc: Encoding = self.encoding;
        let ghost before = self.buffer@;
        let ghost mut syms: Seq<char> = Seq::empty();
        proof {
            assert(encode_all(enc, syms) =~= Seq::<u8>::empty());
            assert(before + encode_all(enc, syms) =~= before);
            assert(members(syms, alphabet@));
            lemma_symbol_width(enc, alphabet@[0]);
        }
        let mut action: Action = match self.rounds.begin() {
            None => Action::Stop,
            Some(b) => if self.rounds.filled == b {
                Action::Flush(b)
            } else {
                Action::Again
            },
        };
        let n: usize = alphabet.len();
        let raw: bool = matches!(enc, Encoding::RawByte);
        let ghost open = self.rounds;
        let ghost width = symbol_width(enc, alphabet@[0]);
        let ghost fixed = uniform(enc, alphabet@) && (open.pending - open.filled) % width == 0;
        let mut used: usize = 0;
        while used < draws && matches!(action, Action::Again)
            invariant
                alphabet.wf(),
                n == alphabet@.len(),
                self.wf(alphabet@),
                raw == (enc == Encoding::RawByte),
                self.encoding == enc,
                open == old(self).rounds.after_begin(),
                open.filled == before.len(),
                self.buffer@.len() >= before.len(),
                self.rounds == open.after_note(self.buffer@.len() - before.len()),
                action == answer(self.rounds),
                open.status != Status::Running ==> action == Action::Stop && self.buffer@
                    == before,
                used <= draws,
                members(syms, alphabet@),
                self.buffer@ == before + encode_all(enc, syms),
                width == symbol_width(enc, alphabet@[0]),
                1 <= width <= 4,
                fixed == (uniform(enc, alphabet@) && (open.pending - open.filled) % width == 0),
                fixed ==> self.buffer@.len() - before.len() >= used * width && (open.pending
                    - self.buffer@.len()) % width == 0,
                fixed && open.status == Status::Running ==> self.buffer@.len() - before.len()
                    == sure_growth(raw, width, open.pending - open.filled, used as int),
            decreases draws - used,
        {
            let ghost len = self.buffer@.len();
            proof {
                assert((used + 1) * width == used * width + width) by (nonlinear_arith);
            }
            if raw && self.rounds.pending - self.rounds.filled >= BATCH {
                let draw: u64 = draw_u64(&mut self.rng);
                action = self.offer_batch(alphabet, draw);
                proof {
                    let more = batch_symbols(draw, alphabet@);
                    lemma_batch_members(draw, alphabet@);
                    lemma_encode_concat(enc, syms, more);
                    assert(before + (encode_all(enc, syms) + encode_all(enc, more)) =~= (before
                        + encode_all(enc, syms)) + encode_all(enc, more));
                    assert(members(syms + more, alphabet@));
                    syms = syms + more;
                    lemma_raw_bytes(more);
                }
            } else {
                let index: usize = draw_index(&mut self.rng, n);
                action = self.offer(alphabet, index);
                proof {
                    let c = alphabet@[index as int];
                    lemma_symbol_width(enc, c);
                    assert(alphabet@.contains(c));
                    if fixed {
                        assert(symbol_width(enc, c) == width);
                        assert(open.pending - len >= width) by {
                            assert((open.pending - len) % width == 0 && open.pending - len > 0
                                ==> open.pending - len >= width) by (nonlinear_arith)
                                requires
                                    width >= 1,
                            ;
                        }
                        assert((open.pending - len - width) % width == 0) by (nonlinear_arith)
                            requires
                                (open.pending - len) % width == 0,
                                width >= 1,
                        ;
                    }
                    if self.buffer@.len() > len {
                        lemma_encode_push(enc, syms, c);
                        assert(before + (encode_all(enc, syms) + symbol_bytes(enc, c)) =~= (before
                            + encode_all(enc, syms)) + symbol_bytes(enc, c));
                        syms = syms.push(c);
                    }
                }
            }
            used += 1;
        }
        proof {
            if fixed && open.status == Status::Running && used < draws {
                // The round is full: more draws would add nothing.
                assert(self.buffer@.len() == open.pending);
                assert(draws * width >= used * width) by (nonlinear_arith)
                    requires
                        draws >= used,
                        width >= 1,
                ;
            }
        }
        action
    }

    /// Runs the worker against a sink in memory, which takes every write, for
    /// at most `turns` turns: a turn is at most one draw, and the flush of
    /// the round if it is full then. Says whether
    /// the worker has finished. The sink grows by the buffers flushed, which
    /// are whole symbols of the alphabet, and by as many bytes as the worker
    /// counts as written; a finished worker has written its chunk. The bytes
    /// of each buffer are reported to `progress` before the buffer is written.
    pub fn run_into(
        &mut self,
        alphabet: &Alphabet,
        sink: &mut Vec<u8>,
        progress: &mut ProgressState,
        turns: usize,
    ) -> (done: bool)
        requires
            alphabet.wf(),
            old(self).wf(alphabet@),
            old(progress).wf(),
            !old(self).rounds.streaming,
        ensures
            final(self).wf(alphabet@),
            final(progress).wf(),
            *final(progress) == old(progress).after(
                final(self).rounds.written - old(self).rounds.written,
            ),
            final(self).encoding == old(self).encoding,
            final(self).rounds.chunk == old(self).rounds.chunk,
            !final(self).rounds.streaming,
            done == (final(self).rounds.status == Status::Finished),
            done ==> final(self).rounds.written == final(self).rounds.chunk,
            final(self).rounds.written >= old(self).rounds.written,
            final(sink)@.len() == old(sink)@.len() + (final(self).rounds.written - old(
                self,
            ).rounds.written),
            exists|syms: Seq<char>| #[trigger]
                members(syms, alphabet@) && final(sink)@ == old(sink)@ + encode_all(
                    old(self).encoding,
                    syms,
                ),
            old(self).steady(alphabet@) && turns >= old(self).turns_needed() ==> done,
    {
        let ghost enc = self.encoding;
        let ghost mut syms: Seq<char> = Seq::empty();
        let ghost sure = self.steady(alphabet@) && turns >= self.turns_needed();
        let ghost width = symbol_width(enc, alphabet@[0]);
        proof {
            assert(members(syms, alphabet@));
            assert(old(sink)@ + encode_all(enc, syms) =~= old(sink)@);
            lemma_symbol_width(enc, alphabet@[0]);
            lemma_reports_add(*progress, 0, 0);
        }
        let mut left: usize = turns;
        while left > 0
            invariant
                alphabet.wf(),
                self.wf(alphabet@),
                self.encoding == enc,
                enc == old(self).encoding,
                self.rounds.chunk == old(self).rounds.chunk,
                !self.rounds.streaming,
                self.rounds.written >= old(self).rounds.written,
                sink@.len() == old(sink)@.len() + (self.rounds.written - old(
                    self,
                ).rounds.written),
                members(syms, alphabet@),
                sink@ == old(sink)@ + encode_all(enc, syms),
                progress.wf(),
                old(progress).wf(),
                *progress == old(progress).after(
                    self.rounds.written - old(self).rounds.written,
                ),
                width == symbol_width(enc, alphabet@[0]),
                1 <= width <= 4,
                sure == (old(self).steady(alphabet@) && turns >= old(self).turns_needed()),
                sure ==> self.steady(alphabet@) && left >= self.turns_needed(),
            decreases left,
        {
            proof {
                if sure {
                    let open = self.rounds.after_begin();
                    lemma_multiples(
                        self.rounds.capacity as int,
                        self.rounds.chunk - self.rounds.written,
                        width,
                    );
                    lemma_multiples(open.pending as int, self.buffer@.len() as int, width);
                }
            }
            let ghost was = self.rounds;
            match self.advance(alphabet, 1) {
                Action::Flush(units) => {
                    proof {
                        lemma_reports_add(
                            *old(progress),
                            self.rounds.written - old(self).rounds.written,
                            units as int,
                        );
                        if sure {
                            lemma_multiples(
                                self.rounds.chunk - self.rounds.written,
                                self.rounds.pending as int,
                                width,
                            );
                        }
                        let more = choose|s: Seq<char>| #[trigger]
                            members(s, alphabet@) && self.buffer@ == encode_all(enc, s);
                        lemma_encode_concat(enc, syms, more);
                        assert(members(syms + more, alphabet@));
                        assert(old(sink)@ + (encode_all(enc, syms) + encode_all(enc, more))
                            =~= (old(sink)@ + encode_all(enc, syms)) + encode_all(enc, more));
                        syms = syms + more;
                    }
                    progress.increment(units);
                    append(sink, &self.buffer);
                    self.settle(alphabet, true);
                },
                Action::Again => {
                    proof {
                        if sure {
                            let open = was.after_begin();
                            let missing = open.pending - open.filled;
                            let grown = self.rounds.filled - open.filled;
                            assert(grown >= width) by (nonlinear_arith)
                                requires
                                    grown >= 1 * width,
                            ;
                            lemma_multiples(open.pending as int, missing - grown, width);
                        }
                    }
                },
                Action::Stop => {
                    return matches!(self.rounds.status, Status::Finished);
                },
            }
            left -= 1;
        }
        matches!(self.rounds.status, Status::Finished)
    }

    /// Takes the sink's answer to the write of the buffer. After a success
    /// the buffer is emptied for the next round; after a failure the worker
    /// has stopped. With no full round waiting, nothing changes.
    pub fn settle(&mut self, alphabet: &Alphabet, ok: bool) -> (failure: Option<GenError>)
        requires
            old(self).wf(alphabet@),
        ensures
            final(self).wf(alphabet@),
            final(self).encoding == old(self).encoding,
            final(self).rounds == old(self).rounds.after_settle(ok),
            final(self).buffer@ == (if old(self).rounds.ready() && ok {
                Seq::<u8>::empty()
            } else {
                old(self).buffer@
            }),
            failure == (if old(self).rounds.ready() && !ok && !old(self).rounds.streaming {
                Some(GenError::IoFailure)
            } else {
                None
            }),
    {
        let ready: bool = self.rounds.is_ready();
        let failure = self.rounds.settle(ok);
        if ready && ok {
            self.buffer.clear();
            proof {
                lemma_whole_empty(self.encoding, alphabet@);
            }
        }
        failure
    }
}

} // verus!
