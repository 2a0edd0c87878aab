use randgen::alphabet::{resolve, Alphabet, AlphabetSpec, Universe};
use randgen::codec::Encoding;
use randgen::error::GenError;
use randgen::progress::ProgressState;
use randgen::rounds::Status;
use randgen::worker::{Action, TextWorker};

fn alphabet_of(symbols: &str) -> Alphabet {
    resolve(&AlphabetSpec {
        universe: Universe::Unicode,
        charset: Some(symbols.to_string()),
        exclude: None,
        exclude_codes: None,
    })
    .unwrap()
}

/// Runs a worker against a sink that accepts everything, and returns what
/// the sink got, buffer by buffer.
fn run(worker: &mut TextWorker, alphabet: &Alphabet) -> Vec<Vec<u8>> {
    let mut flushed = Vec::new();
    for _ in 0..100_000 {
        match worker.advance(alphabet, 16) {
            Action::Flush(units) => {
                assert_eq!(worker.buffer.len(), units);
                flushed.push(worker.buffer.clone());
                assert_eq!(worker.settle(alphabet, true), None);
                assert!(worker.buffer.is_empty());
            }
            Action::Again => {}
            Action::Stop => return flushed,
        }
    }
    panic!("the worker did not stop");
}

#[test]
fn utf8_of_one_narrow_symbol_is_exact() {
    let alphabet = alphabet_of("a");
    let mut worker = TextWorker::finite(Encoding::Utf8, 7, 7);
    let flushed = run(&mut worker, &alphabet);
    assert_eq!(flushed, vec![b"aaaaaaa".to_vec()]);
    assert_eq!(worker.rounds.status, Status::Finished);
    assert_eq!(worker.rounds.written, 7);
}

#[test]
fn utf16_of_two_symbols_is_five_units() {
    let alphabet = alphabet_of("ab");
    let mut worker = TextWorker::finite(Encoding::Utf16LE, 10, 10);
    let bytes = run(&mut worker, &alphabet).concat();
    assert_eq!(bytes.len(), 10);
    for unit in bytes.chunks(2) {
        assert!(unit == [b'a', 0] || unit == [b'b', 0]);
    }
}

#[test]
fn buffers_are_bounded_and_add_up() {
    let alphabet = alphabet_of("xyz");
    let mut worker = TextWorker::finite(Encoding::RawByte, 100, 24);
    let flushed = run(&mut worker, &alphabet);
    let sizes: Vec<usize> = flushed.iter().map(|b| b.len()).collect();
    assert_eq!(sizes, vec![24, 24, 24, 24, 4]);
    assert!(flushed.concat().iter().all(|b| b"xyz".contains(b)));
    assert_eq!(worker.rounds.written, 100);
}

#[test]
fn no_symbol_is_split_between_buffers() {
    let alphabet = alphabet_of("aé€😀");
    let mut worker = TextWorker::finite(Encoding::Utf8, 1000, 7);
    let flushed = run(&mut worker, &alphabet);
    assert_eq!(flushed.iter().map(|b| b.len()).sum::<usize>(), 1000);
    for buffer in &flushed {
        let text = std::str::from_utf8(buffer).unwrap();
        assert!(text.chars().all(|c| alphabet.contains(c)));
    }
}

#[test]
fn utf16_buffers_hold_whole_symbols() {
    let alphabet = alphabet_of("a€😀");
    let mut worker = TextWorker::finite(Encoding::Utf16LE, 600, 6);
    let flushed = run(&mut worker, &alphabet);
    assert_eq!(flushed.iter().map(|b| b.len()).sum::<usize>(), 600);
    for buffer in &flushed {
        let units: Vec<u16> =
            buffer.chunks(2).map(|p| u16::from_le_bytes([p[0], p[1]])).collect();
        let text = String::from_utf16(&units).unwrap();
        assert!(text.chars().all(|c| alphabet.contains(c)));
    }
}

#[test]
fn utf32_buffers_hold_whole_symbols() {
    let alphabet = alphabet_of("a€😀");
    let mut worker = TextWorker::finite(Encoding::Utf32LE, 400, 12);
    let flushed = run(&mut worker, &alphabet);
    assert_eq!(flushed.iter().map(|b| b.len()).sum::<usize>(), 400);
    for buffer in &flushed {
        for p in buffer.chunks(4) {
            let c = char::from_u32(u32::from_le_bytes([p[0], p[1], p[2], p[3]])).unwrap();
            assert!(alphabet.contains(c));
        }
    }
}

#[test]
fn equally_wide_symbols_fill_a_round_in_as_many_draws() {
    let alphabet = alphabet_of("€ア");
    let mut worker = TextWorker::finite(Encoding::Utf8, 30, 30);
    assert_eq!(worker.advance(&alphabet, 4), Action::Again);
    assert_eq!(worker.buffer.len(), 12);
    assert_eq!(worker.advance(&alphabet, 6), Action::Flush(30));
    assert_eq!(worker.advance(&alphabet, 6), Action::Flush(30));
    assert_eq!(worker.buffer.len(), 30);
}

#[test]
fn a_raw_batch_takes_one_draw_for_eight_bytes() {
    let alphabet = alphabet_of("01");
    let mut worker = TextWorker::finite(Encoding::RawByte, 20, 20);
    assert_eq!(worker.advance(&alphabet, 2), Action::Again);
    assert_eq!(worker.buffer.len(), 16);
    assert_eq!(worker.advance(&alphabet, 3), Action::Again);
    assert_eq!(worker.buffer.len(), 19);
    assert_eq!(worker.advance(&alphabet, 1), Action::Flush(20));
}

#[test]
fn symbols_that_never_fit_leave_the_round_open() {
    let alphabet = alphabet_of("é");
    let mut worker = TextWorker::finite(Encoding::Utf8, 7, 7);
    for _ in 0..10 {
        assert_eq!(worker.advance(&alphabet, 100), Action::Again);
    }
    assert_eq!(worker.buffer, "ééé".as_bytes().to_vec());
    assert_eq!(worker.rounds.written, 0);
}

#[test]
fn an_empty_chunk_stops_at_once() {
    let alphabet = alphabet_of("a");
    let mut worker = TextWorker::finite(Encoding::Utf8, 0, 0);
    assert_eq!(worker.advance(&alphabet, 10), Action::Stop);
    assert_eq!(worker.rounds.status, Status::Finished);
    assert!(worker.buffer.is_empty());
}

#[test]
fn a_failed_write_ends_a_finite_worker() {
    let alphabet = alphabet_of("a");
    let mut worker = TextWorker::finite(Encoding::RawByte, 32, 16);
    assert_eq!(worker.advance(&alphabet, 16), Action::Flush(16));
    assert_eq!(worker.settle(&alphabet, false), Some(GenError::IoFailure));
    assert_eq!(worker.rounds.status, Status::Failed);
    assert_eq!(worker.advance(&alphabet, 16), Action::Stop);
    assert_eq!(worker.rounds.written, 0);
}

#[test]
fn a_streaming_worker_stops_quietly_when_the_sink_closes() {
    let alphabet = alphabet_of("abc");
    let mut worker = TextWorker::streaming(Encoding::RawByte, 1024);
    let mut consumed = 0;
    loop {
        match worker.advance(&alphabet, 1024) {
            Action::Flush(units) => {
                assert_eq!(units, 1024);
                let open = consumed < 3 * 1024;
                assert_eq!(worker.settle(&alphabet, open), None);
                if open {
                    consumed += units;
                }
            }
            Action::Again => {}
            Action::Stop => break,
        }
    }
    assert_eq!(consumed, 3 * 1024);
    assert_eq!(worker.rounds.status, Status::Closed);
    assert_eq!(worker.rounds.written, 3 * 1024);
    for _ in 0..5 {
        assert_eq!(worker.advance(&alphabet, 1024), Action::Stop);
        assert_eq!(worker.settle(&alphabet, true), None);
    }
    assert_eq!(worker.rounds.written, 3 * 1024);
}

#[test]
fn settling_too_early_changes_nothing() {
    let alphabet = alphabet_of("ab");
    let mut worker = TextWorker::finite(Encoding::Utf8, 10, 10);
    assert_eq!(worker.advance(&alphabet, 3), Action::Again);
    let before = worker.buffer.clone();
    assert_eq!(worker.settle(&alphabet, true), None);
    assert_eq!(worker.buffer, before);
    assert_eq!(worker.rounds.written, 0);
}

#[test]
fn offered_symbols_are_placed_or_discarded() {
    let alphabet = alphabet_of("ab€");
    let mut worker = TextWorker::finite(Encoding::Utf8, 10, 7);
    assert_eq!(worker.offer(&alphabet, 2), Action::Again);
    assert_eq!(worker.offer(&alphabet, 2), Action::Again);
    assert_eq!(worker.buffer, "€€".as_bytes().to_vec());
    assert_eq!(worker.offer(&alphabet, 2), Action::Again);
    assert_eq!(worker.buffer, "€€".as_bytes().to_vec());
    assert_eq!(worker.offer(&alphabet, 1), Action::Flush(7));
    assert_eq!(worker.buffer, "€€b".as_bytes().to_vec());
    assert_eq!(worker.offer(&alphabet, 0), Action::Flush(7));
    assert_eq!(worker.buffer, "€€b".as_bytes().to_vec());
    assert_eq!(worker.settle(&alphabet, true), None);
    assert_eq!(worker.offer(&alphabet, 2), Action::Flush(3));
    assert_eq!(worker.buffer, "€".as_bytes().to_vec());
    assert_eq!(worker.settle(&alphabet, true), None);
    assert_eq!(worker.offer(&alphabet, 0), Action::Stop);
    assert_eq!(worker.rounds.written, 10);
    assert_eq!(worker.rounds.status, Status::Finished);
}

#[test]
fn offered_batches_need_room_for_eight() {
    let alphabet = alphabet_of("abcdefghij");
    let mut worker = TextWorker::finite(Encoding::RawByte, 20, 12);
    assert_eq!(worker.offer_batch(&alphabet, 0x0807_0605_0403_0201), Action::Again);
    assert_eq!(worker.buffer, b"bcdefghi".to_vec());
    assert_eq!(worker.offer_batch(&alphabet, 0), Action::Again);
    assert_eq!(worker.buffer, b"bcdefghi".to_vec());
    for index in [9, 8, 7] {
        assert_eq!(worker.offer(&alphabet, index), Action::Again);
    }
    assert_eq!(worker.offer(&alphabet, 0), Action::Flush(12));
    assert_eq!(worker.buffer, b"bcdefghijiha".to_vec());
    assert_eq!(worker.settle(&alphabet, true), None);
    assert_eq!(worker.offer_batch(&alphabet, 0), Action::Flush(8));
    assert_eq!(worker.buffer, b"aaaaaaaa".to_vec());
}

#[test]
fn draws_vary() {
    let alphabet = alphabet_of("0123456789abcdefghijklmnopqrstuvwxyz");
    let mut worker = TextWorker::finite(Encoding::RawByte, 4096, 4096);
    let bytes = run(&mut worker, &alphabet).concat();
    let mut seen = std::collections::BTreeSet::new();
    for byte in &bytes {
        seen.insert(*byte);
    }
    assert_eq!(seen.len(), 36);
    let mut worker = TextWorker::finite(Encoding::Utf32LE, 4096, 4096);
    let bytes = run(&mut worker, &alphabet).concat();
    let mut seen = std::collections::BTreeSet::new();
    for unit in bytes.chunks(4) {
        seen.insert(unit[0]);
    }
    assert_eq!(seen.len(), 36);
}

#[test]
fn a_worker_run_in_memory_writes_its_chunk() {
    let alphabet = alphabet_of("a€");
    let mut worker = TextWorker::finite(Encoding::Utf16LE, 64, 10);
    let mut sink = Vec::new();
    let mut progress = ProgressState::new(Some(64));
    assert!(worker.run_into(&alphabet, &mut sink, &mut progress, 1000));
    assert_eq!(sink.len(), 64);
    assert_eq!(progress.done, 64);
    assert_eq!(worker.rounds.written, 64);
    let units: Vec<u16> = sink.chunks(2).map(|p| u16::from_le_bytes([p[0], p[1]])).collect();
    assert!(String::from_utf16(&units).unwrap().chars().all(|c| alphabet.contains(c)));
    assert!(worker.run_into(&alphabet, &mut sink, &mut progress, 1000));
    assert_eq!(sink.len(), 64);
    assert_eq!(progress.done, 64);
}

#[test]
fn a_worker_out_of_turns_is_not_done() {
    let alphabet = alphabet_of("a");
    let mut worker = TextWorker::finite(Encoding::Utf8, 64, 16);
    let mut sink = Vec::new();
    let mut progress = ProgressState::new(None);
    assert!(!worker.run_into(&alphabet, &mut sink, &mut progress, 20));
    assert_eq!(sink.len(), 16);
    assert_eq!(progress.done, 16);
    assert!(worker.run_into(&alphabet, &mut sink, &mut progress, 1000));
    assert_eq!(sink.len(), 64);
    assert_eq!(progress.done, 64);
}

#[test]
fn batches_and_single_bytes_fill_a_raw_round() {
    let alphabet = alphabet_of("xy");
    for (draws, expected) in [(0, 0), (1, 8), (2, 16), (3, 17), (5, 19), (6, 20), (9, 20)] {
        let mut worker = TextWorker::finite(Encoding::RawByte, 20, 20);
        let action = worker.advance(&alphabet, draws);
        assert_eq!(worker.buffer.len(), expected);
        assert_eq!(action, if expected == 20 { Action::Flush(20) } else { Action::Again });
    }
    for (draws, expected) in [(0, 0), (1, 4), (3, 12), (4, 12), (7, 12)] {
        let mut worker = TextWorker::finite(Encoding::Utf32LE, 12, 12);
        worker.advance(&alphabet, draws);
        assert_eq!(worker.buffer.len(), expected.min(4 * draws));
    }
}
