use randgen::error::GenError;
use randgen::rounds::{Rounds, Status};

#[test]
fn a_finite_worker_runs_its_rounds() {
    let mut r = Rounds::finite(10, 4);
    assert_eq!(r.begin(), Some(4));
    assert!(!r.is_ready());
    r.note(4);
    assert!(r.is_ready());
    assert_eq!(r.settle(true), None);
    assert_eq!(r.written, 4);
    assert_eq!(r.begin(), Some(4));
    r.note(4);
    assert_eq!(r.settle(true), None);
    assert_eq!(r.begin(), Some(2));
    r.note(2);
    assert_eq!(r.settle(true), None);
    assert_eq!(r.written, 10);
    assert_eq!(r.begin(), None);
    assert_eq!(r.status, Status::Finished);
}

#[test]
fn an_open_round_stays_open() {
    let mut r = Rounds::finite(10, 4);
    assert_eq!(r.begin(), Some(4));
    r.note(1);
    assert_eq!(r.begin(), Some(4));
    assert_eq!(r.filled, 1);
    r.note(3);
    assert_eq!(r.begin(), Some(4));
    assert!(r.is_ready());
}

#[test]
fn nothing_to_do_finishes_at_once() {
    let mut r = Rounds::finite(0, 0);
    assert_eq!(r.begin(), None);
    assert_eq!(r.status, Status::Finished);
    assert_eq!(r.written, 0);
}

#[test]
fn settling_without_a_full_round_changes_nothing() {
    let mut r = Rounds::finite(10, 4);
    let before = r;
    assert_eq!(r.settle(true), None);
    assert_eq!(r, before);
    r.begin();
    r.note(3);
    let before = r;
    assert_eq!(r.settle(false), None);
    assert_eq!(r, before);
}

#[test]
fn a_failed_write_fails_a_finite_worker() {
    let mut r = Rounds::finite(10, 4);
    r.begin();
    r.note(4);
    assert_eq!(r.settle(false), Some(GenError::IoFailure));
    assert_eq!(r.status, Status::Failed);
    assert_eq!(r.written, 0);
    assert_eq!(r.begin(), None);
    assert_eq!(r.settle(true), None);
    assert_eq!(r.written, 0);
}

#[test]
fn a_closed_sink_stops_a_streaming_worker_quietly() {
    let mut r = Rounds::unbounded(16);
    for _ in 0..3 {
        assert_eq!(r.begin(), Some(16));
        r.note(16);
        assert_eq!(r.settle(true), None);
    }
    assert_eq!(r.written, 48);
    assert_eq!(r.begin(), Some(16));
    r.note(16);
    assert_eq!(r.settle(false), None);
    assert_eq!(r.status, Status::Closed);
    assert_eq!(r.begin(), None);
    assert!(!r.is_ready());
    assert_eq!(r.written, 48);
}

#[test]
fn the_count_of_a_streaming_worker_stops_at_the_top() {
    let mut r = Rounds::unbounded(16);
    r.written = usize::MAX - 5;
    r.begin();
    r.note(16);
    r.settle(true);
    assert_eq!(r.written, usize::MAX);
    assert_eq!(r.status, Status::Running);
}
