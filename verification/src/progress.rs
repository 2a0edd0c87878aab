//! The progress counter and the choice of its display.

use vstd::prelude::*;
use crate::plan::{lemma_sum_nonnegative, sum};

verus! {

/// Units completed so far, and the units expected if there is a total.
#[derive(Debug, Clone, Copy, PartialEq, Eq, Structural)]
pub struct ProgressState {
    pub done: usize,
    pub total: Option<usize>,
}

impl ProgressState {
    /// The most that the counter can show.
    pub open spec fn bound(self) -> int {
        match self.total {
            Some(t) => t as int,
            None => usize::MAX as int,
        }
    }

    /// The counter does not exceed its total.
    pub open spec fn wf(self) -> bool {
        self.done <= self.bound()
    }

    /// The counter after `n` more units: it stops at its bound.
    pub open spec fn after(self, n: int) -> ProgressState {
        ProgressState {
            done: if self.done + n > self.bound() {
                self.bound() as usize
            } else {
                (self.done + n) as usize
            },
            total: self.total,
        }
    }

    /// The counter after each of `steps` in turn.
    pub open spec fn after_all(self, steps: Seq<usize>) -> ProgressState
        decreases steps.len(),
    {
        if steps.len() == 0 {
            self
        } else {
            self.after_all(steps.drop_last()).after(steps.last() as int)
        }
    }

    /// A counter at zero.
    pub fn new(total: Option<usize>) -> (p: ProgressState)
        ensures
            p.wf(),
            p == (ProgressState { done: 0, total }),
    {
        ProgressState { done: 0, total }
    }

    /// Counts `n` more units.
    pub fn increment(&mut self, n: usize)
        requires
            old(self).wf(),
        ensures
            final(self).wf(),
            *final(self) == old(self).after(n as int),
            final(self).done >= old(self).done,
    {
        let bound: usize = match self.total {
            Some(t) => t,
            None => usize::MAX,
        };
        if n > bound - self.done {
            self.done = bound;
        } else {
            self.done = self.done + n;
        }
    }
}

/// Two reports count as one report of their sum, and a report of nothing
/// changes nothing.
pub proof fn lemma_reports_add(p: ProgressState, a: int, b: int)
    requires
        p.wf(),
        0 <= a,
        0 <= b,
    ensures
        p.after(a).after(b) == p.after(a + b),
        p.after(0) == p,
        p.after(a).wf(),
        p.after(a).done >= p.done,
{
}

/// The counter only grows, and once it has been told of steps that add up to
/// its total, and of no more, it shows its total.
pub proof fn lemma_progress(p: ProgressState, steps: Seq<usize>)
    requires
        p.wf(),
        p.done + sum(steps) <= p.bound(),
    ensures
        p.after_all(steps).wf(),
        p.after_all(steps).done == p.done + sum(steps),
        p.after_all(steps).total == p.total,
    decreases steps.len(),
{
    if steps.len() > 0 {
        lemma_sum_nonnegative(steps.drop_last());
        lemma_progress(p, steps.drop_last());
    }
}

/// How progress is displayed.
#[derive(Debug, Clone, Copy, PartialEq, Eq, Structural)]
pub enum Meter {
    /// Bytes, in powers of 1024.
    BinaryBytes,
    /// Bytes, in powers of 1000.
    DecimalBytes,
    /// A count of items.
    Items,
}

impl Meter {
    /// The template of the progress bar for this meter.
    pub fn template(&self) -> (t: &'static str)
        ensures
            t@ == (match self {
                Meter::BinaryBytes =>
                    "{percent}% {bar:40.cyan/blue} {bytes_per_sec:.green} {bytes:.yellow}/{total_bytes:.magenta} ({eta:.cyan})"@,
                Meter::DecimalBytes =>
                    "{percent}% {bar:40.cyan/blue} {decimal_bytes_per_sec:.green} {decimal_bytes:.yellow}/{decimal_total_bytes:.magenta} ({eta:.cyan})"@,
                Meter::Items =>
                    "{percent}% {bar:40.cyan/blue} {human_pos:.yellow}/{human_len:.magenta} ({eta:.cyan})"@,
            }),
    {
        match self {
            Meter::BinaryBytes =>
                "{percent}% {bar:40.cyan/blue} {bytes_per_sec:.green} {bytes:.yellow}/{total_bytes:.magenta} ({eta:.cyan})",
            Meter::DecimalBytes =>
                "{percent}% {bar:40.cyan/blue} {decimal_bytes_per_sec:.green} {decimal_bytes:.yellow}/{decimal_total_bytes:.magenta} ({eta:.cyan})",
            Meter::Items =>
                "{percent}% {bar:40.cyan/blue} {human_pos:.yellow}/{human_len:.magenta} ({eta:.cyan})",
        }
    }
}

} // verus!
