//! Deduplicated, monotonic progress percentages.
//!
//! A phase of the pipeline (copy, replace, scan) owns a sub-range
//! `lo..=hi` of the 0..=100 progress scale. After each completed unit the
//! tracker computes the phase percentage and hands it out only when it
//! differs from the last value handed out, so the reported stream is
//! non-decreasing and free of immediate duplicates, and a finished phase
//! always ends exactly at `hi`.

use vstd::prelude::*;
use vstd::arithmetic::div_mod::{lemma_div_is_ordered, lemma_div_multiples_vanish};
use vstd::arithmetic::mul::lemma_mul_inequality;

verus! {

/// Percentage reported once `done` of `total` units of a phase spanning
/// `lo..=hi` are complete: `lo + floor(done * (hi - lo) / total)`.
pub open spec fn phase_percent(lo: int, hi: int, done: int, total: int) -> int {
    lo + done * (hi - lo) / total
}

/// Raising the completed count never lowers the phase percentage.
pub proof fn lemma_phase_percent_monotonic(lo: int, hi: int, d1: int, d2: int, total: int)
    requires
        1 <= total,
        lo <= hi,
        0 <= d1 <= d2,
    ensures
        phase_percent(lo, hi, d1, total) <= phase_percent(lo, hi, d2, total),
{
    lemma_mul_inequality(d1, d2, hi - lo);
    lemma_div_is_ordered(d1 * (hi - lo), d2 * (hi - lo), total);
}

/// Once every unit of a phase is complete, the phase percentage is exactly
/// the phase's upper bound, however `total` divides the range: a finished
/// full-range phase always reads 100.
pub proof fn lemma_phase_completes(lo: int, hi: int, total: int)
    requires
        1 <= total,
        lo <= hi,
    ensures
        phase_percent(lo, hi, total, total) == hi,
{
    lemma_div_multiples_vanish(hi - lo, total);
}

/// With at most `total` units done, the phase percentage stays within the
/// phase's own range.
pub proof fn lemma_phase_percent_in_range(lo: int, hi: int, done: int, total: int)
    requires
        1 <= total,
        lo <= hi,
        0 <= done <= total,
    ensures
        lo <= phase_percent(lo, hi, done, total) <= hi,
{
    lemma_phase_percent_monotonic(lo, hi, 0, done, total);
    lemma_phase_percent_monotonic(lo, hi, done, total, total);
    lemma_phase_completes(lo, hi, total);
}

/// Progress state of one phase: how many of `total` units are done and the
/// last percentage handed out for emission.
pub struct ProgressTracker {
    pub processed: u32,
    pub total: u32,
    pub lo: u32,
    pub hi: u32,
    pub last: u32,
}

impl ProgressTracker {
    /// The tracker's invariant: a positive total, a completed count within
    /// it, a phase range inside 0..=100, and a last-emitted value that is
    /// the percentage of the current completed count.
    pub open spec fn wf(self) -> bool {
        &&& 1 <= self.total
        &&& self.processed <= self.total
        &&& self.lo <= self.hi <= 100
        &&& self.last == phase_percent(self.lo as int, self.hi as int, self.processed as int, self.total as int)
    }

    /// Starts a phase over `lo..=hi` with no unit done. A zero total is
    /// clamped to one so that the percentage is always defined; the caller
    /// then closes the empty phase with `finish`.
    pub fn new(total: u32, lo: u32, hi: u32) -> (t: ProgressTracker)
        requires
            lo <= hi <= 100,
        ensures
            t.wf(),
            t.total == if total == 0 { 1u32 } else { total },
            t.processed == 0,
            t.lo == lo,
            t.hi == hi,
            t.last == lo,
    {
        let clamped: u32 = if total == 0 { 1 } else { total };
        ProgressTracker { processed: 0, total: clamped, lo, hi, last: lo }
    }

    /// Records one completed unit. Returns the new phase percentage exactly
    /// when it differs from the last value handed out, so the emitted stream
    /// never repeats a value back to back and never decreases.
    pub fn advance(&mut self) -> (emit: Option<u32>)
        requires
            old(self).wf(),
            old(self).processed < old(self).total,
        ensures
            final(self).wf(),
            final(self).total == old(self).total,
            final(self).lo == old(self).lo,
            final(self).hi == old(self).hi,
            final(self).processed == old(self).processed + 1,
            final(self).last == phase_percent(old(self).lo as int, old(self).hi as int, old(self).processed + 1, old(self).total as int),
            old(self).last <= final(self).last <= final(self).hi,
            match emit {
                Some(p) => p == final(self).last && final(self).last != old(self).last,
                None => final(self).last == old(self).last,
            },
    {
        let done: u32 = self.processed + 1;
        self.processed = done;
        let span: u32 = self.hi - self.lo;
        proof {
            assert((done as int) * (span as int) <= 0xffff_ffff * 100) by (nonlinear_arith)
                requires
                    0 <= done as int <= 0xffff_ffff,
                    0 <= span as int <= 100,
            ;
        }
        let scaled: u64 = (done as u64) * (span as u64);
        proof {
            lemma_mul_inequality(done as int, self.total as int, span as int);
            lemma_div_is_ordered((done as int) * (span as int), (self.total as int) * (span as int), self.total as int);
            lemma_div_multiples_vanish(span as int, self.total as int);
        }
        let part: u64 = scaled / (self.total as u64);
        let pct: u32 = self.lo + (part as u32);
        proof {
            lemma_phase_percent_monotonic(self.lo as int, self.hi as int, done as int - 1, done as int, self.total as int);
        }
        if pct != self.last {
            self.last = pct;
            Some(pct)
        } else {
            None
        }
    }

    /// Closes the phase: every unit counts as done and the percentage is
    /// forced to the phase's upper bound, handed out when it was not the
    /// last value emitted already.
    pub fn finish(&mut self) -> (emit: Option<u32>)
        requires
            old(self).wf(),
        ensures
            final(self).wf(),
            final(self).total == old(self).total,
            final(self).lo == old(self).lo,
            final(self).hi == old(self).hi,
            final(self).processed == final(self).total,
            final(self).last == final(self).hi,
            old(self).last <= final(self).last,
            match emit {
                Some(p) => p == old(self).hi && old(self).last != old(self).hi,
                None => old(self).last == old(self).hi,
            },
    {
        proof {
            lemma_phase_percent_in_range(self.lo as int, self.hi as int, self.processed as int, self.total as int);
            lemma_phase_completes(self.lo as int, self.hi as int, self.total as int);
        }
        self.processed = self.total;
        if self.last != self.hi {
            self.last = self.hi;
            Some(self.hi)
        } else {
            None
        }
    }
}

} // verus!
