use vstd::prelude::*;
use std::collections::VecDeque;

verus! {

/// How many byte-offset samples the rolling window keeps.
pub const SAMPLE_WINDOW: u64 = 20;

/// How often the reporter samples, in milliseconds.
pub const SAMPLE_PERIOD_MS: u64 = 250;

/// The progress state of one transfer: the known size, the high-water mark
/// of settled bytes, the start of the observation window (a millisecond
/// reading of the caller's clock), and a bounded FIFO of recent samples of
/// the high-water mark.
#[derive(Clone)]
pub struct StreamProgress {
    pub total: u64,
    pub current: u64,
    pub start: u64,
    pub upload_list: VecDeque<u64>,
}

/// One emitted progress record: bytes settled, bytes expected, whole
/// seconds elapsed, and the two throughput estimates in bytes per second.
#[derive(Clone, Copy, Debug, PartialEq, Eq, Structural)]
pub struct StreamProgressInfo {
    pub current: u64,
    pub total: u64,
    pub elapsed: u64,
    pub speed_curr: u64,
    pub speed_total: u64,
}

/// The sample window never grows past its cap.
pub open spec fn progress_wf(p: &StreamProgress) -> bool {
    p.upload_list@.len() <= SAMPLE_WINDOW
}

/// Once the total is known, the settled byte count does not exceed it.
pub open spec fn progress_bounded(p: &StreamProgress) -> bool {
    p.total > 0 ==> p.current <= p.total
}

/// When two progress snapshots count as equal, for suppressing redundant
/// reports: equal totals, currents and starts, and — when both windows
/// hold at least two samples — equal first and last samples, ignoring the
/// interior; otherwise equal window lengths.
pub open spec fn spec_progress_eq(a: &StreamProgress, b: &StreamProgress) -> bool {
    &&& a.total == b.total
    &&& a.current == b.current
    &&& a.start == b.start
    &&& if a.upload_list@.len() > 1 && b.upload_list@.len() > 1 {
        a.upload_list@.first() == b.upload_list@.first() && a.upload_list@.last()
            == b.upload_list@.last()
    } else {
        a.upload_list@.len() == b.upload_list@.len()
    }
}

/// The window after one sample is appended: the oldest entry falls out
/// once the cap would be passed.
pub open spec fn spec_push_sample(s: Seq<u64>, v: u64) -> Seq<u64> {
    if s.len() + 1 > SAMPLE_WINDOW {
        s.push(v).drop_first()
    } else {
        s.push(v)
    }
}

/// Milliseconds from `start` to `now`, zero when the clock ran backwards.
pub open spec fn spec_elapsed_ms(start: u64, now: u64) -> u64 {
    if now >= start {
        (now - start) as u64
    } else {
        0
    }
}

/// Time-averaged throughput in bytes per second: the settled bytes over
/// the elapsed time, truncated, clipped to the widest representable value,
/// and zero before the clock has advanced at all.
pub open spec fn spec_speed_total(current: u64, elapsed_ms: u64) -> u64 {
    if elapsed_ms == 0 {
        0
    } else if current * 1000 / (elapsed_ms as int) > u64::MAX {
        u64::MAX
    } else {
        (current * 1000 / (elapsed_ms as int)) as u64
    }
}

/// Short-window throughput in bytes per second: the growth across the
/// sample window over the time the window spans. Zero with fewer than two
/// samples, and zero when the window did not grow.
pub open spec fn spec_speed_curr(s: Seq<u64>) -> u64 {
    if s.len() < 2 || s.last() <= s.first() {
        0
    } else {
        let v = (s.last() - s.first()) * 1000 / ((s.len() - 1) * SAMPLE_PERIOD_MS);
        if v > u64::MAX {
            u64::MAX
        } else {
            v as u64
        }
    }
}

impl StreamProgress {
    /// A fresh observation window: nothing known, nothing settled, the
    /// clock started at `now_ms`.
    pub fn new(now_ms: u64) -> (p: StreamProgress)
        ensures
            p.total == 0,
            p.current == 0,
            p.start == now_ms,
            p.upload_list@ == Seq::<u64>::empty(),
    {
        StreamProgress { total: 0, current: 0, start: now_ms, upload_list: VecDeque::new() }
    }

    /// Append one sample of the high-water mark to the window, dropping
    /// the oldest sample once the cap would be passed.
    pub fn push_sample(&mut self, sample: u64)
        ensures
            final(self).total == old(self).total,
            final(self).current == old(self).current,
            final(self).start == old(self).start,
            final(self).upload_list@ == spec_push_sample(old(self).upload_list@, sample),
            progress_wf(old(self)) ==> progress_wf(final(self)),
    {
        self.upload_list.push_back(sample);
        if self.upload_list.len() > SAMPLE_WINDOW as usize {
            let _dropped = self.upload_list.pop_front();
        }
    }

    /// One period of the reporter: sample the high-water mark into the
    /// window, then emit a record unless nothing observable changed since
    /// `last` or no total is known yet.
    pub fn tick(&mut self, now_ms: u64, last: &StreamProgress) -> (r: Option<StreamProgressInfo>)
        ensures
            final(self).total == old(self).total,
            final(self).current == old(self).current,
            final(self).start == old(self).start,
            final(self).upload_list@ == spec_push_sample(old(self).upload_list@, old(self).current),
            progress_wf(old(self)) ==> progress_wf(final(self)),
            progress_bounded(old(self)) ==> progress_bounded(final(self)),
            r is Some <==> (!spec_progress_eq(final(self), last) && final(self).total > 0),
            r is Some ==> r.unwrap() == (StreamProgressInfo {
                current: final(self).current,
                total: final(self).total,
                elapsed: spec_elapsed_ms(final(self).start, now_ms) / 1000,
                speed_curr: spec_speed_curr(final(self).upload_list@),
                speed_total: spec_speed_total(
                    final(self).current,
                    spec_elapsed_ms(final(self).start, now_ms),
                ),
            }),
    {
        let sample = self.current;
        self.push_sample(sample);
        let unchanged = (&*self).eq(last);
        if !unchanged && self.total > 0 {
            let elapsed_ms = self.elapsed_ms(now_ms);
            Some(
                StreamProgressInfo {
                    current: self.current,
                    total: self.total,
                    elapsed: elapsed_ms / 1000,
                    speed_curr: self.speed_curr(),
                    speed_total: speed_total(self.current, elapsed_ms),
                },
            )
        } else {
            None
        }
    }

    fn elapsed_ms(&self, now_ms: u64) -> (r: u64)
        ensures
            r == spec_elapsed_ms(self.start, now_ms),
    {
        if now_ms >= self.start {
            now_ms - self.start
        } else {
            0
        }
    }

    fn speed_curr(&self) -> (r: u64)
        ensures
            r == spec_speed_curr(self.upload_list@),
    {
        let len = self.upload_list.len();
        if len < 2 {
            return 0;
        }
        let first: u64 = self.upload_list[0];
        let last: u64 = self.upload_list[len - 1];
        if last <= first {
            return 0;
        }
        let num: u128 = (last - first) as u128 * 1000;
        let den: u128 = (len - 1) as u128 * SAMPLE_PERIOD_MS as u128;
        let v: u128 = num / den;
        if v > u64::MAX as u128 {
            u64::MAX
        } else {
            v as u64
        }
    }
}

fn speed_total(current: u64, elapsed_ms: u64) -> (r: u64)
    ensures
        r == spec_speed_total(current, elapsed_ms),
{
    if elapsed_ms == 0 {
        return 0;
    }
    let v: u128 = current as u128 * 1000 / elapsed_ms as u128;
    if v > u64::MAX as u128 {
        u64::MAX
    } else {
        v as u64
    }
}

impl Default for StreamProgress {
    /// A fresh observation window with the clock not yet read: callers
    /// that have a clock start a transfer with `new` instead.
    fn default() -> (p: StreamProgress)
        ensures
            p.total == 0,
            p.current == 0,
            p.start == 0,
            p.upload_list@ == Seq::<u64>::empty(),
    {
        StreamProgress::new(0)
    }
}

impl PartialEq for StreamProgress {
    fn eq(&self, other: &StreamProgress) -> (r: bool) {
        let simple = self.total == other.total && self.current == other.current && self.start
            == other.start;
        if !simple {
            return false;
        }
        let a_len = self.upload_list.len();
        let b_len = other.upload_list.len();
        if a_len > 1 && b_len > 1 {
            let a_first: u64 = self.upload_list[0];
            let b_first: u64 = other.upload_list[0];
            let a_last: u64 = self.upload_list[a_len - 1];
            let b_last: u64 = other.upload_list[b_len - 1];
            return a_first == b_first && a_last == b_last;
        }
        a_len == b_len
    }
}

impl vstd::std_specs::cmp::PartialEqSpecImpl for StreamProgress {
    open spec fn obeys_eq_spec() -> bool {
        true
    }

    open spec fn eq_spec(&self, other: &StreamProgress) -> bool {
        spec_progress_eq(self, other)
    }
}

} // verus!
