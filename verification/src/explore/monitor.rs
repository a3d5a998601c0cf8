//! Watching a run through windows of time.
//!
//! A monitor counts what happens in each window. The first windows are the baseline.
//! Later ones are close to it or not, which is for the user of the monitor to say.

use crate::duration::truncated_nanos;
use crate::explore::histogram::{
    new_histogram, record_value, reset_histogram, value_at_percentile, value_count,
    LatencyHistogram,
};
use crate::time::SimTime;
use std::time::Duration;
use vstd::multiset::Multiset;
use vstd::prelude::*;

verus! {

/// What identifies a queue.
#[derive(Debug, Clone, Copy, PartialEq, Eq, Structural, Hash)]
pub struct QueueId(pub u64);

/// How long a queue was in a window.
#[derive(Debug, Clone, Copy, PartialEq, Eq, Structural)]
pub struct QueueTotal {
    /// The length at the end of the window.
    pub len: u64,
    /// The length, summed up over the nanoseconds of the window.
    pub integral_len_nanos: u128,
}

/// What has happened in one window.
#[derive(Debug)]
pub struct WindowSummary {
    pub window_start: SimTime,
    pub window_end: SimTime,
    pub queues: Vec<QueueTotal>,
    /// The greatest length of a queue.
    pub queue_max: u64,
    pub completed_in_time: u64,
    pub completed_late: u64,
    pub dropped: u64,
    pub timeouts: u64,
    pub retries: u64,
    /// How many latencies were summed up.
    pub latency_count: u64,
    pub latency_p95_ms: Option<u64>,
    pub latency_p99_ms: Option<u64>,
    /// Whether the window is close to the baseline, unless it is part of it.
    pub close_to_baseline: Option<bool>,
}

#[verifier::ext_equal]
pub struct WindowView {
    pub window_start: SimTime,
    pub window_end: SimTime,
    pub queues: Seq<QueueTotal>,
    pub queue_max: u64,
    pub completed_in_time: u64,
    pub completed_late: u64,
    pub dropped: u64,
    pub timeouts: u64,
    pub retries: u64,
    pub latency_count: u64,
    pub latency_p95_ms: Option<u64>,
    pub latency_p99_ms: Option<u64>,
    pub close_to_baseline: Option<bool>,
}

impl View for WindowSummary {
    type V = WindowView;

    open spec fn view(&self) -> WindowView {
        WindowView {
            window_start: self.window_start,
            window_end: self.window_end,
            queues: self.queues@,
            queue_max: self.queue_max,
            completed_in_time: self.completed_in_time,
            completed_late: self.completed_late,
            dropped: self.dropped,
            timeouts: self.timeouts,
            retries: self.retries,
            latency_count: self.latency_count,
            latency_p95_ms: self.latency_p95_ms,
            latency_p99_ms: self.latency_p99_ms,
            close_to_baseline: self.close_to_baseline,
        }
    }
}

/// The views of windows.
pub open spec fn window_views(s: Seq<WindowSummary>) -> Seq<WindowView> {
    s.map_values(|w: WindowSummary| w@)
}

#[derive(Debug, Clone, Copy)]
pub struct MonitorConfig {
    pub window: Duration,
    /// How many windows the baseline has.
    pub baseline_warmup_windows: usize,
    /// How many windows in a row have to be close to the baseline for a recovery.
    pub recovery_hold_windows: usize,
    /// How many windows in a row that are not close to the baseline make a run
    /// metastable.
    pub metastable_persist_windows: usize,
    /// How long a recovery may take at most.
    pub recovery_time_limit: Option<Duration>,
    /// Whether latencies are counted in a histogram.
    pub track_latency_quantiles: bool,
    /// The highest latency in the histogram, in milliseconds.
    pub latency_histogram_max_ms: u64,
}

impl MonitorConfig {
    /// The latency that is counted in the histogram: one that is out of its range
    /// counts as the nearest one within.
    pub open spec fn counted_latency(self, latency_ms: u64) -> u64 {
        if latency_ms < 1 {
            1
        } else if latency_ms > self.latency_histogram_max_ms {
            self.latency_histogram_max_ms
        } else {
            latency_ms
        }
    }
}

impl Default for MonitorConfig {
    fn default() -> (cfg: Self)
        ensures
            crate::duration::duration_nanos(cfg.window) == 1_000_000_000,
            cfg.baseline_warmup_windows == 20,
            cfg.recovery_hold_windows == 3,
            cfg.metastable_persist_windows == 10,
            cfg.recovery_time_limit is None,
            cfg.track_latency_quantiles,
            cfg.latency_histogram_max_ms == 60_000,
    {
        MonitorConfig {
            window: Duration::from_nanos(1_000_000_000),
            baseline_warmup_windows: 20,
            recovery_hold_windows: 3,
            metastable_persist_windows: 10,
            recovery_time_limit: None,
            track_latency_quantiles: true,
            latency_histogram_max_ms: 60_000,
        }
    }
}

/// How a run is doing.
#[derive(Debug, Clone, Copy)]
pub struct MonitorStatus {
    pub windows_seen: usize,
    pub recovered: bool,
    pub metastable: bool,
    pub recovery_time: Option<Duration>,
}

/// The length of a queue over the current window.
#[derive(Debug, Clone, Copy, PartialEq, Eq, Structural)]
pub struct QueueState {
    pub id: QueueId,
    pub len: u64,
    pub max: u64,
    pub last_time: SimTime,
    pub integral_len_nanos: u128,
}

impl QueueState {
    /// A queue at the start of a window.
    pub open spec fn fresh(id: QueueId, window_start: SimTime) -> Self {
        QueueState { id, len: 0, max: 0, last_time: window_start, integral_len_nanos: 0 }
    }

    /// What the length of the queue sums up to at a time.
    pub open spec fn integral_at(self, now: SimTime) -> int {
        self.integral_len_nanos + self.len * now.0.saturating_sub(self.last_time.0)
    }

    /// The queue after its length was seen at a time.
    pub open spec fn seen(self, now: SimTime, new_len: u64) -> Self {
        QueueState {
            id: self.id,
            len: new_len,
            max: if new_len > self.max {
                new_len
            } else {
                self.max
            },
            last_time: now,
            integral_len_nanos: self.integral_at(now) as u128,
        }
    }

    /// What the queue comes to at the end of a window.
    pub open spec fn total(self, end: SimTime) -> QueueTotal {
        QueueTotal { len: self.len, integral_len_nanos: self.integral_at(end) as u128 }
    }

    /// The queue at the start of the next window.
    pub open spec fn restarted(self, now: SimTime) -> Self {
        QueueState { max: self.len, last_time: now, integral_len_nanos: 0, ..self }
    }

    /// Sees the length of the queue at a time.
    pub fn observe_len(&mut self, now: SimTime, new_len: u64)
        requires
            old(self).integral_at(now) <= u128::MAX,
        ensures
            *final(self) == old(self).seen(now, new_len),
    {
        let dt: u64 = now.0.saturating_sub(self.last_time.0);
        proof {
            assert(self.len * dt <= u128::MAX) by (nonlinear_arith)
                requires
                    self.len <= u64::MAX,
                    dt <= u64::MAX,
            ;
        }
        self.integral_len_nanos = self.integral_len_nanos + self.len as u128 * dt as u128;
        self.last_time = now;
        self.len = new_len;
        if new_len > self.max {
            self.max = new_len;
        }
    }
}

/// Whether the sums over the lengths of queues are in range at a time.
pub open spec fn sums_fit(queues: Seq<QueueState>, now: SimTime) -> bool {
    forall|i: int| 0 <= i < queues.len() ==> (#[trigger] queues[i]).integral_at(now) <= u128::MAX
}

/// Queues after time has gone on.
pub open spec fn settled(queues: Seq<QueueState>, now: SimTime) -> Seq<QueueState> {
    queues.map_values(|q: QueueState| q.seen(now, q.len))
}

/// What queues come to at the end of a window.
pub open spec fn totals(queues: Seq<QueueState>, end: SimTime) -> Seq<QueueTotal> {
    queues.map_values(|q: QueueState| q.total(end))
}

/// Queues at the start of the next window.
pub open spec fn restarted(queues: Seq<QueueState>, now: SimTime) -> Seq<QueueState> {
    queues.map_values(|q: QueueState| q.restarted(now))
}

/// The greatest length of queues.
pub open spec fn greatest(queues: Seq<QueueState>) -> u64
    decreases queues.len(),
{
    if queues.len() == 0 {
        0
    } else {
        let front = greatest(queues.drop_last());
        if queues.last().max > front {
            queues.last().max
        } else {
            front
        }
    }
}

/// Where a queue is among others, if it is there.
pub open spec fn queue_place(queues: Seq<QueueState>, id: QueueId) -> int
    decreases queues.len(),
{
    if queues.len() == 0 || queues[0].id == id {
        0
    } else {
        1 + queue_place(queues.drop_first(), id)
    }
}

/// Queues after the length of one was seen. One that was not seen before has been
/// empty since the window started.
pub open spec fn with_queue_len(
    queues: Seq<QueueState>,
    window_start: SimTime,
    id: QueueId,
    now: SimTime,
    len: u64,
) -> Seq<QueueState> {
    let k = queue_place(queues, id);
    if k < queues.len() {
        queues.update(k, queues[k].seen(now, len))
    } else {
        queues.push(QueueState::fresh(id, window_start).seen(now, len))
    }
}

/// How many windows at the end of a timeline were judged in one way.
pub open spec fn trailing(windows: Seq<WindowView>, close: bool) -> nat
    decreases windows.len(),
{
    if windows.len() == 0 || windows.last().close_to_baseline != Some(close) {
        0
    } else {
        trailing(windows.drop_last(), close) + 1
    }
}

/// Whether each window starts where the one before has ended.
pub open spec fn contiguous(windows: Seq<WindowView>) -> bool {
    forall|i: int|
        0 <= i < windows.len() - 1 ==> (#[trigger] windows[i]).window_end == windows[i
            + 1].window_start
}

proof fn lemma_queue_place(queues: Seq<QueueState>, id: QueueId, k: int)
    requires
        0 <= k <= queues.len(),
        forall|i: int| 0 <= i < k ==> (#[trigger] queues[i]).id != id,
        k < queues.len() ==> queues[k].id == id,
    ensures
        queue_place(queues, id) == k,
    decreases queues.len(),
{
    if k > 0 {
        assert(queues[0].id != id);
        let rest = queues.drop_first();
        assert forall|i: int| 0 <= i < k - 1 implies (#[trigger] rest[i]).id != id by {
            assert(rest[i] == queues[i + 1]);
        }
        lemma_queue_place(rest, id, k - 1);
    }
}

proof fn lemma_trailing_is_bounded(windows: Seq<WindowView>, close: bool)
    ensures
        trailing(windows, close) <= windows.len(),
    decreases windows.len(),
{
    if windows.len() > 0 {
        lemma_trailing_is_bounded(windows.drop_last(), close);
    }
}

proof fn lemma_no_time_adds_nothing(q: QueueState, now: SimTime)
    requires
        q.last_time == now,
    ensures
        q.integral_at(now) == q.integral_len_nanos,
{
    let dt = now.0.saturating_sub(q.last_time.0);
    assert(q.len * dt == 0) by (nonlinear_arith)
        requires
            dt == 0,
    ;
}

fn find_queue(queues: &Vec<QueueState>, id: QueueId) -> (i: usize)
    ensures
        i == queue_place(queues@, id),
        i <= queues@.len(),
{
    let mut i: usize = 0;
    while i < queues.len() && queues[i].id != id
        invariant
            i <= queues@.len(),
            forall|k: int| 0 <= k < i ==> (#[trigger] queues@[k]).id != id,
        decreases queues@.len() - i,
    {
        i = i + 1;
    }
    proof {
        lemma_queue_place(queues@, id, i as int);
    }
    i
}

/// Watches a run.
pub struct Monitor {
    pub cfg: MonitorConfig,
    pub window_start: SimTime,
    pub window_end: SimTime,
    pub queues: Vec<QueueState>,
    pub completed_in_time: u64,
    pub completed_late: u64,
    pub dropped: u64,
    pub timeouts: u64,
    pub retries: u64,
    pub latency_count: u64,
    pub latency_hist: Option<LatencyHistogram>,
    pub baseline_windows_seen: usize,
    pub recovered_hold: usize,
    pub post_spike_start: Option<SimTime>,
    pub metastable_persist: usize,
    pub timeline: Vec<WindowSummary>,
}

/// What is counted per window.
#[verifier::ext_equal]
pub struct CountsView {
    pub completed_in_time: u64,
    pub completed_late: u64,
    pub dropped: u64,
    pub timeouts: u64,
    pub retries: u64,
    pub latency_count: u64,
    pub latencies: Option<Multiset<u64>>,
}

impl Monitor {
    pub open spec fn windows(self) -> Seq<WindowView> {
        window_views(self.timeline@)
    }

    /// What has been counted in the current window.
    pub open spec fn counts(self) -> CountsView {
        CountsView {
            completed_in_time: self.completed_in_time,
            completed_late: self.completed_late,
            dropped: self.dropped,
            timeouts: self.timeouts,
            retries: self.retries,
            latency_count: self.latency_count,
            latencies: match self.latency_hist {
                Some(h) => Some(crate::explore::histogram::histogram_values(h)),
                None => None,
            },
        }
    }

    /// The counts at the start of a window.
    pub open spec fn no_counts(self) -> CountsView {
        CountsView {
            completed_in_time: 0,
            completed_late: 0,
            dropped: 0,
            timeouts: 0,
            retries: 0,
            latency_count: 0,
            latencies: match self.latency_hist {
                Some(_) => Some(Multiset::empty()),
                None => None,
            },
        }
    }

    pub open spec fn wf(self) -> bool {
        let windows = self.windows();
        &&& self.latency_hist is Some <==> self.cfg.track_latency_quantiles
        &&& self.cfg.track_latency_quantiles ==> self.cfg.latency_histogram_max_ms >= 2
        &&& self.latency_hist matches Some(h) ==> {
            &&& crate::explore::histogram::histogram_shape(h) == (
                1u64,
                self.cfg.latency_histogram_max_ms,
                3u8,
            )
            &&& crate::explore::histogram::histogram_values(h).len() <= self.latency_count
        }
        &&& self.latency_count == self.completed_in_time
        &&& self.recovered_hold == trailing(windows, true)
        &&& self.metastable_persist == trailing(windows, false)
        &&& self.baseline_windows_seen == if windows.len() < self.cfg.baseline_warmup_windows {
            windows.len()
        } else {
            self.cfg.baseline_warmup_windows as nat
        }
        &&& forall|i: int|
            0 <= i < windows.len() ==> ((#[trigger] windows[i]).close_to_baseline is None <==> i
                < self.cfg.baseline_warmup_windows)
        &&& contiguous(windows)
        &&& windows.len() > 0 ==> windows.last().window_end == self.window_start
        &&& self.window_end.0 == self.window_start.0.saturating_add(
            crate::duration::low_nanos(crate::duration::duration_nanos(self.cfg.window)),
        )
    }

    /// What stays as it is while a window lasts.
    pub open spec fn same_windows(self, other: Self) -> bool {
        &&& self.cfg == other.cfg
        &&& self.window_start == other.window_start
        &&& self.window_end == other.window_end
        &&& self.baseline_windows_seen == other.baseline_windows_seen
        &&& self.recovered_hold == other.recovered_hold
        &&& self.post_spike_start == other.post_spike_start
        &&& self.metastable_persist == other.metastable_persist
        &&& self.timeline == other.timeline
    }

    /// A percentile of the latencies of the current window, if there are any.
    pub open spec fn percentile(self, percent: u8) -> Option<u64> {
        match self.latency_hist {
            None => None,
            Some(h) => {
                let values = crate::explore::histogram::histogram_values(h);
                if values.len() == 0 {
                    None
                } else {
                    Some(crate::explore::histogram::histogram_percentile(values, 1, 3, percent))
                }
            },
        }
    }

    /// The current window, as it stands at its end.
    pub open spec fn closed_window(self, close: bool) -> WindowView {
        WindowView {
            window_start: self.window_start,
            window_end: self.window_end,
            queues: totals(self.queues@, self.window_end),
            queue_max: greatest(self.queues@),
            completed_in_time: self.completed_in_time,
            completed_late: self.completed_late,
            dropped: self.dropped,
            timeouts: self.timeouts,
            retries: self.retries,
            latency_count: self.latency_count,
            latency_p95_ms: self.percentile(95),
            latency_p99_ms: self.percentile(99),
            close_to_baseline: if self.baseline_windows_seen < self.cfg.baseline_warmup_windows {
                None
            } else {
                Some(close)
            },
        }
    }

    /// The current window, as it stands at its end and before it is judged.
    pub open spec fn unjudged_window(self) -> WindowView {
        WindowView { close_to_baseline: None, ..self.closed_window(false) }
    }

    /// The counts after one more completed request.
    pub open spec fn with_completion(self, latency_ms: u64, in_time: bool) -> CountsView {
        if in_time {
            CountsView {
                completed_in_time: (self.completed_in_time + 1) as u64,
                latency_count: (self.latency_count + 1) as u64,
                latencies: match self.counts().latencies {
                    Some(values) => Some(
                        values.insert(
                            crate::explore::histogram::histogram_bucket(
                                1,
                                3,
                                self.cfg.counted_latency(latency_ms),
                            ),
                        ),
                    ),
                    None => None,
                },
                ..self.counts()
            }
        } else {
            CountsView {
                completed_late: (self.completed_late + 1) as u64,
                ..self.counts()
            }
        }
    }

    /// Whether the current window is part of the baseline.
    pub open spec fn in_baseline(self) -> bool {
        self.baseline_windows_seen < self.cfg.baseline_warmup_windows
    }

    /// Whether the windows that are over at a time can be ended: time is not at its very
    /// end and windows are not empty, so that there is an end to them, and no sum over
    /// the length of a queue gets out of range.
    pub open spec fn reaches(self, now: SimTime) -> bool {
        if now.0 < self.window_end.0 {
            sums_fit(self.queues@, now)
        } else {
            &&& now.0 < u64::MAX
            &&& crate::duration::low_nanos(crate::duration::duration_nanos(self.cfg.window)) > 0
            &&& sums_fit(self.queues@, self.window_end)
        }
    }

    /// Whether the run is close to the baseline again.
    pub open spec fn is_recovered(self) -> bool {
        self.recovered_hold >= self.cfg.recovery_hold_windows
    }

    /// How long after the spike the last window has ended.
    pub open spec fn since_spike(self) -> Option<u64> {
        match self.post_spike_start {
            Some(post) if self.windows().len() > 0 => Some(
                self.windows().last().window_end.0.saturating_sub(post.0),
            ),
            _ => None,
        }
    }

    /// Whether the run is away from the baseline for good: for as many windows as it
    /// takes, or because its recovery takes too long.
    pub open spec fn metastable(self) -> bool {
        ||| self.metastable_persist >= self.cfg.metastable_persist_windows
        ||| {
            &&& self.cfg.recovery_time_limit is Some
            &&& self.since_spike() is Some
            &&& self.since_spike()->0 >= crate::duration::duration_nanos(
                self.cfg.recovery_time_limit->0,
            )
            &&& !self.is_recovered()
        }
    }

    /// Starts to watch a run at a time.
    pub fn new(cfg: MonitorConfig, start: SimTime) -> (monitor: Self)
        requires
            cfg.track_latency_quantiles ==> cfg.latency_histogram_max_ms >= 2,
        ensures
            monitor.wf(),
            monitor.cfg == cfg,
            monitor.window_start == start,
            monitor.queues@.len() == 0,
            monitor.counts() == monitor.no_counts(),
            monitor.post_spike_start is None,
            monitor.windows().len() == 0,
    {
        let window_end = start.add_duration(cfg.window);
        let latency_hist = if cfg.track_latency_quantiles {
            new_histogram(1, cfg.latency_histogram_max_ms, 3)
        } else {
            None
        };
        let monitor = Monitor {
            cfg,
            window_start: start,
            window_end,
            queues: Vec::new(),
            completed_in_time: 0,
            completed_late: 0,
            dropped: 0,
            timeouts: 0,
            retries: 0,
            latency_count: 0,
            latency_hist,
            baseline_windows_seen: 0,
            recovered_hold: 0,
            post_spike_start: None,
            metastable_persist: 0,
            timeline: Vec::new(),
        };
        proof {
            assert(monitor.windows() =~= Seq::empty());
        }
        monitor
    }

    /// Notes when the spike has ended. A recovery is timed from there.
    pub fn mark_post_spike_start(&mut self, t: SimTime)
        requires
            old(self).wf(),
        ensures
            final(self).wf(),
            final(self).post_spike_start == Some(t),
            final(self).cfg == old(self).cfg,
            final(self).window_start == old(self).window_start,
            final(self).queues == old(self).queues,
            final(self).counts() == old(self).counts(),
            final(self).timeline == old(self).timeline,
    {
        self.post_spike_start = Some(t);
    }

    /// The windows that are over.
    pub fn timeline(&self) -> (timeline: &Vec<WindowSummary>)
        ensures
            *timeline == self.timeline,
    {
        &self.timeline
    }

    /// How the run is doing.
    pub fn status(&self) -> (status: MonitorStatus)
        requires
            self.wf(),
        ensures
            status.windows_seen == self.windows().len(),
            status.recovered == self.is_recovered(),
            status.metastable == self.metastable(),
            status.recovery_time is Some <==> self.is_recovered() && self.since_spike() is Some,
            status.recovery_time matches Some(d) ==> crate::duration::duration_nanos(d)
                == self.since_spike()->0,
    {
        let recovered = self.recovered_hold >= self.cfg.recovery_hold_windows;
        let count: usize = self.timeline.len();
        let since: Option<Duration> = match self.post_spike_start {
            Some(post) => if count > 0 {
                proof {
                    assert(self.windows().last() == self.timeline@.last()@);
                }
                Some(self.timeline[count - 1].window_end.duration_since(post))
            } else {
                None
            },
            None => None,
        };
        let late = match (self.cfg.recovery_time_limit, since) {
            (Some(limit), Some(dt)) => dt.as_nanos() >= limit.as_nanos() && !recovered,
            _ => false,
        };
        MonitorStatus {
            windows_seen: count,
            recovered,
            metastable: self.metastable_persist >= self.cfg.metastable_persist_windows || late,
            recovery_time: if recovered {
                since
            } else {
                None
            },
        }
    }

    /// Whether the current window is over at a time.
    pub fn window_is_due(&self, now: SimTime) -> (due: bool)
        ensures
            due == (now.0 >= self.window_end.0),
    {
        now.0 >= self.window_end.0
    }

    /// Whether the sums over the lengths of queues are in range at a time.
    pub fn can_settle(&self, now: SimTime) -> (can: bool)
        ensures
            can == sums_fit(self.queues@, now),
    {
        let mut i: usize = 0;
        while i < self.queues.len()
            invariant
                i <= self.queues@.len(),
                forall|k: int|
                    0 <= k < i ==> (#[trigger] self.queues@[k]).integral_at(now) <= u128::MAX,
            decreases self.queues@.len() - i,
        {
            let q = &self.queues[i];
            let dt: u64 = now.0.saturating_sub(q.last_time.0);
            proof {
                assert(q.len * dt <= u128::MAX) by (nonlinear_arith)
                    requires
                        q.len <= u64::MAX,
                        dt <= u64::MAX,
                ;
                assert(self.queues@[i as int].integral_at(now) == q.integral_len_nanos + q.len * dt);
            }
            let area: u128 = q.len as u128 * dt as u128;
            if area > u128::MAX - q.integral_len_nanos {
                return false;
            }
            i = i + 1;
        }
        true
    }

    /// Takes the time into account that queues kept their lengths.
    pub fn settle(&mut self, now: SimTime)
        requires
            old(self).wf(),
            sums_fit(old(self).queues@, now),
        ensures
            final(self).wf(),
            final(self).same_windows(*old(self)),
            final(self).counts() == old(self).counts(),
            final(self).latency_hist == old(self).latency_hist,
            final(self).queues@ == settled(old(self).queues@, now),
    {
        let ghost before = self.queues@;
        let mut i: usize = 0;
        while i < self.queues.len()
            invariant
                before == old(self).queues@,
                sums_fit(before, now),
                i <= self.queues@.len(),
                self.queues@.len() == before.len(),
                self.same_windows(*old(self)),
                self.counts() == old(self).counts(),
                self.latency_hist == old(self).latency_hist,
                self.wf(),
                forall|k: int| 0 <= k < i ==> self.queues@[k] == before[k].seen(now, before[k].len),
                forall|k: int| i <= k < before.len() ==> self.queues@[k] == before[k],
            decreases self.queues@.len() - i,
        {
            let mut q: QueueState = self.queues[i];
            let len: u64 = q.len;
            proof {
                assert(before[i as int].integral_at(now) <= u128::MAX);
            }
            q.observe_len(now, len);
            self.queues.set(i, q);
            i = i + 1;
        }
        proof {
            assert(self.queues@ =~= settled(before, now));
        }
    }

    fn percentiles(&self) -> (values: (Option<u64>, Option<u64>))
        requires
            self.wf(),
        ensures
            values.0 == self.percentile(95),
            values.1 == self.percentile(99),
    {
        match &self.latency_hist {
            Some(hist) => {
                if value_count(hist) == 0 {
                    (None, None)
                } else {
                    (Some(value_at_percentile(hist, 95)), Some(value_at_percentile(hist, 99)))
                }
            },
            None => (None, None),
        }
    }

    /// The current window, as it stands at its end. Whether it is close to the baseline
    /// is not known yet.
    pub fn window_summary(&self) -> (summary: WindowSummary)
        requires
            self.wf(),
            sums_fit(self.queues@, self.window_end),
        ensures
            summary@ == self.unjudged_window(),
    {
        let mut queues: Vec<QueueTotal> = Vec::new();
        let mut queue_max: u64 = 0;
        let mut i: usize = 0;
        proof {
            assert(self.queues@.take(0) =~= Seq::empty());
        }
        while i < self.queues.len()
            invariant
                sums_fit(self.queues@, self.window_end),
                i <= self.queues@.len(),
                queues@.len() == i,
                forall|k: int| 0 <= k < i ==> queues@[k] == self.queues@[k].total(self.window_end),
                queue_max == greatest(self.queues@.take(i as int)),
            decreases self.queues@.len() - i,
        {
            let mut q: QueueState = self.queues[i];
            proof {
                assert(self.queues@.take(i + 1).drop_last() =~= self.queues@.take(i as int));
                assert(self.queues@.take(i + 1).last() == q);
            }
            if q.max > queue_max {
                queue_max = q.max;
            }
            let len: u64 = q.len;
            q.observe_len(self.window_end, len);
            queues.push(QueueTotal { len, integral_len_nanos: q.integral_len_nanos });
            i = i + 1;
        }
        proof {
            assert(self.queues@.take(i as int) =~= self.queues@);
            assert(queues@ =~= totals(self.queues@, self.window_end));
        }
        let (latency_p95_ms, latency_p99_ms) = self.percentiles();
        WindowSummary {
            window_start: self.window_start,
            window_end: self.window_end,
            queues,
            queue_max,
            completed_in_time: self.completed_in_time,
            completed_late: self.completed_late,
            dropped: self.dropped,
            timeouts: self.timeouts,
            retries: self.retries,
            latency_count: self.latency_count,
            latency_p95_ms,
            latency_p99_ms,
            close_to_baseline: None,
        }
    }

    /// Whether the current window is part of the baseline.
    pub fn is_warming_up(&self) -> (warming: bool)
        requires
            self.wf(),
        ensures
            warming == (self.windows().len() < self.cfg.baseline_warmup_windows),
            warming == self.in_baseline(),
    {
        self.baseline_windows_seen < self.cfg.baseline_warmup_windows
    }

    /// Ends the current window and starts the next one. Unless the window is part of the
    /// baseline, `close` says whether it is close to it.
    pub fn flush_window(&mut self, close: bool)
        requires
            old(self).wf(),
            sums_fit(old(self).queues@, old(self).window_end),
        ensures
            final(self).wf(),
            flushed(*old(self), *final(self), close),
    {
        let ghost before = self.windows();
        let ghost queues_before = self.queues@;
        let mut summary = self.window_summary();
        let warming = self.is_warming_up();
        if !warming {
            summary.close_to_baseline = Some(close);
        }
        let ghost closed = old(self).closed_window(close);
        proof {
            assert(summary@ =~= closed);
        }
        let count: usize = self.timeline.len();
        proof {
            lemma_trailing_is_bounded(before, true);
            lemma_trailing_is_bounded(before, false);
        }
        self.timeline.push(summary);
        let ghost after = self.windows();
        let total: usize = self.timeline.len();
        proof {
            assert(after =~= before.push(closed));
            assert(after.drop_last() =~= before);
            assert(total == count + 1);
        }
        if warming {
            self.baseline_windows_seen = self.baseline_windows_seen + 1;
        } else if close {
            self.recovered_hold = self.recovered_hold + 1;
            self.metastable_persist = 0;
        } else {
            self.recovered_hold = 0;
            self.metastable_persist = self.metastable_persist + 1;
        }
        let end = self.window_end;
        self.window_start = end;
        self.window_end = end.add_duration(self.cfg.window);
        self.completed_in_time = 0;
        self.completed_late = 0;
        self.dropped = 0;
        self.timeouts = 0;
        self.retries = 0;
        self.latency_count = 0;
        match self.latency_hist.take() {
            Some(mut hist) => {
                reset_histogram(&mut hist);
                self.latency_hist = Some(hist);
            },
            None => {},
        }
        proof {
            if warming {
                lemma_baseline_is_not_judged(before, self.cfg.baseline_warmup_windows as int, true);
                lemma_baseline_is_not_judged(before, self.cfg.baseline_warmup_windows as int, false);
            }
            assert(self.windows() == after);
            assert forall|i: int| 0 <= i < after.len() implies ((
            #[trigger] after[i]).close_to_baseline is None <==> i
                < self.cfg.baseline_warmup_windows) by {
                if i < before.len() {
                    assert(after[i] == before[i]);
                }
            }
            assert forall|i: int| 0 <= i < after.len() - 1 implies (
            #[trigger] after[i]).window_end == after[i + 1].window_start by {
                assert(after[i] == before[i]);
                if i + 1 < before.len() {
                    assert(after[i + 1] == before[i + 1]);
                }
            }
            assert(self.wf());
        }
        self.restart_queues(end);
    }

    /// Starts the next window of all queues.
    fn restart_queues(&mut self, now: SimTime)
        requires
            old(self).wf(),
        ensures
            final(self).wf(),
            final(self).same_windows(*old(self)),
            final(self).counts() == old(self).counts(),
            final(self).latency_hist == old(self).latency_hist,
            final(self).queues@ == restarted(old(self).queues@, now),
    {
        let ghost before = self.queues@;
        let mut i: usize = 0;
        while i < self.queues.len()
            invariant
                before == old(self).queues@,
                i <= self.queues@.len(),
                self.queues@.len() == before.len(),
                self.same_windows(*old(self)),
                self.counts() == old(self).counts(),
                self.latency_hist == old(self).latency_hist,
                self.wf(),
                forall|k: int| 0 <= k < i ==> self.queues@[k] == before[k].restarted(now),
                forall|k: int| i <= k < before.len() ==> self.queues@[k] == before[k],
            decreases self.queues@.len() - i,
        {
            let q: QueueState = self.queues[i];
            let next = QueueState { max: q.len, last_time: now, integral_len_nanos: 0, ..q };
            self.queues.set(i, next);
            i = i + 1;
        }
        proof {
            assert(self.queues@ =~= restarted(before, now));
        }
    }
}

/// Whether a monitor follows from another by ending its window, which was close to the
/// baseline or not.
pub open spec fn flushed(before: Monitor, after: Monitor, close: bool) -> bool {
    &&& after.cfg == before.cfg
    &&& after.post_spike_start == before.post_spike_start
    &&& after.window_start == before.window_end
    &&& after.windows() == before.windows().push(before.closed_window(close))
    &&& after.queues@ == restarted(before.queues@, before.window_end)
    &&& after.counts() == after.no_counts()
    &&& after.latency_hist is Some <==> before.latency_hist is Some
    &&& after.wf()
}

/// Says of windows that are over whether they are close to a baseline.
pub trait BaselineJudge: Sized {
    /// Whether the judge may give an answer on a window and become `after`.
    open spec fn judges(
        before: Self,
        window: WindowView,
        warming_up: bool,
        after: Self,
        answer: bool,
    ) -> bool {
        true
    }

    /// Says whether a window is close to the baseline. One that is part of the baseline
    /// is taken in, and the answer does not count.
    fn judge(&mut self, window: &WindowSummary, warming_up: bool) -> (answer: bool)
        ensures
            Self::judges(*old(self), window@, warming_up, *final(self), answer),
    ;
}

/// Whether the window number `i` of a sequence is over at a time, is judged, and is ended
/// with the answer.
pub open spec fn window_ended<J: BaselineJudge>(
    states: Seq<Monitor>,
    judges: Seq<J>,
    answers: Seq<bool>,
    now: SimTime,
    i: int,
) -> bool {
    &&& now.0 >= states[i].window_end.0
    &&& J::judges(
        judges[i],
        states[i].unjudged_window(),
        states[i].in_baseline(),
        judges[i + 1],
        answers[i],
    )
    &&& flushed(states[i], states[i + 1], answers[i])
}

/// Whether windows that are over at a time are ended one after the other, each with the
/// answer of the judge.
pub open spec fn windows_ended<J: BaselineJudge>(
    states: Seq<Monitor>,
    judges: Seq<J>,
    answers: Seq<bool>,
    now: SimTime,
) -> bool {
    &&& states.len() == answers.len() + 1
    &&& judges.len() == answers.len() + 1
    &&& forall|i: int|
        0 <= i < answers.len() ==> #[trigger] window_ended(states, judges, answers, now, i)
}

/// Whether a monitor is another one after all windows that are over at a time were ended,
/// and the judge has become another one by that.
pub open spec fn caught_up<J: BaselineJudge>(
    before: Monitor,
    judge_before: J,
    now: SimTime,
    after: Monitor,
    judge_after: J,
) -> bool {
    if now.0 < before.window_end.0 {
        after == before && judge_after == judge_before
    } else {
        exists|states: Seq<Monitor>, judges: Seq<J>, answers: Seq<bool>|
            {
                &&& #[trigger] windows_ended(states, judges, answers, now)
                &&& now.0 < states.last().window_end.0
                &&& states[0] == before
                &&& judges[0] == judge_before
                &&& states.last() == after
                &&& judges.last() == judge_after
            }
    }
}

/// Once windows were ended, the current one is not over yet, and what is counted in it
/// starts anew.
pub proof fn counts_start_anew_after_a_window<J: BaselineJudge>(
    before: Monitor,
    judge_before: J,
    now: SimTime,
    after: Monitor,
    judge_after: J,
)
    requires
        caught_up(before, judge_before, now, after, judge_after),
    ensures
        now.0 < after.window_end.0,
        now.0 >= before.window_end.0 ==> after.counts() == after.no_counts(),
{
    if now.0 >= before.window_end.0 {
        let (states, judges, answers) = choose|
            states: Seq<Monitor>,
            judges: Seq<J>,
            answers: Seq<bool>,
        |
            {
                &&& #[trigger] windows_ended(states, judges, answers, now)
                &&& now.0 < states.last().window_end.0
                &&& states[0] == before
                &&& judges[0] == judge_before
                &&& states.last() == after
                &&& judges.last() == judge_after
            };
        assert(window_ended(states, judges, answers, now, answers.len() - 1));
    }
}

impl Monitor {
    /// Whether the windows that are over at a time can be ended.
    pub fn can_reach(&self, now: SimTime) -> (can: bool)
        ensures
            can == self.reaches(now),
    {
        if now.0 < self.window_end.0 {
            self.can_settle(now)
        } else {
            now.0 < u64::MAX && truncated_nanos(self.cfg.window) > 0 && self.can_settle(
                self.window_end,
            )
        }
    }

    /// Ends all windows that are over at a time, as the judge says, and takes the time
    /// into account that queues kept their lengths.
    pub fn flush_up_to<J: BaselineJudge>(&mut self, now: SimTime, judge: &mut J)
        requires
            old(self).wf(),
            old(self).reaches(now),
        ensures
            final(self).wf(),
            exists|reached: Monitor|
                {
                    &&& #[trigger] caught_up(*old(self), *old(judge), now, reached, *final(judge))
                    &&& final(self).same_windows(reached)
                    &&& final(self).counts() == reached.counts()
                    &&& final(self).queues@ == settled(reached.queues@, now)
                },
    {
        let ghost mut states: Seq<Monitor> = seq![*self];
        let ghost mut judges: Seq<J> = seq![*judge];
        let ghost mut answers: Seq<bool> = Seq::empty();
        while now.0 >= self.window_end.0
            invariant
                self.wf(),
                self.reaches(now),
                windows_ended(states, judges, answers, now),
                states[0] == *old(self),
                judges[0] == *old(judge),
                states.last() == *self,
                judges.last() == *judge,
                now.0 < old(self).window_end.0 ==> answers.len() == 0,
            decreases u64::MAX - self.window_end.0,
        {
            let ghost before = *self;
            let ghost judge_before = *judge;
            let summary = self.window_summary();
            let warming_up = self.is_warming_up();
            let close = judge.judge(&summary, warming_up);
            self.flush_window(close);
            proof {
                lemma_one_more_window(states, judges, answers, now, *self, *judge, close);
                states = states.push(*self);
                judges = judges.push(*judge);
                answers = answers.push(close);
                assert forall|t: SimTime| t.0 >= before.window_end.0 implies #[trigger] sums_fit(
                    self.queues@,
                    t,
                ) by {
                    assert forall|i: int| 0 <= i < self.queues@.len() implies (
                    #[trigger] self.queues@[i]).integral_at(t) <= u128::MAX by {
                        let q = before.queues@[i].restarted(before.window_end);
                        assert(self.queues@[i] == q);
                        assert(in_proportion(q, before.window_end));
                        sums_fit_while_time_goes_on(q, q.id, before.window_end, t, 0);
                    }
                }
            }
        }
        let ghost reached = *self;
        proof {
            assert(windows_ended(states, judges, answers, now));
            assert(caught_up(*old(self), *old(judge), now, reached, *judge));
        }
        self.settle(now);
    }

    /// Sees the length of a queue, once the windows that are over were ended.
    pub fn observe_queue_len<J: BaselineJudge>(
        &mut self,
        now: SimTime,
        queue: QueueId,
        len: u64,
        judge: &mut J,
    )
        requires
            old(self).wf(),
            old(self).reaches(now),
        ensures
            final(self).wf(),
            exists|reached: Monitor|
                {
                    &&& #[trigger] caught_up(*old(self), *old(judge), now, reached, *final(judge))
                    &&& final(self).same_windows(reached)
                    &&& final(self).counts() == reached.counts()
                    &&& final(self).queues@ == with_queue_len(
                        settled(reached.queues@, now),
                        reached.window_start,
                        queue,
                        now,
                        len,
                    )
                },
    {
        self.flush_up_to(now, judge);
        let ghost reached = choose|reached: Monitor|
            {
                &&& #[trigger] caught_up(*old(self), *old(judge), now, reached, *judge)
                &&& self.same_windows(reached)
                &&& self.counts() == reached.counts()
                &&& self.queues@ == settled(reached.queues@, now)
            };
        let i: usize = find_queue(&self.queues, queue);
        if i < self.queues.len() {
            let mut q: QueueState = self.queues[i];
            proof {
                assert(q == settled(reached.queues@, now)[i as int]);
                assert(q.last_time == now);
                lemma_no_time_adds_nothing(q, now);
            }
            q.observe_len(now, len);
            self.queues.set(i, q);
        } else {
            let mut q = QueueState {
                id: queue,
                len: 0,
                max: 0,
                last_time: self.window_start,
                integral_len_nanos: 0,
            };
            proof {
                assert(q.integral_at(now) == 0) by (nonlinear_arith)
                    requires
                        q.integral_at(now) == 0 + 0 * now.0.saturating_sub(q.last_time.0),
                ;
            }
            q.observe_len(now, len);
            self.queues.push(q);
        }
        proof {
            assert(caught_up(*old(self), *old(judge), now, reached, *judge));
        }
    }

    /// Counts a request that was dropped, once the windows that are over were ended.
    pub fn observe_drop<J: BaselineJudge>(&mut self, now: SimTime, judge: &mut J)
        requires
            old(self).wf(),
            old(self).reaches(now),
            now.0 < old(self).window_end.0 ==> old(self).dropped < u64::MAX,
        ensures
            final(self).wf(),
            exists|reached: Monitor|
                {
                    &&& #[trigger] caught_up(*old(self), *old(judge), now, reached, *final(judge))
                    &&& final(self).same_windows(reached)
                    &&& final(self).queues@ == settled(reached.queues@, now)
                    &&& final(self).counts() == (CountsView {
                        dropped: (reached.dropped + 1) as u64,
                        ..reached.counts()
                    })
                },
    {
        self.flush_up_to(now, judge);
        let ghost reached = choose|reached: Monitor|
            {
                &&& #[trigger] caught_up(*old(self), *old(judge), now, reached, *judge)
                &&& self.same_windows(reached)
                &&& self.counts() == reached.counts()
                &&& self.queues@ == settled(reached.queues@, now)
            };
        proof {
            counts_start_anew_after_a_window(*old(self), *old(judge), now, reached, *judge);
            assert(self.dropped == self.counts().dropped);
            assert(reached.dropped == reached.counts().dropped);
        }
        self.dropped = self.dropped + 1;
        proof {
            assert(caught_up(*old(self), *old(judge), now, reached, *judge));
        }
    }

    /// Counts a timeout, once the windows that are over were ended.
    pub fn observe_timeout<J: BaselineJudge>(&mut self, now: SimTime, judge: &mut J)
        requires
            old(self).wf(),
            old(self).reaches(now),
            now.0 < old(self).window_end.0 ==> old(self).timeouts < u64::MAX,
        ensures
            final(self).wf(),
            exists|reached: Monitor|
                {
                    &&& #[trigger] caught_up(*old(self), *old(judge), now, reached, *final(judge))
                    &&& final(self).same_windows(reached)
                    &&& final(self).queues@ == settled(reached.queues@, now)
                    &&& final(self).counts() == (CountsView {
                        timeouts: (reached.timeouts + 1) as u64,
                        ..reached.counts()
                    })
                },
    {
        self.flush_up_to(now, judge);
        let ghost reached = choose|reached: Monitor|
            {
                &&& #[trigger] caught_up(*old(self), *old(judge), now, reached, *judge)
                &&& self.same_windows(reached)
                &&& self.counts() == reached.counts()
                &&& self.queues@ == settled(reached.queues@, now)
            };
        proof {
            counts_start_anew_after_a_window(*old(self), *old(judge), now, reached, *judge);
            assert(self.timeouts == self.counts().timeouts);
            assert(reached.timeouts == reached.counts().timeouts);
        }
        self.timeouts = self.timeouts + 1;
        proof {
            assert(caught_up(*old(self), *old(judge), now, reached, *judge));
        }
    }

    /// Counts a retry, once the windows that are over were ended.
    pub fn observe_retry<J: BaselineJudge>(&mut self, now: SimTime, judge: &mut J)
        requires
            old(self).wf(),
            old(self).reaches(now),
            now.0 < old(self).window_end.0 ==> old(self).retries < u64::MAX,
        ensures
            final(self).wf(),
            exists|reached: Monitor|
                {
                    &&& #[trigger] caught_up(*old(self), *old(judge), now, reached, *final(judge))
                    &&& final(self).same_windows(reached)
                    &&& final(self).queues@ == settled(reached.queues@, now)
                    &&& final(self).counts() == (CountsView {
                        retries: (reached.retries + 1) as u64,
                        ..reached.counts()
                    })
                },
    {
        self.flush_up_to(now, judge);
        let ghost reached = choose|reached: Monitor|
            {
                &&& #[trigger] caught_up(*old(self), *old(judge), now, reached, *judge)
                &&& self.same_windows(reached)
                &&& self.counts() == reached.counts()
                &&& self.queues@ == settled(reached.queues@, now)
            };
        proof {
            counts_start_anew_after_a_window(*old(self), *old(judge), now, reached, *judge);
            assert(self.retries == self.counts().retries);
            assert(reached.retries == reached.counts().retries);
        }
        self.retries = self.retries + 1;
        proof {
            assert(caught_up(*old(self), *old(judge), now, reached, *judge));
        }
    }

    /// Counts a request that was completed, once the windows that are over were ended.
    /// Of one that was completed in time, the latency in milliseconds is counted too.
    pub fn observe_complete<J: BaselineJudge>(
        &mut self,
        now: SimTime,
        latency_ms: u64,
        in_time: bool,
        judge: &mut J,
    )
        requires
            old(self).wf(),
            old(self).reaches(now),
            now.0 < old(self).window_end.0 && in_time ==> old(self).completed_in_time < u64::MAX,
            now.0 < old(self).window_end.0 && !in_time ==> old(self).completed_late < u64::MAX,
        ensures
            final(self).wf(),
            exists|reached: Monitor|
                {
                    &&& #[trigger] caught_up(*old(self), *old(judge), now, reached, *final(judge))
                    &&& final(self).same_windows(reached)
                    &&& final(self).queues@ == settled(reached.queues@, now)
                    &&& final(self).counts() == reached.with_completion(latency_ms, in_time)
                },
    {
        self.flush_up_to(now, judge);
        let ghost reached = choose|reached: Monitor|
            {
                &&& #[trigger] caught_up(*old(self), *old(judge), now, reached, *judge)
                &&& self.same_windows(reached)
                &&& self.counts() == reached.counts()
                &&& self.queues@ == settled(reached.queues@, now)
            };
        proof {
            counts_start_anew_after_a_window(*old(self), *old(judge), now, reached, *judge);
        }
        if in_time {
            self.completed_in_time = self.completed_in_time + 1;
            self.latency_count = self.latency_count + 1;
            match self.latency_hist.take() {
                Some(mut hist) => {
                    let counted: u64 = if latency_ms < 1 {
                        1
                    } else if latency_ms > self.cfg.latency_histogram_max_ms {
                        self.cfg.latency_histogram_max_ms
                    } else {
                        latency_ms
                    };
                    record_value(&mut hist, counted);
                    self.latency_hist = Some(hist);
                },
                None => {},
            }
        } else {
            self.completed_late = self.completed_late + 1;
        }
        proof {
            assert(self.counts() =~= reached.with_completion(latency_ms, in_time));
            assert(caught_up(*old(self), *old(judge), now, reached, *judge));
        }
    }
}

proof fn lemma_one_more_window<J: BaselineJudge>(
    states: Seq<Monitor>,
    judges: Seq<J>,
    answers: Seq<bool>,
    now: SimTime,
    next: Monitor,
    judge: J,
    close: bool,
)
    requires
        windows_ended(states, judges, answers, now),
        now.0 >= states.last().window_end.0,
        J::judges(
            judges.last(),
            states.last().unjudged_window(),
            states.last().in_baseline(),
            judge,
            close,
        ),
        flushed(states.last(), next, close),
    ensures
        windows_ended(states.push(next), judges.push(judge), answers.push(close), now),
{
    let (s, j, a) = (states.push(next), judges.push(judge), answers.push(close));
    assert forall|i: int| 0 <= i < a.len() implies #[trigger] window_ended(s, j, a, now, i) by {
        assert(s[i] == states[i] && j[i] == judges[i]);
        if i < answers.len() {
            assert(window_ended(states, judges, answers, now, i));
            assert(s[i + 1] == states[i + 1] && j[i + 1] == judges[i + 1] && a[i] == answers[i]);
        }
    }
}

proof fn lemma_baseline_is_not_judged(windows: Seq<WindowView>, warmup: int, close: bool)
    requires
        windows.len() < warmup,
        forall|i: int|
            0 <= i < windows.len() ==> ((#[trigger] windows[i]).close_to_baseline is None <==> i
                < warmup),
    ensures
        trailing(windows, close) == 0,
{
    if windows.len() > 0 {
        assert(windows[windows.len() - 1].close_to_baseline is None);
    }
}

/// A run is recovered exactly if the last windows, as many as it takes, were all close to
/// the baseline. It is metastable if the last windows, as many as it takes, were all away
/// from it.
pub proof fn recovery_takes_windows_in_a_row(monitor: Monitor)
    requires
        monitor.wf(),
    ensures
        monitor.is_recovered() <==> {
            let n = monitor.windows().len();
            &&& monitor.cfg.recovery_hold_windows <= n
            &&& forall|i: int|
                n - monitor.cfg.recovery_hold_windows <= i < n ==> (
                #[trigger] monitor.windows()[i]).close_to_baseline == Some(true)
        },
        ({
            let n = monitor.windows().len();
            &&& monitor.cfg.metastable_persist_windows <= n
            &&& forall|i: int|
                n - monitor.cfg.metastable_persist_windows <= i < n ==> (
                #[trigger] monitor.windows()[i]).close_to_baseline == Some(false)
        }) ==> monitor.metastable(),
{
    lemma_trailing(monitor.windows(), true, monitor.cfg.recovery_hold_windows as nat);
    lemma_trailing(monitor.windows(), false, monitor.cfg.metastable_persist_windows as nat);
}

proof fn lemma_trailing(windows: Seq<WindowView>, close: bool, k: nat)
    ensures
        trailing(windows, close) >= k <==> {
            &&& k <= windows.len()
            &&& forall|i: int|
                windows.len() - k <= i < windows.len() ==> (
                #[trigger] windows[i]).close_to_baseline == Some(close)
        },
    decreases windows.len(),
{
    if windows.len() > 0 && k > 0 {
        let front = windows.drop_last();
        lemma_trailing(front, close, (k - 1) as nat);
        if trailing(windows, close) >= k {
            assert forall|i: int| windows.len() - k <= i < windows.len() implies (
            #[trigger] windows[i]).close_to_baseline == Some(close) by {
                if i < front.len() {
                    assert(front[i] == windows[i]);
                }
            }
        }
        if k <= windows.len() && forall|i: int|
            windows.len() - k <= i < windows.len() ==> (#[trigger] windows[i]).close_to_baseline
                == Some(close) {
            assert(windows[windows.len() - 1].close_to_baseline == Some(close));
            assert forall|i: int| front.len() - (k - 1) <= i < front.len() implies (
            #[trigger] front[i]).close_to_baseline == Some(close) by {
                assert(front[i] == windows[i]);
            }
        }
    }
}

/// Whether what a queue sums up to is in proportion to the time that has passed since the
/// window started.
pub open spec fn in_proportion(q: QueueState, window_start: SimTime) -> bool {
    &&& window_start.0 <= q.last_time.0
    &&& q.integral_len_nanos <= u64::MAX * (q.last_time.0 - window_start.0)
}

/// As long as time does not go back, no sum over the length of a queue gets out of range.
pub proof fn sums_fit_while_time_goes_on(
    q: QueueState,
    id: QueueId,
    window_start: SimTime,
    now: SimTime,
    len: u64,
)
    requires
        in_proportion(q, window_start),
        q.last_time.0 <= now.0,
    ensures
        q.integral_at(now) <= u128::MAX,
        in_proportion(q.seen(now, len), window_start),
        in_proportion(q.restarted(now), now),
        in_proportion(QueueState::fresh(id, window_start), window_start),
{
    let dt = now.0 - q.last_time.0;
    let past = q.last_time.0 - window_start.0;
    assert(q.len * dt <= u64::MAX * dt) by (nonlinear_arith)
        requires
            q.len <= u64::MAX,
            dt >= 0,
    ;
    assert(u64::MAX * past + u64::MAX * dt == u64::MAX * (past + dt)) by (nonlinear_arith);
    assert(u64::MAX * (past + dt) <= u64::MAX * u64::MAX) by (nonlinear_arith)
        requires
            past + dt <= u64::MAX,
    ;
}

} // verus!
