//! What the windows of a monitor tell of a run.

use crate::explore::monitor::{
    BaselineJudge, CountsView, Monitor, QueueId, QueueState, WindowView,
};
use crate::time::SimTime;
use vstd::prelude::*;

verus! {

/// The greatest length of some queues is that of one of them, and no queue was longer.
proof fn lemma_greatest(queues: Seq<QueueState>)
    ensures
        forall|i: int|
            0 <= i < queues.len() ==> (#[trigger] queues[i]).max
                <= crate::explore::monitor::greatest(queues),
        queues.len() == 0 ==> crate::explore::monitor::greatest(queues) == 0,
        queues.len() > 0 ==> exists|i: int|
            0 <= i < queues.len() && (#[trigger] queues[i]).max
                == crate::explore::monitor::greatest(queues),
    decreases queues.len(),
{
    if queues.len() > 0 {
        let front = queues.drop_last();
        lemma_greatest(front);
        assert forall|i: int| 0 <= i < queues.len() implies (#[trigger] queues[i]).max
            <= crate::explore::monitor::greatest(queues) by {
            if i < front.len() {
                assert(front[i] == queues[i]);
            }
        }
        if queues.last().max > crate::explore::monitor::greatest(front) {
            assert(queues[queues.len() - 1].max == crate::explore::monitor::greatest(queues));
        } else if front.len() > 0 {
            let i = choose|i: int|
                0 <= i < front.len() && (#[trigger] front[i]).max
                    == crate::explore::monitor::greatest(front);
            assert(queues[i].max == crate::explore::monitor::greatest(queues));
        } else {
            assert(queues[0].max == 0);
        }
    }
}

/// The greatest queue length that a window tells is that of one of its queues, and no queue
/// was longer. It is zero where there are no queues.
pub proof fn window_tells_the_greatest_length(monitor: Monitor, close: bool)
    ensures
        forall|i: int|
            0 <= i < monitor.queues@.len() ==> (#[trigger] monitor.queues@[i]).max
                <= monitor.unjudged_window().queue_max,
        monitor.queues@.len() > 0 ==> exists|i: int|
            0 <= i < monitor.queues@.len() && (#[trigger] monitor.queues@[i]).max
                == monitor.unjudged_window().queue_max,
        monitor.queues@.len() == 0 ==> monitor.unjudged_window().queue_max == 0,
        monitor.closed_window(close).queue_max == monitor.unjudged_window().queue_max,
{
    lemma_greatest(monitor.queues@);
}

/// A window tells of each queue its length at the end, and the sum of its length over the
/// time of the window: what it was summed up to when the queue was last seen, and its length
/// from then on.
pub proof fn window_tells_of_every_queue(monitor: Monitor, close: bool, i: int)
    requires
        crate::explore::monitor::sums_fit(monitor.queues@, monitor.window_end),
        0 <= i < monitor.queues@.len(),
    ensures
        ({
            let q = monitor.queues@[i];
            let w = monitor.unjudged_window();
            let since = if monitor.window_end.0 > q.last_time.0 {
                monitor.window_end.0 - q.last_time.0
            } else {
                0
            };
            &&& w.queues.len() == monitor.queues@.len()
            &&& w.queues[i].len == q.len
            &&& w.queues[i].integral_len_nanos == q.integral_len_nanos + q.len * since
            &&& monitor.closed_window(close).queues == w.queues
        }),
{
    let q = monitor.queues@[i];
    assert(q.integral_at(monitor.window_end) <= u128::MAX);
    let dt = monitor.window_end.0.saturating_sub(q.last_time.0);
    assert(q.len * dt >= 0) by (nonlinear_arith)
        requires
            q.len >= 0,
            dt >= 0,
    ;
}

/// A window tells what was counted in it, and nothing else.
pub proof fn window_tells_what_was_counted(monitor: Monitor, close: bool)
    ensures
        ({
            let w = monitor.unjudged_window();
            &&& w.window_start == monitor.window_start
            &&& w.window_end == monitor.window_end
            &&& w.completed_in_time == monitor.completed_in_time
            &&& w.completed_late == monitor.completed_late
            &&& w.dropped == monitor.dropped
            &&& w.timeouts == monitor.timeouts
            &&& w.retries == monitor.retries
            &&& w.latency_count == monitor.latency_count
            &&& w.close_to_baseline is None
            &&& monitor.closed_window(close) == (WindowView {
                close_to_baseline: if monitor.baseline_windows_seen
                    < monitor.cfg.baseline_warmup_windows {
                    None
                } else {
                    Some(close)
                },
                ..w
            })
        }),
{
}

/// A window tells percentiles exactly if latencies were counted in its histogram, and both
/// of the same latencies.
pub proof fn window_tells_percentiles_of_its_latencies(monitor: Monitor)
    ensures
        match monitor.counts().latencies {
            None => monitor.unjudged_window().latency_p95_ms is None
                && monitor.unjudged_window().latency_p99_ms is None,
            Some(values) => if values.len() == 0 {
                monitor.unjudged_window().latency_p95_ms is None
                    && monitor.unjudged_window().latency_p99_ms is None
            } else {
                &&& monitor.unjudged_window().latency_p95_ms == Some(
                    crate::explore::histogram::histogram_percentile(values, 1, 3, 95),
                )
                &&& monitor.unjudged_window().latency_p99_ms == Some(
                    crate::explore::histogram::histogram_percentile(values, 1, 3, 99),
                )
            },
        },
{
}

/// A queue whose length is seen has that length from then on. Its greatest length is at
/// least that and what it was before, and no more; its former length is summed up over the
/// time that has passed.
pub proof fn seeing_a_queue_sums_up_its_former_length(q: QueueState, now: SimTime, len: u64)
    requires
        q.last_time.0 <= now.0,
        q.integral_len_nanos + q.len * (now.0 - q.last_time.0) <= u128::MAX,
    ensures
        q.seen(now, len).id == q.id,
        q.seen(now, len).len == len,
        q.seen(now, len).last_time == now,
        q.seen(now, len).max >= len,
        q.seen(now, len).max >= q.max,
        q.seen(now, len).max == len || q.seen(now, len).max == q.max,
        q.seen(now, len).integral_len_nanos == q.integral_len_nanos + q.len * (now.0
            - q.last_time.0),
{
    let dt = now.0 - q.last_time.0;
    assert(q.len * dt >= 0) by (nonlinear_arith)
        requires
            q.len >= 0,
            dt >= 0,
    ;
}

/// It makes no difference how often a queue is looked at while its length stays the same.
pub proof fn looking_twice_sums_up_the_same(q: QueueState, mid: SimTime, end: SimTime)
    requires
        q.last_time.0 <= mid.0 <= end.0,
        q.integral_len_nanos + q.len * (end.0 - q.last_time.0) <= u128::MAX,
        q.len <= q.max,
    ensures
        q.seen(mid, q.len).seen(end, q.len) == q.seen(end, q.len),
        q.seen(mid, q.len).total(end) == q.total(end),
        q.seen(end, q.len).max == q.max,
{
    let (a, b) = (mid.0 - q.last_time.0, end.0 - mid.0);
    assert(q.len * (a + b) == q.len * a + q.len * b) by (nonlinear_arith);
    assert(q.len * a >= 0) by (nonlinear_arith)
        requires
            q.len >= 0,
            a >= 0,
    ;
    assert(q.len * b >= 0) by (nonlinear_arith)
        requires
            q.len >= 0,
            b >= 0,
    ;
}

/// Whether no two queues are the same.
pub open spec fn queues_are_distinct(queues: Seq<QueueState>) -> bool {
    forall|i: int, j: int| 0 <= i < j < queues.len() ==> (#[trigger] queues[i]).id != (
    #[trigger] queues[j]).id
}

proof fn lemma_place(queues: Seq<QueueState>, id: QueueId)
    ensures
        ({
            let k = crate::explore::monitor::queue_place(queues, id);
            &&& 0 <= k <= queues.len()
            &&& k < queues.len() ==> queues[k].id == id
            &&& forall|i: int| 0 <= i < k ==> (#[trigger] queues[i]).id != id
        }),
    decreases queues.len(),
{
    if queues.len() > 0 && queues[0].id != id {
        let rest = queues.drop_first();
        lemma_place(rest, id);
        let k = crate::explore::monitor::queue_place(rest, id);
        assert forall|i: int| 0 <= i < k + 1 implies (#[trigger] queues[i]).id != id by {
            if i > 0 {
                assert(queues[i] == rest[i - 1]);
            }
        }
        if k < rest.len() {
            assert(queues[k + 1] == rest[k]);
        }
    }
}

/// Seeing a queue changes that queue and no other. A queue that was not seen before is
/// added, and has been empty since the window started.
pub proof fn seeing_a_queue_leaves_the_others(
    queues: Seq<QueueState>,
    window_start: SimTime,
    id: QueueId,
    now: SimTime,
    len: u64,
)
    requires
        queues_are_distinct(queues),
        window_start.0 <= now.0,
    ensures
        ({
            let after = crate::explore::monitor::with_queue_len(queues, window_start, id, now, len);
            &&& queues_are_distinct(after)
            &&& exists|k: int|
                0 <= k < after.len() && (#[trigger] after[k]).id == id && after[k].len == len
                    && after[k].max >= len && after[k].last_time == now
            &&& forall|i: int|
                0 <= i < queues.len() && (#[trigger] queues[i]).id != id ==> after[i] == queues[i]
            &&& forall|i: int|
                0 <= i < queues.len() && (#[trigger] queues[i]).id == id ==> after[i]
                    == queues[i].seen(now, len) && after.len() == queues.len()
            &&& (forall|i: int| 0 <= i < queues.len() ==> (#[trigger] queues[i]).id != id) ==> {
                &&& after.len() == queues.len() + 1
                &&& after.last().max == len
                &&& after.last().integral_len_nanos == 0
            }
        }),
{
    let after = crate::explore::monitor::with_queue_len(queues, window_start, id, now, len);
    let k = crate::explore::monitor::queue_place(queues, id);
    lemma_place(queues, id);
    assert(after[k].id == id && after[k].len == len);
    if k == queues.len() {
        let dt = now.0.saturating_sub(window_start.0);
        assert(0 * dt == 0) by (nonlinear_arith);
    }
}

/// A queue keeps its length over the end of a window, which is its greatest length then,
/// and is summed up anew.
pub proof fn queues_go_on_after_a_window(queues: Seq<QueueState>, end: SimTime, i: int)
    requires
        0 <= i < queues.len(),
    ensures
        ({
            let after = crate::explore::monitor::restarted(queues, end);
            &&& after.len() == queues.len()
            &&& after[i].id == queues[i].id
            &&& after[i].len == queues[i].len
            &&& after[i].max == queues[i].len
            &&& after[i].last_time == end
            &&& after[i].integral_len_nanos == 0
        }),
{
}

/// While time goes on, queues keep their lengths and greatest lengths.
pub proof fn queues_keep_their_lengths(queues: Seq<QueueState>, now: SimTime, i: int)
    requires
        0 <= i < queues.len(),
        queues[i].last_time.0 <= now.0,
        queues[i].len <= queues[i].max,
        queues[i].integral_len_nanos + queues[i].len * (now.0 - queues[i].last_time.0) <= u128::MAX,
    ensures
        ({
            let after = crate::explore::monitor::settled(queues, now);
            &&& after.len() == queues.len()
            &&& after[i].id == queues[i].id
            &&& after[i].len == queues[i].len
            &&& after[i].max == queues[i].max
            &&& after[i].last_time == now
            &&& after[i].integral_len_nanos == queues[i].integral_len_nanos + queues[i].len * (now.0
                - queues[i].last_time.0)
        }),
{
    seeing_a_queue_sums_up_its_former_length(queues[i], now, queues[i].len);
}

/// A completed request is counted once: as one in time, together with its latency, or as a
/// late one. Nothing else that is counted changes.
pub proof fn a_completion_is_counted_once(monitor: Monitor, latency_ms: u64, in_time: bool)
    requires
        monitor.wf(),
        in_time ==> monitor.completed_in_time < u64::MAX,
        !in_time ==> monitor.completed_late < u64::MAX,
    ensures
        ({
            let (a, b) = (monitor.counts(), monitor.with_completion(latency_ms, in_time));
            let latency = if latency_ms == 0 {
                1
            } else if latency_ms <= monitor.cfg.latency_histogram_max_ms {
                latency_ms
            } else {
                monitor.cfg.latency_histogram_max_ms
            };
            &&& b.completed_in_time == a.completed_in_time + if in_time {
                1int
            } else {
                0
            }
            &&& b.completed_late == a.completed_late + if in_time {
                0int
            } else {
                1
            }
            &&& b.latency_count == b.completed_in_time
            &&& b.dropped == a.dropped
            &&& b.timeouts == a.timeouts
            &&& b.retries == a.retries
            &&& b.latencies == match a.latencies {
                Some(values) if in_time => Some(
                    values.insert(crate::explore::histogram::histogram_bucket(1, 3, latency)),
                ),
                _ => a.latencies,
            }
        }),
{
}

/// A run is metastable exactly if its last windows, as many as it takes, were all away from
/// the baseline, or if it takes too long to recover: a spike is over for as long as it may
/// take, and the last windows were not all close to the baseline.
pub proof fn metastable_runs_are_away_from_the_baseline(monitor: Monitor)
    requires
        monitor.wf(),
    ensures
        ({
            let windows = monitor.windows();
            let n = windows.len();
            let away = monitor.cfg.metastable_persist_windows <= n && forall|i: int|
                n - monitor.cfg.metastable_persist_windows <= i < n ==> (
                #[trigger] windows[i]).close_to_baseline == Some(false);
            let close = monitor.cfg.recovery_hold_windows <= n && forall|i: int|
                n - monitor.cfg.recovery_hold_windows <= i < n ==> (
                #[trigger] windows[i]).close_to_baseline == Some(true);
            let late = match (monitor.cfg.recovery_time_limit, monitor.post_spike_start) {
                (Some(limit), Some(post)) => {
                    &&& n > 0
                    &&& !close
                    &&& if windows[n - 1].window_end.0 >= post.0 {
                        windows[n - 1].window_end.0 - post.0 >= crate::duration::duration_nanos(
                            limit,
                        )
                    } else {
                        crate::duration::duration_nanos(limit) == 0
                    }
                },
                _ => false,
            };
            &&& monitor.is_recovered() <==> close
            &&& monitor.metastable() <==> away || late
        }),
{
    crate::explore::monitor::recovery_takes_windows_in_a_row(monitor);
    lemma_persist(
        monitor.windows(),
        monitor.cfg.metastable_persist_windows as nat,
    );
}

/// The last windows were all away from the baseline where the count of them says so.
proof fn lemma_persist(windows: Seq<WindowView>, k: nat)
    ensures
        crate::explore::monitor::trailing(windows, false) >= k <==> {
            &&& k <= windows.len()
            &&& forall|i: int|
                windows.len() - k <= i < windows.len() ==> (
                #[trigger] windows[i]).close_to_baseline == Some(false)
        },
    decreases windows.len(),
{
    if windows.len() > 0 && k > 0 {
        let front = windows.drop_last();
        lemma_persist(front, (k - 1) as nat);
        if crate::explore::monitor::trailing(windows, false) >= k {
            assert forall|i: int| windows.len() - k <= i < windows.len() implies (
            #[trigger] windows[i]).close_to_baseline == Some(false) by {
                if i < front.len() {
                    assert(front[i] == windows[i]);
                }
            }
        }
        if k <= windows.len() && forall|i: int|
            windows.len() - k <= i < windows.len() ==> (#[trigger] windows[i]).close_to_baseline
                == Some(false) {
            assert(windows[windows.len() - 1].close_to_baseline == Some(false));
            assert forall|i: int| front.len() - (k - 1) <= i < front.len() implies (
            #[trigger] front[i]).close_to_baseline == Some(false) by {
                assert(front[i] == windows[i]);
            }
        }
    }
}

/// The recovery of a run is timed from the end of the spike to the end of the last window.
pub proof fn recovery_is_timed_from_the_spike(monitor: Monitor)
    ensures
        monitor.since_spike() is Some <==> monitor.post_spike_start is Some
            && monitor.windows().len() > 0,
        monitor.since_spike() matches Some(nanos) ==> {
            let end = monitor.windows()[monitor.windows().len() - 1].window_end;
            let post = monitor.post_spike_start->0;
            nanos == if end.0 >= post.0 {
                end.0 - post.0
            } else {
                0
            }
        },
{
}

/// Whether nothing was counted in a window.
pub open spec fn counted_nothing(w: WindowView) -> bool {
    &&& w.completed_in_time == 0
    &&& w.completed_late == 0
    &&& w.dropped == 0
    &&& w.timeouts == 0
    &&& w.retries == 0
    &&& w.latency_count == 0
    &&& w.latency_p95_ms is None
    &&& w.latency_p99_ms is None
}

proof fn lemma_windows<J: BaselineJudge>(
    states: Seq<Monitor>,
    judges: Seq<J>,
    answers: Seq<bool>,
    now: SimTime,
    i: int,
)
    requires
        states[0].wf(),
        crate::explore::monitor::windows_ended(states, judges, answers, now),
        0 <= i <= answers.len(),
    ensures
        ({
            let n = states[0].windows().len();
            let all = states[i].windows();
            let length = crate::duration::low_nanos(
                crate::duration::duration_nanos(states[0].cfg.window),
            );
            &&& states[i].wf()
            &&& states[i].cfg == states[0].cfg
            &&& all.len() == n + i
            &&& states[0].windows().is_prefix_of(all)
            &&& i > 0 ==> states[i].window_start == all[n + i - 1].window_end
            &&& i > 0 ==> states[i].counts() == states[i].no_counts()
            &&& i > 0 ==> all[n as int] == states[0].closed_window(answers[0])
            &&& forall|k: int|
                n <= k < n + i ==> {
                    &&& (#[trigger] all[k]).window_end.0 == all[k].window_start.0.saturating_add(
                        length,
                    )
                    &&& all[k].window_end.0 <= now.0
                    &&& k > n ==> counted_nothing(all[k])
                    &&& k > n ==> all[k].window_start == all[k - 1].window_end
                }
        }),
    decreases i,
{
    let n = states[0].windows().len();
    let first = states[0].windows();
    if i == 0 {
        assert(first =~= first.subrange(0, first.len() as int));
    } else {
        lemma_windows(states, judges, answers, now, i - 1);
        assert(crate::explore::monitor::window_ended(states, judges, answers, now, i - 1));
        let (a, b) = (states[i - 1], states[i]);
        let closed = a.closed_window(answers[i - 1]);
        let (before, all) = (a.windows(), b.windows());
        assert(all == before.push(closed));
        assert(first =~= all.subrange(0, first.len() as int)) by {
            assert(first =~= before.subrange(0, first.len() as int));
            assert forall|k: int| 0 <= k < first.len() implies first[k] == all[k] by {
                assert(first[k] == before.subrange(0, first.len() as int)[k]);
            }
        }
        if i > 1 {
            assert(a.counts() == a.no_counts());
            assert(a.no_counts().dropped == a.counts().dropped);
            assert(a.counts().latencies == a.no_counts().latencies);
            assert(counted_nothing(closed));
        }
        assert forall|k: int| n <= k < n + i implies {
            let length = crate::duration::low_nanos(
                crate::duration::duration_nanos(states[0].cfg.window),
            );
            &&& (#[trigger] all[k]).window_end.0 == all[k].window_start.0.saturating_add(length)
            &&& all[k].window_end.0 <= now.0
            &&& k > n ==> counted_nothing(all[k])
            &&& k > n ==> all[k].window_start == all[k - 1].window_end
        } by {
            if k < n + i - 1 {
                assert(all[k] == before[k]);
                if k > n {
                    assert(all[k - 1] == before[k - 1]);
                }
            }
        }
    }
}

/// When a monitor catches up with a time, it ends all windows that are over then, one after
/// the other and each as long as configured. The first of them tells what was counted
/// before, the others tell that nothing was. What was told before stays.
pub proof fn catching_up_ends_every_window<J: BaselineJudge>(
    before: Monitor,
    judge_before: J,
    now: SimTime,
    after: Monitor,
    judge_after: J,
)
    requires
        before.wf(),
        crate::explore::monitor::caught_up(before, judge_before, now, after, judge_after),
    ensures
        after.cfg == before.cfg,
        now.0 < after.window_end.0,
        before.windows().is_prefix_of(after.windows()),
        now.0 < before.window_end.0 ==> after == before,
        now.0 >= before.window_end.0 ==> {
            let n = before.windows().len() as int;
            let all = after.windows();
            let length = crate::duration::low_nanos(
                crate::duration::duration_nanos(before.cfg.window),
            );
            &&& all.len() > n
            &&& after.window_start == all[all.len() - 1].window_end
            &&& all[n].window_start == before.window_start
            &&& all[n].window_end == before.window_end
            &&& all[n].completed_in_time == before.completed_in_time
            &&& all[n].completed_late == before.completed_late
            &&& all[n].dropped == before.dropped
            &&& all[n].timeouts == before.timeouts
            &&& all[n].retries == before.retries
            &&& forall|i: int|
                0 <= i < before.queues@.len() ==> (#[trigger] before.queues@[i]).max
                    <= all[n].queue_max
            &&& forall|k: int|
                n <= k < all.len() ==> (#[trigger] all[k]).window_end.0 <= now.0
                    && all[k].window_end.0 == all[k].window_start.0.saturating_add(length)
            &&& forall|k: int|
                n < k < all.len() ==> counted_nothing(#[trigger] all[k]) && all[k].window_start
                    == all[k - 1].window_end
        },
{
    let first = before.windows();
    if now.0 >= before.window_end.0 {
        let (states, judges, answers) = choose|
            states: Seq<Monitor>,
            judges: Seq<J>,
            answers: Seq<bool>,
        |
            {
                &&& #[trigger] crate::explore::monitor::windows_ended(states, judges, answers, now)
                &&& now.0 < states.last().window_end.0
                &&& states[0] == before
                &&& judges[0] == judge_before
                &&& states.last() == after
                &&& judges.last() == judge_after
            };
        lemma_windows(states, judges, answers, now, answers.len() as int);
        window_tells_the_greatest_length(before, answers[0]);
    } else {
        assert(first =~= first.subrange(0, first.len() as int));
    }
}

/// The first windows, as many as configured, make up the baseline; every later one is held
/// against it.
pub proof fn first_windows_make_up_the_baseline(monitor: Monitor, i: int)
    requires
        monitor.wf(),
    ensures
        monitor.in_baseline() <==> monitor.windows().len() < monitor.cfg.baseline_warmup_windows,
        0 <= i < monitor.windows().len() ==> (monitor.windows()[i].close_to_baseline is None <==> i
            < monitor.cfg.baseline_warmup_windows),
{
}

/// Whenever a window ends, it is judged as it stands, and what comes of that is what the
/// window tells from then on, once the baseline is made up.
pub proof fn every_window_is_judged<J: BaselineJudge>(
    states: Seq<Monitor>,
    judges: Seq<J>,
    answers: Seq<bool>,
    now: SimTime,
    i: int,
)
    requires
        crate::explore::monitor::windows_ended(states, judges, answers, now),
        0 <= i < answers.len(),
        states[i].wf(),
    ensures
        J::judges(
            judges[i],
            states[i].unjudged_window(),
            states[i].windows().len() < states[i].cfg.baseline_warmup_windows,
            judges[i + 1],
            answers[i],
        ),
        states[i].windows().len() >= states[i].cfg.baseline_warmup_windows
            ==> states[i + 1].windows().last().close_to_baseline == Some(answers[i]),
        states[i].windows().len() < states[i].cfg.baseline_warmup_windows ==> states[i
            + 1].windows().last().close_to_baseline is None,
        states[i + 1].windows().last().window_end == states[i].window_end,
        states[i + 1].post_spike_start == states[i].post_spike_start,
{
    assert(crate::explore::monitor::window_ended(states, judges, answers, now, i));
}

/// Where a monitor that catches up ends a window, nothing is counted yet in the one that it
/// goes on with. Where it ends none, it stays as it is.
pub proof fn nothing_is_counted_after_catching_up<J: BaselineJudge>(
    before: Monitor,
    judge_before: J,
    now: SimTime,
    after: Monitor,
    judge_after: J,
)
    requires
        before.wf(),
        crate::explore::monitor::caught_up(before, judge_before, now, after, judge_after),
    ensures
        now.0 < before.window_end.0 ==> after == before,
        now.0 >= before.window_end.0 ==> {
            &&& after.completed_in_time == 0
            &&& after.completed_late == 0
            &&& after.dropped == 0
            &&& after.timeouts == 0
            &&& after.retries == 0
        },
{
    if now.0 >= before.window_end.0 {
        let (states, judges, answers) = choose|
            states: Seq<Monitor>,
            judges: Seq<J>,
            answers: Seq<bool>,
        |
            {
                &&& #[trigger] crate::explore::monitor::windows_ended(states, judges, answers, now)
                &&& now.0 < states.last().window_end.0
                &&& states[0] == before
                &&& judges[0] == judge_before
                &&& states.last() == after
                &&& judges.last() == judge_after
            };
        lemma_windows(states, judges, answers, now, answers.len() as int);
        assert(states.last() == states[answers.len() as int]);
        assert(after.counts() == after.no_counts());
    }
}

/// What has been counted so far where a time falls into the current window, and nothing
/// where it falls into a later one.
pub open spec fn counted_by(before: Monitor, now: SimTime, count: u64) -> int {
    if now.0 < before.window_end.0 {
        count as int
    } else {
        0
    }
}

/// A dropped request is counted once, in the window in which it falls, and as nothing else.
pub proof fn drops_are_counted_in_their_window<J: BaselineJudge>(
    monitor: &mut Monitor,
    now: SimTime,
    judge: &mut J,
)
    requires
        old(monitor).wf(),
        now.0 < old(monitor).window_end.0 ==> old(monitor).dropped < u64::MAX,
        call_ensures(Monitor::observe_drop::<J>, (monitor, now, judge), ()),
    ensures
        ({
            let (a, b) = (*old(monitor), *final(monitor));
            &&& b.dropped == counted_by(a, now, a.dropped) + 1
            &&& b.timeouts == counted_by(a, now, a.timeouts)
            &&& b.retries == counted_by(a, now, a.retries)
            &&& b.completed_in_time == counted_by(a, now, a.completed_in_time)
            &&& b.completed_late == counted_by(a, now, a.completed_late)
            &&& now.0 < a.window_end.0 <==> b.timeline@.len() == a.timeline@.len()
        }),
{
    let (a, b) = (*old(monitor), *final(monitor));
    let reached = choose|reached: Monitor|
        {
            &&& #[trigger] crate::explore::monitor::caught_up(
                a,
                *old(judge),
                now,
                reached,
                *final(judge),
            )
            &&& b.same_windows(reached)
            &&& b.queues@ == crate::explore::monitor::settled(reached.queues@, now)
            &&& b.counts() == (CountsView {
                dropped: (reached.dropped + 1) as u64,
                ..reached.counts()
            })
        };
    nothing_is_counted_after_catching_up(a, *old(judge), now, reached, *final(judge));
    catching_up_ends_every_window(a, *old(judge), now, reached, *final(judge));
    assert(a.windows().len() == a.timeline@.len());
    assert(reached.windows().len() == b.timeline@.len());
}

/// A timeout is counted once, in the window in which it falls, and as nothing else.
pub proof fn timeouts_are_counted_in_their_window<J: BaselineJudge>(
    monitor: &mut Monitor,
    now: SimTime,
    judge: &mut J,
)
    requires
        old(monitor).wf(),
        now.0 < old(monitor).window_end.0 ==> old(monitor).timeouts < u64::MAX,
        call_ensures(Monitor::observe_timeout::<J>, (monitor, now, judge), ()),
    ensures
        ({
            let (a, b) = (*old(monitor), *final(monitor));
            &&& b.timeouts == counted_by(a, now, a.timeouts) + 1
            &&& b.dropped == counted_by(a, now, a.dropped)
            &&& b.retries == counted_by(a, now, a.retries)
            &&& b.completed_in_time == counted_by(a, now, a.completed_in_time)
            &&& b.completed_late == counted_by(a, now, a.completed_late)
        }),
{
    let (a, b) = (*old(monitor), *final(monitor));
    let reached = choose|reached: Monitor|
        {
            &&& #[trigger] crate::explore::monitor::caught_up(
                a,
                *old(judge),
                now,
                reached,
                *final(judge),
            )
            &&& b.same_windows(reached)
            &&& b.queues@ == crate::explore::monitor::settled(reached.queues@, now)
            &&& b.counts() == (CountsView {
                timeouts: (reached.timeouts + 1) as u64,
                ..reached.counts()
            })
        };
    nothing_is_counted_after_catching_up(a, *old(judge), now, reached, *final(judge));
}

/// A retry is counted once, in the window in which it falls, and as nothing else.
pub proof fn retries_are_counted_in_their_window<J: BaselineJudge>(
    monitor: &mut Monitor,
    now: SimTime,
    judge: &mut J,
)
    requires
        old(monitor).wf(),
        now.0 < old(monitor).window_end.0 ==> old(monitor).retries < u64::MAX,
        call_ensures(Monitor::observe_retry::<J>, (monitor, now, judge), ()),
    ensures
        ({
            let (a, b) = (*old(monitor), *final(monitor));
            &&& b.retries == counted_by(a, now, a.retries) + 1
            &&& b.dropped == counted_by(a, now, a.dropped)
            &&& b.timeouts == counted_by(a, now, a.timeouts)
            &&& b.completed_in_time == counted_by(a, now, a.completed_in_time)
            &&& b.completed_late == counted_by(a, now, a.completed_late)
        }),
{
    let (a, b) = (*old(monitor), *final(monitor));
    let reached = choose|reached: Monitor|
        {
            &&& #[trigger] crate::explore::monitor::caught_up(
                a,
                *old(judge),
                now,
                reached,
                *final(judge),
            )
            &&& b.same_windows(reached)
            &&& b.queues@ == crate::explore::monitor::settled(reached.queues@, now)
            &&& b.counts() == (CountsView {
                retries: (reached.retries + 1) as u64,
                ..reached.counts()
            })
        };
    nothing_is_counted_after_catching_up(a, *old(judge), now, reached, *final(judge));
}

/// A completion is counted once, in the window in which it falls: in time or late.
pub proof fn completions_are_counted_in_their_window<J: BaselineJudge>(
    monitor: &mut Monitor,
    now: SimTime,
    latency_ms: u64,
    in_time: bool,
    judge: &mut J,
)
    requires
        old(monitor).wf(),
        now.0 < old(monitor).window_end.0 && in_time ==> old(monitor).completed_in_time < u64::MAX,
        now.0 < old(monitor).window_end.0 && !in_time ==> old(monitor).completed_late < u64::MAX,
        call_ensures(
            Monitor::observe_complete::<J>,
            (monitor, now, latency_ms, in_time, judge),
            (),
        ),
    ensures
        ({
            let (a, b) = (*old(monitor), *final(monitor));
            &&& b.completed_in_time == counted_by(a, now, a.completed_in_time) + if in_time {
                1int
            } else {
                0
            }
            &&& b.completed_late == counted_by(a, now, a.completed_late) + if in_time {
                0int
            } else {
                1
            }
            &&& b.dropped == counted_by(a, now, a.dropped)
            &&& b.timeouts == counted_by(a, now, a.timeouts)
            &&& b.retries == counted_by(a, now, a.retries)
        }),
{
    let (a, b) = (*old(monitor), *final(monitor));
    let reached = choose|reached: Monitor|
        {
            &&& #[trigger] crate::explore::monitor::caught_up(
                a,
                *old(judge),
                now,
                reached,
                *final(judge),
            )
            &&& b.same_windows(reached)
            &&& b.queues@ == crate::explore::monitor::settled(reached.queues@, now)
            &&& b.counts() == reached.with_completion(latency_ms, in_time)
        };
    nothing_is_counted_after_catching_up(a, *old(judge), now, reached, *final(judge));
    assert(b.counts().completed_in_time == b.completed_in_time);
}

} // verus!
