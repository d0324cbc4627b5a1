// This Source Code Form is subject to the terms of the Mozilla Public
// License, v. 2.0. If a copy of the MPL was not distributed with this
// file, You can obtain one at https://mozilla.org/MPL/2.0/.

//! What a run of a workload adds up to, URL by URL.
//!
//! A URL is fetched once when the frontier hands it out, and once more for
//! each retry that the retry pool has granted it and given out again.  So a
//! URL is fetched no more often than once and its granted retries, which are
//! fewer than the cap.  And every fetch that was dispatched and has come to
//! its end is one visit.

use crate::address::bare_texts;
use crate::bound::fetches;
use crate::frontier::lemma_keep_all_wf;
use crate::retry::{lemma_waiting_put, lemma_waiting_take, one_if, waiting, Batch};
use crate::run::{lemma_capacity, lemma_finished_is_drained, lemma_run, Event};
use crate::text::lemma_push_contains;
use crate::workload::{
    lemma_cleared, lemma_next_is_total, ActionView, OutcomeView, RetryPolicy, WorkloadView,
};
use vstd::prelude::*;

verus! {

/// How often `u` waits in `batches`.
pub open spec fn waits(batches: Seq<Batch>, u: Seq<char>) -> nat {
    waiting(batches, Some(u))
}

/// Whether the call `event` on the workload `w` makes it dispatch a fetch of
/// the URL `u`.
pub open spec fn fetches_url<B, V>(w: WorkloadView<B, V>, event: Event<B, V>, u: Seq<char>) -> bool {
    match event {
        Event::Next { now } => match w.next_action(now) {
            ActionView::Dispatch { url, .. } => url == u,
            _ => false,
        },
        _ => false,
    }
}

/// Whether the call `event` on the workload `w` reports a timeout of the URL
/// `u` for which the retry pool grants another attempt.
pub open spec fn grants_retry<B, V>(w: WorkloadView<B, V>, event: Event<B, V>, u: Seq<char>) -> bool {
    match event {
        Event::Complete { outcome, .. } => match outcome {
            OutcomeView::Timeout { url } => url == u && w.policy != RetryPolicy::No
                && w.pool.grants(u),
            _ => false,
        },
        _ => false,
    }
}

/// The number of fetches of the URL `u` that the workload `w` dispatches in
/// the run `events`.
pub open spec fn fetches_of<B, V>(w: WorkloadView<B, V>, events: Seq<Event<B, V>>, u: Seq<char>) -> nat
    decreases events.len(),
{
    if events.len() == 0 {
        0
    } else {
        fetches_of(w, events.drop_last(), u) + one_if(
            fetches_url(w.after_all(events.drop_last()), events.last(), u),
        )
    }
}

/// The number of retries of the URL `u` that are granted in the run `events`
/// of the workload `w`.
pub open spec fn retries_of<B, V>(w: WorkloadView<B, V>, events: Seq<Event<B, V>>, u: Seq<char>) -> nat
    decreases events.len(),
{
    if events.len() == 0 {
        0
    } else {
        retries_of(w, events.drop_last(), u) + one_if(
            grants_retry(w.after_all(events.drop_last()), events.last(), u),
        )
    }
}

/// The number of fetches that are reported as come to their end in the run
/// `events`.
pub open spec fn completes<B, V>(events: Seq<Event<B, V>>) -> nat
    decreases events.len(),
{
    if events.len() == 0 {
        0
    } else {
        completes(events.drop_last()) + one_if(events.last() is Complete)
    }
}

/// 1 where the frontier of `w` has handed `u` out, else 0.
pub open spec fn handed_out<B, V>(w: WorkloadView<B, V>, u: Seq<char>) -> nat {
    one_if(w.frontier.handed.contains(u))
}

/// One call, counted for the URL `u`: a fetch of `u` either takes `u` from
/// the frontier for the first and only time, or takes it from the retry pool,
/// where only a granted retry has put it.
pub proof fn lemma_tally_step<B, V>(w: WorkloadView<B, V>, event: Event<B, V>, u: Seq<char>)
    requires
        w.wf(),
        w.allows(event),
    ensures
        one_if(fetches_url(w, event, u)) + waits(w.after(event).pool.batches, u) + handed_out(w, u)
            == handed_out(w.after(event), u) + waits(w.pool.batches, u) + one_if(
            grants_retry(w, event, u),
        ),
{
    match event {
        Event::Start { seed } => {
            lemma_keep_all_wf(w.frontier, bare_texts(seed), w.use_robots);
        },
        Event::Next { now } => {
            lemma_next_is_total(w, now);
            lemma_cleared(w.frontier, w.robots, w.robot);
            let s = w.settled();
            if w.next_action(now) is Dispatch {
                if s.retries_next(now) {
                    lemma_waiting_take(s.pool, s.frontier.stack.len() == 0, now, Some(u));
                } else {
                    let url = s.frontier.stack.last();
                    lemma_push_contains(s.frontier.handed, url);
                    assert(s.frontier.stack.contains(url)) by {
                        assert(s.frontier.stack[s.frontier.stack.len() - 1] == url);
                    }
                }
            }
        },
        Event::Complete { engine, outcome, now } => {
            match outcome {
                OutcomeView::Page { urls, data } => {
                    lemma_keep_all_wf(w.frontier, urls, w.use_robots);
                },
                OutcomeView::Timeout { url } => {
                    if w.policy != RetryPolicy::No && w.pool.grants(url) {
                        lemma_waiting_put(w.pool.batches, now, url, Some(u));
                    }
                },
                OutcomeView::Failure => {},
            }
        },
        Event::Cancel => {},
        Event::RobotsFetched { file } => {},
        Event::EngineBuilt { engine } => {},
        Event::BuildFailed => {},
    }
}

/// A run, counted for the URL `u`: the fetches of `u`, and what waits of it
/// in the retry pool afterwards, are what waited of it before, the retries
/// that were granted to it, and the one time that the frontier hands it out.
pub proof fn lemma_tally<B, V>(w: WorkloadView<B, V>, events: Seq<Event<B, V>>, u: Seq<char>)
    requires
        w.wf(),
        w.allows_all(events),
    ensures
        fetches_of(w, events, u) + waits(w.after_all(events).pool.batches, u) + handed_out(w, u)
            == handed_out(w.after_all(events), u) + waits(w.pool.batches, u) + retries_of(
            w,
            events,
            u,
        ),
    decreases events.len(),
{
    if events.len() > 0 {
        lemma_tally(w, events.drop_last(), u);
        lemma_run(w, events.drop_last());
        lemma_tally_step(w.after_all(events.drop_last()), events.last(), u);
    }
}

/// The retries that a run grants to the URL `u` are counted by the retry
/// pool, and stay below its cap together with what it had counted before.
pub proof fn lemma_retries_capped<B, V>(w: WorkloadView<B, V>, events: Seq<Event<B, V>>, u: Seq<char>)
    requires
        w.wf(),
        w.allows_all(events),
    ensures
        retries_of(w, events, u) + w.pool.attempts[u] <= w.after_all(events).pool.attempts[u],
        retries_of(w, events, u) > 0 ==> retries_of(w, events, u) + w.pool.attempts[u]
            < w.pool.cap,
        w.after_all(events).pool.cap == w.pool.cap,
    decreases events.len(),
{
    if events.len() > 0 {
        lemma_retries_capped(w, events.drop_last(), u);
        lemma_run(w, events.drop_last());
        let before = w.after_all(events.drop_last());
        match events.last() {
            Event::Next { now } => {
                lemma_next_is_total(before, now);
            },
            _ => {},
        }
    }
}

/// Each URL is fetched once, and once more for each retry that is granted to
/// it.  In a run of a workload that has not handed the URL `u` out, holds no
/// retry of it and has counted no attempt for it, `u` is fetched no more
/// often than once and its granted retries; these are fewer than the cap of
/// the retry pool, so that `u` is fetched no more often than the cap says,
/// and once where the cap is nothing.
pub proof fn lemma_fetched_within_cap<B, V>(
    w: WorkloadView<B, V>,
    events: Seq<Event<B, V>>,
    u: Seq<char>,
)
    requires
        w.wf(),
        w.allows_all(events),
        !w.frontier.handed.contains(u),
        waits(w.pool.batches, u) == 0,
        w.pool.attempts[u] == 0,
    ensures
        fetches_of(w, events, u) <= 1 + retries_of(w, events, u),
        fetches_of(w, events, u) <= if w.pool.cap > 1 {
            w.pool.cap
        } else {
            1
        },
{
    lemma_tally(w, events, u);
    lemma_retries_capped(w, events, u);
}

/// Visits are fetches: in every run, the fetches that are under way
/// afterwards and those that were reported as come to their end are the
/// fetches that were under way before and those that the run dispatched; and
/// each report is one visit.  A run that ends with no fetch under way has
/// therefore visited as often as it has fetched.
pub proof fn lemma_visits_are_fetches<B, V>(w: WorkloadView<B, V>, events: Seq<Event<B, V>>)
    requires
        w.wf(),
        w.allows_all(events),
    ensures
        w.after_all(events).in_flight() + completes(events) == w.in_flight() + fetches(w, events),
        w.after_all(events).stats.count_visited == if w.stats.count_visited + completes(events)
            <= usize::MAX {
            w.stats.count_visited + completes(events)
        } else {
            usize::MAX as int
        },
    decreases events.len(),
{
    if events.len() > 0 {
        lemma_visits_are_fetches(w, events.drop_last());
        lemma_run(w, events.drop_last());
        let before = w.after_all(events.drop_last());
        match events.last() {
            Event::Next { now } => {
                lemma_next_is_total(before, now);
                let s = before.settled();
                if before.next_action(now) is Dispatch {
                    assert(s.ring.idle[s.ring.idle.len() - 1] == s.ring.idle.last());
                    assert(!s.ring.in_use.contains(s.ring.idle.last().slot()));
                }
            },
            _ => {},
        }
    }
}

/// The end of a crawl: when a workload that started with no fetch under way
/// and no visit counted tells its caller that it is finished, and has not
/// ended early, no fetch is under way and it has visited as often as it has
/// fetched.
pub proof fn lemma_finished_has_visited_all<B, V>(
    w: WorkloadView<B, V>,
    events: Seq<Event<B, V>>,
    now: nat,
)
    requires
        w.wf(),
        w.allows_all(events),
        w.in_flight() == 0,
        w.stats.count_visited == 0,
        !w.after_all(events).over(),
        w.after_all(events).next_action(now) is Finished,
        fetches(w, events) <= usize::MAX,
    ensures
        w.after_all(events).in_flight() == 0,
        w.after_all(events).stats.count_visited == fetches(w, events),
        completes(events) == fetches(w, events),
{
    lemma_run(w, events);
    lemma_finished_is_drained(w.after_all(events), now);
    lemma_visits_are_fetches(w, events);
}

/// The number of engines that are reported as built in the run `events`.
pub open spec fn builds<B, V>(events: Seq<Event<B, V>>) -> nat
    decreases events.len(),
{
    if events.len() == 0 {
        0
    } else {
        builds(events.drop_last()) + one_if(events.last() is EngineBuilt)
    }
}

/// Engines are built within the capacity: in every run, the engines of the
/// ring are those that it had and those that were built, and they are no more
/// than the ring may hold.
pub proof fn lemma_builds_within_capacity<B, V>(w: WorkloadView<B, V>, events: Seq<Event<B, V>>)
    requires
        w.wf(),
        w.allows_all(events),
    ensures
        w.after_all(events).ring.built() == w.ring.built() + builds(events),
        w.ring.built() + builds(events) <= w.ring.cap,
        w.after_all(events).ring.cap == w.ring.cap,
    decreases events.len(),
{
    lemma_run(w, events);
    if events.len() > 0 {
        lemma_builds_within_capacity(w, events.drop_last());
        lemma_run(w, events.drop_last());
        let before = w.after_all(events.drop_last());
        match events.last() {
            Event::Next { now } => {
                lemma_next_is_total(before, now);
                let s = before.settled();
                if before.next_action(now) is Dispatch {
                    assert(s.ring.idle[s.ring.idle.len() - 1] == s.ring.idle.last());
                    assert(!s.ring.in_use.contains(s.ring.idle.last().slot()));
                }
            },
            _ => {},
        }
    }
}

/// Whether the counters of `w` add up: what was collected, what failed and
/// what is retried is no more than what was visited.
pub open spec fn adds_up<B, V>(w: WorkloadView<B, V>) -> bool {
    w.stats.count_collected + w.stats.count_errors + w.stats.count_retries
        <= w.stats.count_visited
}

/// The counters add up: in every run the number of visits does not fall, and
/// as long as it has not reached the largest number, what was collected, what
/// failed and what is retried is no more than what was visited.
pub proof fn lemma_counters_add_up<B, V>(w: WorkloadView<B, V>, events: Seq<Event<B, V>>)
    requires
        adds_up(w),
    ensures
        w.stats.count_visited <= w.after_all(events).stats.count_visited,
        w.after_all(events).stats.count_visited < usize::MAX ==> adds_up(w.after_all(events)),
    decreases events.len(),
{
    if events.len() > 0 {
        lemma_counters_add_up(w, events.drop_last());
    }
}

/// Whether the workload `w` keeps to a limit of `n` artifacts: before the
/// limit is reached, the artifacts and what is left of the limit are `n`;
/// afterwards the intake is closed, and the artifacts and the fetches under
/// way are no more than `n` and the other engines of the ring.
pub open spec fn keeps_limit<B, V>(w: WorkloadView<B, V>, n: nat) -> bool {
    match w.limit {
        Some(left) => if left > 0 {
            w.results.len() + left == n
        } else {
            w.closed && w.results.len() + w.in_flight() + 1 <= n + w.ring.cap
        },
        None => false,
    }
}

/// The limit holds: in a run of a workload with a limit of `n` artifacts, `n`
/// at least 1, the artifact that is the `n`-th closes the intake, and no more
/// artifacts are collected than `n` and one for every other engine that the
/// ring may hold: those of the fetches that were under way.
pub proof fn lemma_limit_holds<B, V>(w: WorkloadView<B, V>, events: Seq<Event<B, V>>, n: nat)
    requires
        w.wf(),
        w.allows_all(events),
        n >= 1,
        keeps_limit(w, n),
    ensures
        keeps_limit(w.after_all(events), n),
        w.after_all(events).results.len() >= n ==> w.after_all(events).closed,
        w.after_all(events).results.len() + 1 <= n + w.ring.cap || w.after_all(
            events,
        ).results.len() < n,
    decreases events.len(),
{
    lemma_run(w, events);
    lemma_capacity(w, events);
    if events.len() > 0 {
        lemma_limit_holds(w, events.drop_last(), n);
        lemma_run(w, events.drop_last());
        lemma_capacity(w, events.drop_last());
        let before = w.after_all(events.drop_last());
        match events.last() {
            Event::Next { now } => {
                lemma_next_is_total(before, now);
            },
            _ => {},
        }
    }
}

} // verus!
