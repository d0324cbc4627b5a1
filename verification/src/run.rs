// This Source Code Form is subject to the terms of the Mozilla Public
// License, v. 2.0. If a copy of the MPL was not distributed with this
// file, You can obtain one at https://mozilla.org/MPL/2.0/.

//! Runs of a workload, and what holds of every run.
//!
//! A run is a sequence of the calls that a caller makes on a workload.  The
//! statements of this module hold of every run that keeps to the workload's
//! preconditions, whatever the backends answer and in whatever order the
//! fetches complete.

use crate::address::bare_texts;
use crate::engine::Engine;
use crate::engine_ring::{lemma_ring_back, lemma_ring_grows, lemma_ring_out};
use crate::frontier::{
    lemma_keep_all_seen, lemma_keep_all_unheld, lemma_keep_all_wf, lemma_pop_wf, lemma_release_wf,
};
use crate::retry::{lemma_calls_keep_wf, PoolCall, PoolView};
use crate::workload::{
    lemma_cleared, lemma_next_is_total, ActionView, OutcomeView, RetryPolicy, WorkloadView,
};
use vstd::prelude::*;

verus! {

/// One call on a workload.
pub enum Event<B, V> {
    /// The seed URLs are offered; they enter without their fragments.
    Start { seed: Seq<Seq<char>> },
    /// The caller asks what to do at the moment `now`.
    Next { now: nat },
    /// The fetch on `engine` came to an end at the moment `now`.
    Complete { engine: Engine<B>, outcome: OutcomeView<V>, now: nat },
    /// The crawl is cancelled.
    Cancel,
    /// A robots file was fetched, or could not be.
    RobotsFetched { file: Option<Seq<u8>> },
    /// An engine was built; `engine` is what it is in the ring.
    EngineBuilt { engine: Engine<B> },
    /// No engine could be built.
    BuildFailed,
}

impl<B, V> WorkloadView<B, V> {
    /// Whether the call `event` keeps to the preconditions of the workload.
    pub open spec fn allows(self, event: Event<B, V>) -> bool {
        match event {
            Event::Complete { engine, .. } => self.ring.in_use.contains(engine.slot()),
            Event::EngineBuilt { engine } => self.ring.built() < self.ring.cap && engine.slot()
                == self.ring.built(),
            _ => true,
        }
    }

    /// The workload after the call `event`.
    pub open spec fn after(self, event: Event<B, V>) -> Self {
        match event {
            Event::Start { seed } => self.seeded(seed),
            Event::Next { now } => self.after_next(now),
            Event::Complete { engine, outcome, now } => self.completed(engine, outcome, now),
            Event::Cancel => WorkloadView { closed: true, ..self },
            Event::RobotsFetched { file } => self.informed(file),
            Event::EngineBuilt { engine } => WorkloadView { ring: self.ring.grown(engine), ..self },
            Event::BuildFailed => WorkloadView { failed: true, ..self },
        }
    }

    /// Whether each of `events`, made in this order, keeps to the
    /// preconditions.
    pub open spec fn allows_all(self, events: Seq<Event<B, V>>) -> bool
        decreases events.len(),
    {
        events.len() > 0 ==> self.allows_all(events.drop_last()) && self.after_all(
            events.drop_last(),
        ).allows(events.last())
    }

    /// The workload after `events`, made in this order.
    pub open spec fn after_all(self, events: Seq<Event<B, V>>) -> Self
        decreases events.len(),
    {
        if events.len() == 0 {
            self
        } else {
            self.after_all(events.drop_last()).after(events.last())
        }
    }
}

/// The pool stays well-formed under one call.
proof fn lemma_pool_step(pool: PoolView, call: PoolCall)
    requires
        pool.wf(),
    ensures
        pool.after(call).wf(),
{
    lemma_calls_keep_wf(pool, seq![call]);
    assert(seq![call].drop_last() =~= Seq::<PoolCall>::empty());
    assert(pool.after_all(seq![call].drop_last()) == pool);
}

/// Every call that keeps to the preconditions keeps the invariant.
pub proof fn lemma_step<B, V>(w: WorkloadView<B, V>, event: Event<B, V>)
    requires
        w.wf(),
        w.allows(event),
    ensures
        w.after(event).wf(),
{
    match event {
        Event::Start { seed } => {
            lemma_keep_all_wf(w.frontier, bare_texts(seed), w.use_robots);
            lemma_keep_all_unheld(w.frontier, bare_texts(seed));
        },
        Event::Next { now } => {
            lemma_next_is_total(w, now);
            let s = w.settled();
            if w.next_action(now) is Dispatch {
                lemma_ring_out(s.ring);
                if s.retries_next(now) {
                    lemma_pool_step(
                        s.pool,
                        PoolCall::Get { force: s.frontier.stack.len() == 0, now },
                    );
                } else {
                    lemma_pop_wf(s.frontier);
                }
            }
        },
        Event::Complete { engine, outcome, now } => {
            lemma_ring_back(w.ring, engine);
            match outcome {
                OutcomeView::Page { urls, data } => {
                    lemma_keep_all_wf(w.frontier, urls, w.use_robots);
                    lemma_keep_all_unheld(w.frontier, urls);
                },
                OutcomeView::Timeout { url } => {
                    lemma_pool_step(w.pool, PoolCall::Keep { url, now });
                },
                OutcomeView::Failure => {},
            }
        },
        Event::Cancel => {},
        Event::RobotsFetched { file } => {
            if w.frontier.waiting.len() > 0 {
                lemma_release_wf(w.frontier, true);
                lemma_release_wf(w.frontier, false);
            }
        },
        Event::EngineBuilt { engine } => {
            lemma_ring_grows(w.ring, engine);
        },
        Event::BuildFailed => {},
    }
}

/// The invariant holds throughout every run.
pub proof fn lemma_run<B, V>(w: WorkloadView<B, V>, events: Seq<Event<B, V>>)
    requires
        w.wf(),
        w.allows_all(events),
    ensures
        w.after_all(events).wf(),
    decreases events.len(),
{
    if events.len() > 0 {
        lemma_run(w, events.drop_last());
        lemma_step(w.after_all(events.drop_last()), events.last());
    }
}

/// Capacity: at every point of every run, no more fetches are under way than
/// the ring has room for.
pub proof fn lemma_capacity<B, V>(w: WorkloadView<B, V>, events: Seq<Event<B, V>>)
    requires
        w.wf(),
        w.allows_all(events),
    ensures
        w.after_all(events).in_flight() <= w.after_all(events).ring.cap,
        w.after_all(events).ring.cap == w.ring.cap,
    decreases events.len(),
{
    lemma_run(w, events);
    if events.len() > 0 {
        lemma_capacity(w, events.drop_last());
    }
}

/// Deduplication: at every point of every run, the URLs that the frontier has
/// handed out are pairwise different, and a URL that the workload dispatches
/// from the frontier was never handed out before.  Only the retry pool gives a
/// URL out again.
pub proof fn lemma_dispatched_once<B, V>(
    w: WorkloadView<B, V>,
    events: Seq<Event<B, V>>,
    now: nat,
)
    requires
        w.wf(),
        w.allows_all(events),
    ensures
        w.after_all(events).frontier.handed.no_duplicates(),
        ({
            let state = w.after_all(events);
            match state.next_action(now) {
                ActionView::Dispatch { url: fetched, .. } => !state.settled().retries_next(now)
                    ==> {
                    &&& !state.frontier.handed.contains(fetched)
                    &&& state.after_next(now).frontier.handed == state.frontier.handed.push(
                        fetched,
                    )
                },
                _ => true,
            }
        }),
{
    lemma_run(w, events);
    let state = w.after_all(events);
    lemma_next_is_total(state, now);
    lemma_cleared(state.frontier, state.robots, state.robot);
    let s = state.settled();
    if state.next_action(now) is Dispatch && !s.retries_next(now) {
        assert(s.frontier.stack.contains(s.frontier.stack.last())) by {
            assert(s.frontier.stack[s.frontier.stack.len() - 1] == s.frontier.stack.last());
        }
    }
}

/// A closed intake stays closed, a failure stays a failure, and a void crawl
/// stays void, throughout every run.
pub proof fn lemma_closed_for_good<B, V>(w: WorkloadView<B, V>, events: Seq<Event<B, V>>)
    ensures
        w.closed ==> w.after_all(events).closed,
        w.failed ==> w.after_all(events).failed,
        w.void ==> w.after_all(events).void,
    decreases events.len(),
{
    if events.len() > 0 {
        lemma_closed_for_good(w, events.drop_last());
    }
}

/// The limit: the artifact that reaches the limit closes the intake.
pub proof fn lemma_limit_closes<B, V>(
    w: WorkloadView<B, V>,
    engine: Engine<B>,
    urls: Seq<Seq<char>>,
    artifact: V,
    now: nat,
)
    requires
        w.limit_hit(),
    ensures
        w.completed(engine, OutcomeView::Page { urls, data: Some(artifact) }, now).closed,
        w.completed(
            engine,
            OutcomeView::Page { urls, data: Some(artifact) },
            now,
        ).results == w.results.push(artifact),
{
}

/// Once the intake is closed, by the limit or by a cancellation, nothing new
/// is started at any later point of any run: the caller is told to wait while
/// fetches are under way, and that it is finished once none is; no URL leaves
/// the frontier or the retry pool, and no engine is lent out.
pub proof fn lemma_closed_starts_nothing<B, V>(
    w: WorkloadView<B, V>,
    events: Seq<Event<B, V>>,
    now: nat,
)
    requires
        w.closed,
    ensures
        ({
            let state = w.after_all(events);
            &&& state.after_next(now) == state
            &&& state.next_action(now) == if !state.over() && state.in_flight() > 0 {
                ActionView::<B>::Wait
            } else {
                ActionView::<B>::Finished
            }
        }),
{
    lemma_closed_for_good(w, events);
}

/// The end: a workload that is not over tells its caller that it is finished
/// only when no fetch is under way; and where the intake is still open and the
/// ring has room for an engine at all, only when, besides, no URL is left on
/// the stack, among the waiting, or, with retries on, in the retry pool.
pub proof fn lemma_finished_is_drained<B, V>(w: WorkloadView<B, V>, now: nat)
    requires
        w.wf(),
        !w.over(),
        w.next_action(now) is Finished,
    ensures
        w.in_flight() == 0,
        !w.closed && w.ring.cap > 0 ==> {
            &&& w.after_next(now).frontier.stack.len() == 0
            &&& w.after_next(now).frontier.waiting.len() == 0
            &&& w.policy != RetryPolicy::No ==> w.pool.batches.len() == 0
        },
{
    lemma_next_is_total(w, now);
    let s = w.settled();
}

/// What a workload has seen stays seen throughout every run.
pub proof fn lemma_seen_for_good<B, V>(w: WorkloadView<B, V>, events: Seq<Event<B, V>>)
    requires
        w.wf(),
        w.allows_all(events),
    ensures
        w.frontier.seen.subset_of(w.after_all(events).frontier.seen),
    decreases events.len(),
{
    if events.len() > 0 {
        lemma_seen_for_good(w, events.drop_last());
        lemma_run(w, events.drop_last());
        let before = w.after_all(events.drop_last());
        match events.last() {
            Event::Start { seed } => {
                lemma_keep_all_seen(before.frontier, bare_texts(seed), before.use_robots);
            },
            Event::Next { now } => {
                lemma_cleared(before.frontier, before.robots, before.robot);
            },
            Event::Complete { engine, outcome, now } => {
                match outcome {
                    OutcomeView::Page { urls, data } => {
                        lemma_keep_all_seen(before.frontier, urls, before.use_robots);
                    },
                    _ => {},
                }
            },
            _ => {},
        }
    }
}

/// A URL that is given up stays given up: when the retry pool refuses the
/// attempt for a URL whose fetch timed out, the URL is marked as visited, and
/// at no later point of any run does it enter the frontier again, whoever
/// links to it.
pub proof fn lemma_given_up_for_good<B, V>(
    w: WorkloadView<B, V>,
    engine: Engine<B>,
    url: Seq<char>,
    now: nat,
    events: Seq<Event<B, V>>,
)
    requires
        w.wf(),
        w.ring.in_use.contains(engine.slot()),
        w.policy != RetryPolicy::No,
        !w.pool.grants(url),
        w.completed(engine, OutcomeView::Timeout { url }, now).allows_all(events),
    ensures
        ({
            let given_up = w.completed(engine, OutcomeView::Timeout { url }, now);
            let later = given_up.after_all(events);
            &&& given_up.pool.batches == w.pool.batches
            &&& later.frontier.seen.contains(url)
            &&& later.frontier.keep(url, later.use_robots) == later.frontier
        }),
{
    let given_up = w.completed(engine, OutcomeView::Timeout { url }, now);
    lemma_step(w, Event::Complete { engine, outcome: OutcomeView::Timeout { url }, now });
    lemma_seen_for_good(given_up, events);
}

/// Nothing to start from: a workload that is started with no seed is over,
/// whatever its retry pool and its ring hold.  At every later point of every
/// run it tells its caller that it is finished, and never to fetch, to build
/// an engine, to fetch a robots file or to wait; asking leaves it as it is.
pub proof fn lemma_no_seed_no_work<B, V>(
    w: WorkloadView<B, V>,
    events: Seq<Event<B, V>>,
    now: nat,
)
    ensures
        ({
            let state = w.seeded(Seq::empty()).after_all(events);
            &&& state.over()
            &&& state.next_action(now) == ActionView::<B>::Finished
            &&& state.after_next(now) == state
        }),
{
    lemma_closed_for_good(w.seeded(Seq::empty()), events);
}

} // verus!
