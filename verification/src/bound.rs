// This Source Code Form is subject to the terms of the Mozilla Public
// License, v. 2.0. If a copy of the MPL was not distributed with this
// file, You can obtain one at https://mozilla.org/MPL/2.0/.

//! Why a crawl of a finite web comes to an end.
//!
//! The work that is left for a crawl is measured against the web that it
//! moves in: the URLs of the web that the frontier has not handed out, the
//! URLs that wait in the retry pool, and the attempts that the retry pool may
//! still grant.  No call on a workload raises this measure, and every fetch
//! that the workload dispatches lowers it.  So a run dispatches no more
//! fetches than the measure said at its start.

use crate::address::bare_texts;
use crate::frontier::FrontierView;
use crate::retry::{lemma_waiting_put, lemma_waiting_take, waiting, Batch, PoolView};
use crate::run::{lemma_run, Event};
use crate::workload::{
    lemma_cleared, lemma_next_is_total, OutcomeView, RetryPolicy, WorkloadView,
};
use vstd::prelude::*;

verus! {

/// The number of URLs that wait in `batches`.
pub open spec fn waiting_retries(batches: Seq<Batch>) -> nat {
    waiting(batches, None)
}

/// The number of attempts for `url` that `pool` may still grant.
pub open spec fn attempts_left(pool: PoolView, url: Seq<char>) -> nat {
    if pool.attempts[url] + 1 < pool.cap {
        (pool.cap - 1 - pool.attempts[url]) as nat
    } else {
        0
    }
}

/// The number of attempts that `pool` may still grant for the URLs of `web`.
pub open spec fn retries_left(pool: PoolView, web: Seq<Seq<char>>) -> nat
    decreases web.len(),
{
    if web.len() == 0 {
        0
    } else {
        retries_left(pool, web.drop_last()) + attempts_left(pool, web.last())
    }
}

/// The work that is left for the workload `w` in the web `web`.
pub open spec fn work_left<B, V>(w: WorkloadView<B, V>, web: Seq<Seq<char>>) -> int {
    web.len() - w.frontier.handed.len() + waiting_retries(w.pool.batches) + retries_left(
        w.pool,
        web,
    )
}

/// Whether every URL of `urls` belongs to the web `web`.
pub open spec fn all_in(urls: Seq<Seq<char>>, web: Seq<Seq<char>>) -> bool {
    forall|i: int| 0 <= i < urls.len() ==> web.contains(#[trigger] urls[i])
}

/// Whether the call `event` brings no URL from outside the web `web`.
pub open spec fn stays_in<B, V>(event: Event<B, V>, web: Seq<Seq<char>>) -> bool {
    match event {
        Event::Start { seed } => all_in(bare_texts(seed), web),
        Event::Complete { outcome, .. } => match outcome {
            OutcomeView::Page { urls, .. } => all_in(urls, web),
            OutcomeView::Timeout { url } => web.contains(url),
            OutcomeView::Failure => true,
        },
        _ => true,
    }
}

/// Whether none of `events` brings a URL from outside the web `web`.
pub open spec fn all_stay_in<B, V>(events: Seq<Event<B, V>>, web: Seq<Seq<char>>) -> bool {
    forall|i: int| 0 <= i < events.len() ==> stays_in(#[trigger] events[i], web)
}

/// Whether the call `event` on the workload `w` makes it dispatch a fetch.
pub open spec fn dispatches<B, V>(w: WorkloadView<B, V>, event: Event<B, V>) -> bool {
    match event {
        Event::Next { now } => w.next_action(now) is Dispatch,
        _ => false,
    }
}

/// The number of fetches that the workload `w` dispatches in the run
/// `events`.
pub open spec fn fetches<B, V>(w: WorkloadView<B, V>, events: Seq<Event<B, V>>) -> nat
    decreases events.len(),
{
    if events.len() == 0 {
        0
    } else if dispatches(w.after_all(events.drop_last()), events.last()) {
        fetches(w, events.drop_last()) + 1
    } else {
        fetches(w, events.drop_last())
    }
}

/// The attempts that are left depend on the counters and the cap alone.
proof fn lemma_retries_left_same(a: PoolView, b: PoolView, web: Seq<Seq<char>>)
    requires
        a.attempts == b.attempts,
        a.cap == b.cap,
    ensures
        retries_left(a, web) == retries_left(b, web),
    decreases web.len(),
{
    if web.len() > 0 {
        lemma_retries_left_same(a, b, web.drop_last());
    }
}

/// An attempt that is asked for leaves no more attempts than there were,
/// and fewer where it is granted for a URL of the web.
proof fn lemma_retries_left_kept(pool: PoolView, url: Seq<char>, now: nat, web: Seq<Seq<char>>)
    requires
        pool.wf(),
    ensures
        retries_left(pool.keep(url, now), web) <= retries_left(pool, web),
        pool.grants(url) && web.contains(url) ==> retries_left(pool.keep(url, now), web)
            < retries_left(pool, web),
    decreases web.len(),
{
    if web.len() > 0 {
        lemma_retries_left_kept(pool, url, now, web.drop_last());
        let last = web.last();
        if web.contains(url) && last != url {
            let k = choose|k: int| 0 <= k < web.len() && web[k] == url;
            assert(web.drop_last()[k] == url);
        }
    }
}

/// URLs of the web that are offered leave the frontier within the web.
proof fn lemma_kept_within(
    f: FrontierView,
    urls: Seq<Seq<char>>,
    hold: bool,
    web: Seq<Seq<char>>,
)
    requires
        f.seen.subset_of(web.to_set()),
        all_in(urls, web),
    ensures
        f.keep_all(urls, hold).seen.subset_of(web.to_set()),
        f.keep_all(urls, hold).handed == f.handed,
    decreases urls.len(),
{
    if urls.len() > 0 {
        assert(all_in(urls.drop_last(), web)) by {
            assert forall|i: int| 0 <= i < urls.drop_last().len() implies web.contains(
                #[trigger] urls.drop_last()[i],
            ) by {
                assert(urls.drop_last()[i] == urls[i]);
            }
        }
        lemma_kept_within(f, urls.drop_last(), hold, web);
        assert(web.contains(urls[urls.len() - 1]));
    }
}

/// One call: it raises the work that is left by nothing, lowers it where it
/// makes the workload dispatch a fetch, and leaves the workload within the
/// web.
pub proof fn lemma_work_step<B, V>(w: WorkloadView<B, V>, event: Event<B, V>, web: Seq<Seq<char>>)
    requires
        w.wf(),
        w.allows(event),
        stays_in(event, web),
        w.frontier.seen.subset_of(web.to_set()),
    ensures
        w.after(event).frontier.seen.subset_of(web.to_set()),
        work_left(w.after(event), web) <= work_left(w, web),
        dispatches(w, event) ==> work_left(w.after(event), web) < work_left(w, web),
{
    match event {
        Event::Start { seed } => {
            lemma_kept_within(w.frontier, bare_texts(seed), w.use_robots, web);
        },
        Event::Next { now } => {
            lemma_next_is_total(w, now);
            lemma_cleared(w.frontier, w.robots, w.robot);
            let s = w.settled();
            if w.next_action(now) is Dispatch {
                if s.retries_next(now) {
                    let force = s.frontier.stack.len() == 0;
                    lemma_waiting_take(s.pool, force, now, None);
                    lemma_retries_left_same(s.pool.take(force, now), s.pool, web);
                }
            }
        },
        Event::Complete { engine, outcome, now } => {
            match outcome {
                OutcomeView::Page { urls, data } => {
                    lemma_kept_within(w.frontier, urls, w.use_robots, web);
                },
                OutcomeView::Timeout { url } => {
                    if w.policy != RetryPolicy::No {
                        lemma_retries_left_kept(w.pool, url, now, web);
                        if w.pool.grants(url) {
                            lemma_waiting_put(w.pool.batches, now, url, None);
                        }
                    }
                },
                OutcomeView::Failure => {},
            }
        },
        Event::Cancel => {},
        Event::RobotsFetched { file } => {},
        Event::EngineBuilt { engine } => {},
        Event::BuildFailed => {},
    }
}

/// The end of work: in a run that stays within a finite web, the fetches that
/// are dispatched and the work that is left afterwards are together no more
/// than the work that was left before; and the work that is left is never
/// less than nothing.  The fetches of a run are therefore no more than the
/// work that is left at its start.
pub proof fn lemma_fetches_bounded<B, V>(
    w: WorkloadView<B, V>,
    events: Seq<Event<B, V>>,
    web: Seq<Seq<char>>,
)
    requires
        w.wf(),
        w.allows_all(events),
        all_stay_in(events, web),
        web.no_duplicates(),
        w.frontier.seen.subset_of(web.to_set()),
    ensures
        w.after_all(events).frontier.seen.subset_of(web.to_set()),
        fetches(w, events) + work_left(w.after_all(events), web) <= work_left(w, web),
        0 <= work_left(w.after_all(events), web),
        fetches(w, events) <= work_left(w, web),
    decreases events.len(),
{
    if events.len() > 0 {
        let before = events.drop_last();
        assert(all_stay_in(before, web)) by {
            assert forall|i: int| 0 <= i < before.len() implies stays_in(
                #[trigger] before[i],
                web,
            ) by {
                assert(before[i] == events[i]);
            }
        }
        lemma_fetches_bounded(w, before, web);
        lemma_run(w, before);
        assert(stays_in(events[events.len() - 1], web));
        lemma_work_step(w.after_all(before), events.last(), web);
    }
    lemma_run(w, events);
    let state = w.after_all(events);
    let handed = state.frontier.handed;
    handed.unique_seq_to_set();
    web.unique_seq_to_set();
    assert(handed.to_set().subset_of(web.to_set())) by {
        assert forall|u: Seq<char>| handed.to_set().contains(u) implies web.to_set().contains(
            u,
        ) by {
            assert(handed.contains(u));
            assert(state.frontier.seen.contains(u));
        }
    }
    vstd::set_lib::lemma_len_subset(handed.to_set(), web.to_set());
}

/// The work that is left for a workload that has handed out nothing, holds
/// no retry and has counted no attempt: each URL of the web once, and as
/// often again as the retry pool grants attempts for one URL.
pub proof fn lemma_work_at_start<B, V>(w: WorkloadView<B, V>, web: Seq<Seq<char>>)
    requires
        w.frontier.handed.len() == 0,
        w.pool.batches.len() == 0,
        forall|url: Seq<char>| w.pool.attempts[url] == 0,
    ensures
        work_left(w, web) == web.len() + web.len() * attempts_granted(w.pool.cap),
    decreases web.len(),
{
    if web.len() > 0 {
        lemma_work_at_start(w, web.drop_last());
        let n = web.len() as int;
        let c = attempts_granted(w.pool.cap) as int;
        assert((n - 1) * c + c == n * c) by (nonlinear_arith);
    }
}

/// The number of attempts that a retry pool with the cap `cap` grants for
/// one URL.
pub open spec fn attempts_granted(cap: nat) -> nat {
    if cap > 0 {
        (cap - 1) as nat
    } else {
        0
    }
}

} // verus!
