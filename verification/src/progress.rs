// This Source Code Form is subject to the terms of the Mozilla Public
// License, v. 2.0. If a copy of the MPL was not distributed with this
// file, You can obtain one at https://mozilla.org/MPL/2.0/.

//! Why the caller of a workload comes to the end.
//!
//! Whatever a workload tells its caller to do, the caller can do, and what it
//! reports afterwards lowers what is left to do: a fetch that is dispatched,
//! a fetch that has come to its end, an engine that was built, a robots file
//! that was fetched.  What is left to do is a number that is never less than
//! nothing, so in a finite web a caller that does as it is told, and whose
//! fetches all return, is told after finitely many steps that it is finished.

use crate::address::bare_texts;
use crate::bound::{all_stay_in, lemma_fetches_bounded, lemma_work_step, stays_in, work_left};
use crate::frontier::FrontierView;
use crate::retry::one_if;
use crate::run::{lemma_run, lemma_step, Event};
use crate::workload::{lemma_cleared, lemma_next_is_total, OutcomeView, WorkloadView};
use vstd::prelude::*;

verus! {

/// What is left to do for the workload `w` in the web `web`: the work that is
/// left, counted twice; the fetches that are under way; the engines that may
/// still be built; the URLs that wait for a clearance; and the URLs of the
/// web that were not seen.
pub open spec fn to_do<B, V>(w: WorkloadView<B, V>, web: Seq<Seq<char>>) -> int {
    2 * work_left(w, web) + w.in_flight() + (w.ring.cap - w.ring.built())
        + w.frontier.waiting.len() + (web.len() - w.frontier.seen.len())
}

/// Whether the call `event` on the workload `w` is a step of the crawl: a
/// fetch is dispatched, a fetch has come to its end, an engine was built, or
/// the robots file for a URL that waits was fetched.
pub open spec fn is_step<B, V>(w: WorkloadView<B, V>, event: Event<B, V>) -> bool {
    match event {
        Event::Next { now } => w.next_action(now) is Dispatch,
        Event::Complete { .. } => true,
        Event::EngineBuilt { .. } => true,
        Event::RobotsFetched { .. } => w.frontier.waiting.len() > 0,
        _ => false,
    }
}

/// The number of steps in the run `events` of the workload `w`.
pub open spec fn steps<B, V>(w: WorkloadView<B, V>, events: Seq<Event<B, V>>) -> nat
    decreases events.len(),
{
    if events.len() == 0 {
        0
    } else {
        steps(w, events.drop_last()) + one_if(
            is_step(w.after_all(events.drop_last()), events.last()),
        )
    }
}

/// URLs that are offered to a frontier within a finite web: what waits grows
/// by no more than what is seen.
proof fn lemma_kept_counts(f: FrontierView, urls: Seq<Seq<char>>, hold: bool, web: Set<Seq<char>>)
    requires
        web.finite(),
        f.keep_all(urls, hold).seen.subset_of(web),
    ensures
        f.seen.subset_of(f.keep_all(urls, hold).seen),
        f.keep_all(urls, hold).waiting.len() + f.seen.len() <= f.waiting.len() + f.keep_all(
            urls,
            hold,
        ).seen.len(),
    decreases urls.len(),
{
    if urls.len() > 0 {
        let before = f.keep_all(urls.drop_last(), hold);
        let after = before.keep(urls.last(), hold);
        assert(before.seen.subset_of(after.seen));
        lemma_kept_counts(f, urls.drop_last(), hold, web);
        vstd::set_lib::lemma_len_subset(before.seen, web);
    }
}

/// Every call that a workload tells its caller to make can be made, and is
/// a step: where it says to build, the ring has room; where it says to fetch
/// a robots file, a URL waits for it; where it says to wait, a fetch is under
/// way.
pub proof fn lemma_told_what_can_be_done<B, V>(w: WorkloadView<B, V>, now: nat)
    requires
        w.wf(),
    ensures
        w.next_action(now) is Build ==> w.after_next(now).ring.built() < w.ring.cap,
        w.next_action(now) is FetchRobots ==> w.after_next(now).frontier.waiting.len() > 0,
        w.next_action(now) is Wait ==> w.after_next(now).in_flight() > 0,
        w.next_action(now) is Dispatch ==> w.after_next(now).in_flight() > 0,
{
    lemma_next_is_total(w, now);
    lemma_step(w, Event::Next { now });
    let s = w.settled();
    if w.next_action(now) is Dispatch {
        assert(s.ring.out().in_use.contains(s.ring.idle.last().slot()));
    }
}

/// One call lowers what is left to do where it is a step, and raises it
/// never.
pub proof fn lemma_to_do_step<B, V>(w: WorkloadView<B, V>, event: Event<B, V>, web: Seq<Seq<char>>)
    requires
        w.wf(),
        w.allows(event),
        stays_in(event, web),
        web.no_duplicates(),
        w.frontier.seen.subset_of(web.to_set()),
    ensures
        w.after(event).frontier.seen.subset_of(web.to_set()),
        to_do(w.after(event), web) <= to_do(w, web),
        is_step(w, event) ==> to_do(w.after(event), web) < to_do(w, web),
{
    lemma_work_step(w, event, web);
    lemma_step(w, event);
    web.unique_seq_to_set();
    let after = w.after(event);
    vstd::set_lib::lemma_len_subset(w.frontier.seen, web.to_set());
    vstd::set_lib::lemma_len_subset(after.frontier.seen, web.to_set());
    match event {
        Event::Start { seed } => {
            lemma_kept_counts(w.frontier, bare_texts(seed), w.use_robots, web.to_set());
        },
        Event::Next { now } => {
            lemma_next_is_total(w, now);
            lemma_cleared(w.frontier, w.robots, w.robot);
            let s = w.settled();
            if w.next_action(now) is Dispatch {
                assert(s.ring.idle[s.ring.idle.len() - 1] == s.ring.idle.last());
                assert(!s.ring.in_use.contains(s.ring.idle.last().slot()));
            }
        },
        Event::Complete { engine, outcome, now } => {
            match outcome {
                OutcomeView::Page { urls, data } => {
                    lemma_kept_counts(w.frontier, urls, w.use_robots, web.to_set());
                },
                OutcomeView::Timeout { url } => {
                    vstd::set_lib::lemma_len_subset(w.frontier.seen, after.frontier.seen);
                },
                OutcomeView::Failure => {},
            }
        },
        Event::Cancel => {},
        Event::RobotsFetched { file } => {},
        Event::EngineBuilt { engine } => {},
        Event::BuildFailed => {},
    }
}

/// The way to the end: in a run that stays within a finite web, the steps
/// that were made and what is left to do afterwards are together no more than
/// what was left to do before, and what is left to do is never less than
/// nothing.  A run has therefore no more steps than what is left to do at its
/// start.
pub proof fn lemma_steps_bounded<B, V>(
    w: WorkloadView<B, V>,
    events: Seq<Event<B, V>>,
    web: Seq<Seq<char>>,
)
    requires
        w.wf(),
        w.allows_all(events),
        all_stay_in(events, web),
        web.no_duplicates(),
        w.frontier.seen.subset_of(web.to_set()),
    ensures
        w.after_all(events).frontier.seen.subset_of(web.to_set()),
        steps(w, events) + to_do(w.after_all(events), web) <= to_do(w, web),
        0 <= to_do(w.after_all(events), web),
        steps(w, events) <= to_do(w, web),
    decreases events.len(),
{
    if events.len() > 0 {
        let before = events.drop_last();
        assert(all_stay_in(before, web)) by {
            assert forall|i: int| 0 <= i < before.len() implies stays_in(
                #[trigger] before[i],
                web,
            ) by {
                assert(before[i] == events[i]);
            }
        }
        lemma_steps_bounded(w, before, web);
        lemma_run(w, before);
        assert(stays_in(events[events.len() - 1], web));
        lemma_to_do_step(w.after_all(before), events.last(), web);
    }
    lemma_run(w, events);
    lemma_fetches_bounded(w, events, web);
    web.unique_seq_to_set();
    vstd::set_lib::lemma_len_subset(w.after_all(events).frontier.seen, web.to_set());
}

} // verus!
