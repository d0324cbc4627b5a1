// This Source Code Form is subject to the terms of the Mozilla Public
// License, v. 2.0. If a copy of the MPL was not distributed with this
// file, You can obtain one at https://mozilla.org/MPL/2.0/.

//! The control loop of a crawl, as a machine that the caller drives.
//!
//! The workload owns all the state of a crawl: the frontier, the retry pool,
//! the ring of engines, the cache of robots rules, the results and the
//! statistics.  It performs no fetch and waits for nothing.  The caller asks
//! [`Workload::next`] what to do, does it, and reports what came of it:
//!
//! * [`Action::Dispatch`]: run the fetch, then [`Workload::complete`];
//! * [`Action::Build`]: build an engine, then [`Workload::engine_built`] or
//!   [`Workload::build_failed`];
//! * [`Action::FetchRobots`]: fetch the robots file, then
//!   [`Workload::robots_fetched`];
//! * [`Action::Wait`]: wait for a fetch to complete, or for a cancellation
//!   ([`Workload::cancel`]);
//! * [`Action::Finished`]: take the results with [`Workload::finish`].

use crate::address::{bare_texts, strip_fragments, url_domain, url_path, url_texts, Url};
use crate::engine::{BackendError, Engine, EngineId};
use crate::engine_ring::{EngineRing, RingView};
use crate::frontier::{
    empty_frontier, lemma_keep_all_unheld, lemma_keep_all_wf, lemma_pop_wf, lemma_release_wf,
    Frontier, FrontierView,
};
use crate::retry::{PoolView, RetryPool};
use crate::robots::{learned, permits, verdict, RobotsMap, Verdict, VerdictView};
use vstd::prelude::*;

verus! {

/// What becomes of a URL whose fetch timed out.
#[derive(Debug, Clone, Copy, PartialEq, Eq, Structural)]
pub enum RetryPolicy {
    /// It is tried again, and before new URLs once it has cooled down.
    RetryFirst,
    /// It is tried again, once no new URL is left.
    RetryLast,
    /// It is given up.
    No,
}

/// The counters of a crawl.  None of them ever decreases.
#[derive(Debug, Clone, Copy, PartialEq, Eq, Structural)]
pub struct Statistics {
    /// The fetches that failed for good.
    pub count_errors: usize,
    /// The fetches that timed out while retries are on.
    pub count_retries: usize,
    /// The fetches that came to an end, whichever.
    pub count_visited: usize,
    /// The fetches that produced an artifact.
    pub count_collected: usize,
}

impl Default for Statistics {
    fn default() -> (r: Self)
        ensures
            r == zero_statistics(),
    {
        Statistics { count_errors: 0, count_retries: 0, count_visited: 0, count_collected: 0 }
    }
}

/// The counters of a crawl that has done nothing.
pub open spec fn zero_statistics() -> Statistics {
    Statistics { count_errors: 0, count_retries: 0, count_visited: 0, count_collected: 0 }
}

/// `n` and one more, as far as a counter goes.
pub open spec fn bump(n: usize) -> usize {
    if n < usize::MAX {
        (n + 1) as usize
    } else {
        n
    }
}

fn bumped(n: usize) -> (r: usize)
    ensures
        r == bump(n),
{
    if n < usize::MAX {
        n + 1
    } else {
        n
    }
}

/// What the caller of a workload has to do next.
#[derive(Debug)]
pub enum Action<B> {
    /// Fetch `url` on `engine`.
    Dispatch { engine: Engine<B>, url: Url },
    /// Build a new engine.
    Build,
    /// Fetch the robots file that lies at `url`.
    FetchRobots { url: Url },
    /// Wait until a fetch completes or the crawl is cancelled.
    Wait,
    /// Nothing is left to do.
    Finished,
}

/// An action as a mathematical value.
pub enum ActionView<B> {
    Dispatch { engine: Engine<B>, url: Seq<char> },
    Build,
    FetchRobots { url: Seq<char> },
    Wait,
    Finished,
}

impl<B> View for Action<B> {
    type V = ActionView<B>;

    open spec fn view(&self) -> ActionView<B> {
        match self {
            Action::Dispatch { engine, url } => ActionView::Dispatch { engine: *engine, url: url@ },
            Action::Build => ActionView::Build,
            Action::FetchRobots { url } => ActionView::FetchRobots { url: url@ },
            Action::Wait => ActionView::Wait,
            Action::Finished => ActionView::Finished,
        }
    }
}

/// A workload as a mathematical value.
pub struct WorkloadView<B, V> {
    pub frontier: FrontierView,
    pub pool: PoolView,
    pub ring: RingView<B>,
    /// The robots files at hand, by domain and robot.
    pub robots: Map<(Seq<char>, Seq<char>), Seq<u8>>,
    pub policy: RetryPolicy,
    /// The artifacts that may still be collected before the intake closes;
    /// `None` where their number is not limited.
    pub limit: Option<nat>,
    /// Whether new URLs have to be cleared by the robots rules.
    pub use_robots: bool,
    /// The robot's name.
    pub robot: Seq<char>,
    /// Whether the intake is closed: no fetch is dispatched any more.
    pub closed: bool,
    /// Whether an engine could not be built.
    pub failed: bool,
    /// Whether the workload was started with no URL to start from.  Such a
    /// crawl is over before it begins.
    pub void: bool,
    /// The artifacts collected so far, in the order of their arrival.
    pub results: Seq<V>,
    pub stats: Statistics,
}

/// The outcome of a fetch as a mathematical value.
pub enum OutcomeView<V> {
    /// The page was read: its links, and its artifact if it has one.
    Page { urls: Seq<Seq<char>>, data: Option<V> },
    /// The fetch of `url` timed out.
    Timeout { url: Seq<char> },
    /// The fetch failed otherwise.
    Failure,
}

/// The outcome of a fetch as a mathematical value.
pub open spec fn outcome_view<V>(outcome: Result<(Vec<Url>, Option<V>), BackendError>) -> OutcomeView<
    V,
> {
    match outcome {
        Ok((urls, data)) => OutcomeView::Page { urls: url_texts(urls@), data },
        Err(e) => if e.timed_out() && e.failed_url().is_some() {
            OutcomeView::Timeout { url: e.failed_url().unwrap() }
        } else {
            OutcomeView::Failure
        },
    }
}

/// The frontier after its waiting URLs were cleared as far as the robots files
/// at hand decide: the URL that waited longest is cleared or refused, then the
/// next one, until one needs a file that is not at hand.  A URL whose
/// robots file has no place is refused.
pub open spec fn cleared(
    frontier: FrontierView,
    robots: Map<(Seq<char>, Seq<char>), Seq<u8>>,
    robot: Seq<char>,
) -> FrontierView
    decreases frontier.waiting.len(),
{
    if frontier.waiting.len() == 0 {
        frontier
    } else {
        match verdict(robots, robot, frontier.waiting.first()) {
            VerdictView::Known(allowed) => cleared(frontier.release(allowed), robots, robot),
            VerdictView::Unreachable => cleared(frontier.release(false), robots, robot),
            VerdictView::Fetch(_) => frontier,
        }
    }
}

impl<B, V> WorkloadView<B, V> {
    /// The invariant of a workload.
    pub open spec fn wf(self) -> bool {
        &&& self.frontier.wf()
        &&& self.pool.wf()
        &&& self.ring.wf()
        &&& self.stats.count_collected == if self.results.len() < usize::MAX {
            self.results.len()
        } else {
            usize::MAX as nat
        }
        &&& !self.use_robots ==> self.frontier.waiting.len() == 0
    }

    /// The workload after the seed URLs `seed` were offered to it, each
    /// without its fragment.  A start with no seed at all makes the crawl
    /// void.
    pub open spec fn seeded(self, seed: Seq<Seq<char>>) -> Self {
        WorkloadView {
            frontier: self.frontier.keep_all(bare_texts(seed), self.use_robots),
            void: self.void || seed.len() == 0,
            ..self
        }
    }

    /// Whether the crawl is over whatever is left to do: an engine could not
    /// be built, or there was nothing to start from.  Such a crawl is finished
    /// at once, with no results and with counters at zero.
    pub open spec fn over(self) -> bool {
        self.failed || self.void
    }

    /// The number of fetches that are under way.
    pub open spec fn in_flight(self) -> nat {
        self.ring.in_use.len()
    }

    /// Whether a URL can be had for a fetch.
    pub open spec fn available(self) -> bool {
        self.frontier.stack.len() > 0 || (self.policy != RetryPolicy::No
            && self.pool.batches.len() > 0)
    }

    /// Whether the next URL comes from the retry pool at the moment `now`.
    pub open spec fn retries_next(self, now: nat) -> bool {
        match self.policy {
            RetryPolicy::No => false,
            RetryPolicy::RetryFirst => self.pool.ready(self.frontier.stack.len() == 0, now),
            RetryPolicy::RetryLast => self.frontier.stack.len() == 0 && self.pool.ready(true, now),
        }
    }

    /// The URL that is fetched next at the moment `now`.  With retries first,
    /// a URL of the retry pool goes before the new ones once it has cooled
    /// down, and at once where no new one is left; with retries last, the new
    /// ones go first.
    pub open spec fn pick(self, now: nat) -> Option<Seq<char>> {
        if self.retries_next(now) {
            self.pool.next(self.frontier.stack.len() == 0, now)
        } else if self.frontier.stack.len() > 0 {
            Some(self.frontier.stack.last())
        } else {
            None
        }
    }

    /// The workload after the URL of [`Self::pick`] was taken.
    pub open spec fn picked(self, now: nat) -> Self {
        if self.retries_next(now) {
            WorkloadView { pool: self.pool.take(self.frontier.stack.len() == 0, now), ..self }
        } else {
            WorkloadView { frontier: self.frontier.pop(), ..self }
        }
    }

    /// The workload after its waiting URLs were cleared as far as the robots
    /// files at hand decide.  A workload that is closed or over clears
    /// nothing.
    pub open spec fn settled(self) -> Self {
        if self.closed || self.over() {
            self
        } else {
            WorkloadView { frontier: cleared(self.frontier, self.robots, self.robot), ..self }
        }
    }

    /// Whether a fetch may be dispatched: the intake is open, fewer fetches
    /// are under way than the ring has room for, and a URL can be had.
    pub open spec fn may_dispatch(self) -> bool {
        !self.closed && !self.over() && self.in_flight() < self.ring.cap && self.available()
    }

    /// What the caller has to do next at the moment `now`.
    pub open spec fn next_action(self, now: nat) -> ActionView<B> {
        let w = self.settled();
        if w.over() {
            ActionView::Finished
        } else if !w.closed && w.frontier.waiting.len() > 0 {
            match verdict(w.robots, w.robot, w.frontier.waiting.first()) {
                VerdictView::Fetch(place) => ActionView::FetchRobots { url: place },
                _ => ActionView::Wait,
            }
        } else if w.may_dispatch() {
            if w.ring.idle.len() > 0 {
                match w.pick(now) {
                    Some(url) => ActionView::Dispatch { engine: w.ring.idle.last(), url },
                    None => ActionView::Wait,
                }
            } else {
                ActionView::Build
            }
        } else if w.in_flight() > 0 {
            ActionView::Wait
        } else {
            ActionView::Finished
        }
    }

    /// The workload after [`Self::next_action`] was handed to the caller.
    pub open spec fn after_next(self, now: nat) -> Self {
        let w = self.settled();
        if self.next_action(now) is Dispatch {
            let taken = w.picked(now);
            WorkloadView { ring: w.ring.out(), ..taken }
        } else {
            w
        }
    }

    /// The limit after one more artifact.
    pub open spec fn limit_left(self) -> Option<nat> {
        match self.limit {
            Some(n) => if n == 0 {
                Some(0)
            } else {
                Some((n - 1) as nat)
            },
            None => None,
        }
    }

    /// Whether one more artifact reaches the limit.
    pub open spec fn limit_hit(self) -> bool {
        self.limit.is_some() && self.limit.unwrap() <= 1
    }

    /// The workload after the fetch on `engine` came to an end with `outcome`
    /// at the moment `now`.
    pub open spec fn completed(self, engine: Engine<B>, outcome: OutcomeView<V>, now: nat) -> Self {
        let ring = self.ring.back(engine);
        let visited = bump(self.stats.count_visited);
        match outcome {
            OutcomeView::Page { urls, data } => {
                let frontier = self.frontier.keep_all(urls, self.use_robots);
                match data {
                    Some(v) => WorkloadView {
                        ring,
                        frontier,
                        results: self.results.push(v),
                        limit: self.limit_left(),
                        closed: self.closed || self.limit_hit(),
                        stats: Statistics {
                            count_visited: visited,
                            count_collected: bump(self.stats.count_collected),
                            ..self.stats
                        },
                        ..self
                    },
                    None => WorkloadView {
                        ring,
                        frontier,
                        stats: Statistics { count_visited: visited, ..self.stats },
                        ..self
                    },
                }
            },
            OutcomeView::Timeout { url } => if self.policy == RetryPolicy::No {
                WorkloadView {
                    ring,
                    stats: Statistics {
                        count_visited: visited,
                        count_errors: bump(self.stats.count_errors),
                        ..self.stats
                    },
                    ..self
                }
            } else {
                WorkloadView {
                    ring,
                    pool: self.pool.keep(url, now),
                    frontier: if self.pool.grants(url) {
                        self.frontier
                    } else {
                        self.frontier.mark(url)
                    },
                    stats: Statistics {
                        count_visited: visited,
                        count_retries: bump(self.stats.count_retries),
                        ..self.stats
                    },
                    ..self
                }
            },
            OutcomeView::Failure => WorkloadView {
                ring,
                stats: Statistics {
                    count_visited: visited,
                    count_errors: bump(self.stats.count_errors),
                    ..self.stats
                },
                ..self
            },
        }
    }

    /// The workload after the robots file for the URL that waits longest was
    /// fetched, or could not be fetched: the file is kept if it can be read,
    /// and the URL is cleared if the file permits it.
    pub open spec fn informed(self, file: Option<Seq<u8>>) -> Self {
        if self.frontier.waiting.len() == 0 {
            self
        } else {
            let url = self.frontier.waiting.first();
            match file {
                Some(bytes) => WorkloadView {
                    robots: learned(self.robots, self.robot, url, bytes),
                    frontier: self.frontier.release(
                        match url_domain(url) {
                            Some(_) => permits(self.robot, bytes, url_path(url)),
                            None => true,
                        },
                    ),
                    ..self
                },
                None => WorkloadView { frontier: self.frontier.release(false), ..self },
            }
        }
    }
}

/// With the invariant, a workload that may dispatch has a URL to pick, and a
/// settled one that still has a URL waiting needs a robots file for it.
pub proof fn lemma_next_is_total<B, V>(w: WorkloadView<B, V>, now: nat)
    requires
        w.wf(),
    ensures
        w.settled().wf(),
        w.settled().may_dispatch() ==> w.settled().pick(now).is_some(),
        !w.closed && !w.over() && w.settled().frontier.waiting.len() > 0 ==> verdict(
            w.robots,
            w.robot,
            w.settled().frontier.waiting.first(),
        ) is Fetch,
{
    lemma_cleared(w.frontier, w.robots, w.robot);
}

/// Clearing keeps the invariant of the frontier, hands nothing out, and stops
/// only where nothing waits or a robots file is missing.
pub proof fn lemma_cleared(
    frontier: FrontierView,
    robots: Map<(Seq<char>, Seq<char>), Seq<u8>>,
    robot: Seq<char>,
)
    requires
        frontier.wf(),
    ensures
        cleared(frontier, robots, robot).wf(),
        cleared(frontier, robots, robot).handed == frontier.handed,
        cleared(frontier, robots, robot).seen == frontier.seen,
        cleared(frontier, robots, robot).waiting.len() <= frontier.waiting.len(),
        cleared(frontier, robots, robot).waiting.len() > 0 ==> verdict(
            robots,
            robot,
            cleared(frontier, robots, robot).waiting.first(),
        ) is Fetch,
    decreases frontier.waiting.len(),
{
    if frontier.waiting.len() > 0 {
        match verdict(robots, robot, frontier.waiting.first()) {
            VerdictView::Known(allowed) => {
                lemma_release_wf(frontier, allowed);
                lemma_cleared(frontier.release(allowed), robots, robot);
            },
            VerdictView::Unreachable => {
                lemma_release_wf(frontier, false);
                lemma_cleared(frontier.release(false), robots, robot);
            },
            VerdictView::Fetch(_) => {},
        }
    }
}

/// The control loop of a crawl.
pub struct Workload<B, EB, V> {
    frontier: Frontier,
    retry_policy: RetryPolicy,
    retry_pool: RetryPool,
    url_limit: Option<usize>,
    robot_ctrl: RobotsMap,
    use_robot_check: bool,
    robot: String,
    ring: EngineRing<B, EB>,
    results: Vec<V>,
    stats: Statistics,
    closed: bool,
    failed: bool,
    void: bool,
}

impl<B, EB, V> View for Workload<B, EB, V> {
    type V = WorkloadView<B, V>;

    closed spec fn view(&self) -> WorkloadView<B, V> {
        WorkloadView {
            frontier: self.frontier@,
            pool: self.retry_pool@,
            ring: self.ring@,
            robots: self.robot_ctrl@,
            policy: self.retry_policy,
            limit: match self.url_limit {
                Some(n) => Some(n as nat),
                None => None,
            },
            use_robots: self.use_robot_check,
            robot: self.robot@,
            closed: self.closed,
            failed: self.failed,
            void: self.void,
            results: self.results@,
            stats: self.stats,
        }
    }
}

impl<B, EB, V> Workload<B, EB, V> {
    /// The invariant of a workload.
    pub closed spec fn wf(&self) -> bool {
        &&& self@.wf()
        &&& self.frontier.wf()
        &&& self.retry_pool.wf()
        &&& self.ring.wf()
    }

    /// What the invariant says of the workload as a mathematical value.
    pub proof fn lemma_wf(&self)
        requires
            self.wf(),
        ensures
            self@.wf(),
    {
    }

    /// The builder of the engines, as a mathematical value.
    pub closed spec fn maker(&self) -> EB {
        self.ring.maker()
    }

    /// A workload on the engines of `ring` that has seen no URL.  The intake
    /// closes after `url_limit` artifacts, if there is a limit.
    pub fn new(
        ring: EngineRing<B, EB>,
        url_limit: Option<usize>,
        retry_policy: RetryPolicy,
        retry_pool: RetryPool,
        use_robots: bool,
        robot: String,
    ) -> (r: Self)
        requires
            ring.wf(),
            retry_pool.wf(),
        ensures
            r.wf(),
            r.maker() == ring.maker(),
            r@.frontier == empty_frontier(),
            r@.pool == retry_pool@,
            r@.ring == ring@,
            r@.robots == Map::<(Seq<char>, Seq<char>), Seq<u8>>::empty(),
            r@.policy == retry_policy,
            r@.limit == match url_limit {
                Some(n) => Some(n as nat),
                None => None,
            },
            r@.use_robots == use_robots,
            r@.robot == robot@,
            !r@.closed,
            !r@.failed,
            !r@.void,
            r@.results.len() == 0,
            r@.stats == zero_statistics(),
    {
        proof {
            ring.lemma_wf();
            retry_pool.lemma_wf();
        }
        let r = Workload {
            url_limit,
            ring,
            retry_policy,
            retry_pool,
            robot,
            use_robot_check: use_robots,
            robot_ctrl: RobotsMap::default(),
            frontier: Frontier::new(),
            results: Vec::new(),
            stats: Statistics::default(),
            closed: false,
            failed: false,
            void: false,
        };
        proof {
            r.frontier.lemma_wf();
        }
        r
    }

    /// Offers the seed URLs to the frontier, each without its fragment: URLs
    /// that differ in their fragment alone are one URL to the crawl.  With no
    /// seed at all the crawl is over: whatever the retry pool and the ring
    /// hold, [`Self::next`] says that it is finished, and [`Self::finish`]
    /// gives no results and counters at zero.
    pub fn start(&mut self, seed: Vec<Url>)
        requires
            old(self).wf(),
        ensures
            final(self).wf(),
            final(self).maker() == old(self).maker(),
            final(self)@ == old(self)@.seeded(url_texts(seed@)),
    {
        if seed.len() == 0 {
            self.void = true;
        }
        let bare = strip_fragments(&seed);
        self.keep_urls(bare);
    }

    /// Offers `urls` to the frontier; those that are new wait for a clearance
    /// where the robots rules are in force.
    fn keep_urls(&mut self, urls: Vec<Url>)
        requires
            old(self).wf(),
        ensures
            final(self).wf(),
            final(self).maker() == old(self).maker(),
            final(self)@ == (WorkloadView {
                frontier: old(self)@.frontier.keep_all(url_texts(urls@), old(self)@.use_robots),
                ..old(self)@
            }),
    {
        proof {
            lemma_keep_all_wf(self@.frontier, url_texts(urls@), self@.use_robots);
            lemma_keep_all_unheld(self@.frontier, url_texts(urls@));
        }
        self.frontier.keep_urls(urls, self.use_robot_check);
        proof {
            self.frontier.lemma_wf();
        }
    }

    /// Takes the URL that is fetched next; see [`WorkloadView::pick`].
    fn get_url(&mut self, now: u64) -> (r: Option<Url>)
        requires
            old(self).wf(),
        ensures
            final(self).wf(),
            final(self).maker() == old(self).maker(),
            r.is_some() == old(self)@.pick(now as nat).is_some(),
            r.is_some() ==> r.unwrap()@ == old(self)@.pick(now as nat).unwrap(),
            r.is_some() ==> final(self)@ == old(self)@.picked(now as nat),
            r.is_none() ==> final(self)@ == old(self)@,
    {
        proof {
            lemma_pop_wf(self@.frontier);
        }
        let r = match self.retry_policy {
            RetryPolicy::No => self.frontier.pop(),
            RetryPolicy::RetryFirst => {
                let force = self.frontier.is_empty();
                match self.retry_pool.get_url_at(force, now) {
                    Some(url) => Some(url),
                    None => self.frontier.pop(),
                }
            },
            RetryPolicy::RetryLast => {
                match self.frontier.pop() {
                    Some(url) => Some(url),
                    None => self.retry_pool.get_url_at(true, now),
                }
            },
        };
        proof {
            self.frontier.lemma_wf();
            self.retry_pool.lemma_wf();
        }
        r
    }

    /// Says what the caller has to do next at the moment `now`.
    ///
    /// A workload whose intake is open first clears its waiting URLs as far as
    /// the robots files at hand decide, and asks for the file that is missing.
    /// Then, while fewer fetches are under way than the ring has room for and a
    /// URL can be had, it dispatches a fetch on an idle engine, or asks for a
    /// new engine where none is idle.  Otherwise the caller waits for the
    /// fetches that are under way, and is finished when none is.
    pub fn next(&mut self, now: u64) -> (r: Action<B>)
        requires
            old(self).wf(),
        ensures
            final(self).wf(),
            final(self).maker() == old(self).maker(),
            r@ == old(self)@.next_action(now as nat),
            final(self)@ == old(self)@.after_next(now as nat),
    {
        proof {
            lemma_next_is_total(self@, now as nat);
            self.ring.lemma_wf();
        }
        if self.failed || self.void {
            return Action::Finished;
        }
        if !self.closed {
            loop
                invariant
                    self.wf(),
                    !self.closed,
                    !self.failed,
                    !self.void,
                    self.maker() == old(self).maker(),
                    self@ == (WorkloadView { frontier: self@.frontier, ..old(self)@ }),
                    cleared(self@.frontier, self@.robots, self@.robot) == cleared(
                        old(self)@.frontier,
                        old(self)@.robots,
                        old(self)@.robot,
                    ),
                ensures
                    self.wf(),
                    self.maker() == old(self).maker(),
                    self@ == old(self)@.settled(),
                    self@.frontier.waiting.len() == 0,
                decreases self@.frontier.waiting.len(),
            {
                let allowed = match self.frontier.next_waiting() {
                    Some(url) => match self.robot_ctrl.is_allowed(self.robot.as_str(), url) {
                        Verdict::Known(allowed) => allowed,
                        Verdict::Unreachable => false,
                        Verdict::Fetch(place) => {
                            return Action::FetchRobots { url: place };
                        },
                    },
                    None => {
                        break ;
                    },
                };
                proof {
                    lemma_release_wf(self@.frontier, allowed);
                }
                self.frontier.release(allowed);
                proof {
                    self.frontier.lemma_wf();
                }
            }
            let in_use = self.ring.count_engines_in_use();
            let can_retry = match self.retry_policy {
                RetryPolicy::No => false,
                _ => !self.retry_pool.is_empty(),
            };
            if in_use < self.ring.capacity() && (!self.frontier.is_empty() || can_retry) {
                if self.ring.count_idle() == 0 {
                    return Action::Build;
                }
                let url = self.get_url(now).unwrap();
                let engine = self.ring.obtain().unwrap();
                proof {
                    self.ring.lemma_wf();
                }
                return Action::Dispatch { engine, url };
            }
        }
        if self.ring.count_engines_in_use() > 0 {
            Action::Wait
        } else {
            Action::Finished
        }
    }

    /// Closes the intake: no fetch is dispatched any more, and the fetches
    /// that are under way are waited for.  Cancelling twice is cancelling once.
    pub fn cancel(&mut self)
        requires
            old(self).wf(),
        ensures
            final(self).wf(),
            final(self).maker() == old(self).maker(),
            final(self)@ == (WorkloadView { closed: true, ..old(self)@ }),
    {
        self.closed = true;
    }

    /// Records that no engine could be built, which ends the crawl.
    pub fn build_failed(&mut self)
        requires
            old(self).wf(),
        ensures
            final(self).wf(),
            final(self).maker() == old(self).maker(),
            final(self)@ == (WorkloadView { failed: true, ..old(self)@ }),
    {
        self.failed = true;
    }

    /// Takes in an engine that the builder has just made.  It bears the next
    /// free slot from now on, and is idle.
    pub fn engine_built(&mut self, engine: Engine<B>)
        requires
            old(self).wf(),
            old(self)@.ring.built() < old(self)@.ring.cap,
        ensures
            final(self).wf(),
            final(self).maker() == old(self).maker(),
            final(self)@ == (WorkloadView { ring: final(self)@.ring, ..old(self)@ }),
            final(self)@.ring.cap == old(self)@.ring.cap,
            final(self)@.ring.in_use == old(self)@.ring.in_use,
            final(self)@.ring.idle.len() == old(self)@.ring.idle.len() + 1,
            final(self)@.ring.idle.drop_last() == old(self)@.ring.idle,
            final(self)@.ring.idle.last().slot() == old(self)@.ring.built(),
            final(self)@.ring.idle.last().session() == engine.session(),
            final(self)@.ring.idle.last().rules() == engine.rules(),
    {
        proof {
            self.ring.lemma_wf();
        }
        let ghost before = self.ring@;
        let engine = self.ring.enroll(engine);
        self.ring.return_back(engine);
        proof {
            self.ring.lemma_wf();
            assert(!before.in_use.contains(engine.slot()));
            assert(self.ring@.in_use =~= before.in_use);
            assert(self.ring@.idle.drop_last() =~= before.idle);
        }
    }

    /// Records the robots file that was fetched for the URL that waits longest,
    /// or, with `None`, that it could not be fetched; see
    /// [`WorkloadView::informed`].
    pub fn robots_fetched(&mut self, file: Option<Vec<u8>>)
        requires
            old(self).wf(),
        ensures
            final(self).wf(),
            final(self).maker() == old(self).maker(),
            final(self)@ == old(self)@.informed(
                match file {
                    Some(bytes) => Some(bytes@),
                    None => None,
                },
            ),
    {
        let allowed = match self.frontier.next_waiting() {
            Some(url) => match file {
                Some(bytes) => match self.robot_ctrl.learn(self.robot.as_str(), url, bytes) {
                    Some(allowed) => allowed,
                    None => false,
                },
                None => false,
            },
            None => {
                return ;
            },
        };
        proof {
            lemma_release_wf(self@.frontier, allowed);
        }
        self.frontier.release(allowed);
        proof {
            self.frontier.lemma_wf();
        }
    }

    /// Records that the fetch on `engine` came to an end with `outcome` at the
    /// moment `now`, and takes the engine back.
    ///
    /// Every fetch counts as a visit.  A page's artifact joins the results and
    /// counts as collected, and the intake closes once the limit of artifacts
    /// is reached; the page's links are offered to the frontier.  A timeout
    /// counts as a retry while retries are on: the URL goes to the retry pool,
    /// or is marked as visited for good once its attempts are used up.  Any
    /// other failure, and a timeout while retries are off, counts as an error.
    pub fn complete(
        &mut self,
        engine: Engine<B>,
        outcome: Result<(Vec<Url>, Option<V>), BackendError>,
        now: u64,
    )
        requires
            old(self).wf(),
            old(self)@.ring.in_use.contains(engine.slot()),
        ensures
            final(self).wf(),
            final(self).maker() == old(self).maker(),
            final(self)@ == old(self)@.completed(engine, outcome_view(outcome), now as nat),
    {
        proof {
            self.ring.lemma_wf();
            self.retry_pool.lemma_wf();
        }
        self.stats.count_visited = bumped(self.stats.count_visited);
        match outcome {
            Ok((urls, data)) => {
                match data {
                    Some(v) => {
                        self.results.push(v);
                        assert(self.results.len() <= usize::MAX);
                        self.stats.count_collected = bumped(self.stats.count_collected);
                        if self.inc_limit() {
                            self.closed = true;
                        }
                    },
                    None => {},
                }
                self.keep_urls(urls);
            },
            Err(e) => {
                let retry_url = match self.retry_policy {
                    RetryPolicy::No => None,
                    _ => if e.is_timeout() {
                        e.address()
                    } else {
                        None
                    },
                };
                match retry_url {
                    Some(url) => {
                        self.stats.count_retries = bumped(self.stats.count_retries);
                        if !self.retry_pool.keep_retry_at(url.clone(), now) {
                            self.frontier.mark_visited(url);
                        }
                        proof {
                            self.frontier.lemma_wf();
                            self.retry_pool.lemma_wf();
                        }
                    },
                    None => {
                        self.stats.count_errors = bumped(self.stats.count_errors);
                    },
                }
            },
        }
        self.ring.return_back(engine);
        proof {
            self.ring.lemma_wf();
        }
    }

    /// Counts one more artifact against the limit and says whether the limit
    /// is reached.
    fn inc_limit(&mut self) -> (r: bool)
        ensures
            r == old(self)@.limit_hit(),
            final(self)@ == (WorkloadView { limit: old(self)@.limit_left(), ..old(self)@ }),
            final(self).frontier == old(self).frontier,
            final(self).retry_pool == old(self).retry_pool,
            final(self).ring == old(self).ring,
    {
        match self.url_limit {
            Some(limit) => {
                if limit == 0 {
                    true
                } else {
                    self.url_limit = Some(limit - 1);
                    limit - 1 == 0
                }
            },
            None => false,
        }
    }

    /// Ends the crawl: the artifacts in the order of their arrival, and the
    /// counters.  A crawl that failed to build an engine, or that was started
    /// with no seed, has neither.
    pub fn finish(self) -> (r: (Vec<V>, Statistics))
        ensures
            self@.over() ==> r.0@.len() == 0 && r.1 == zero_statistics(),
            !self@.over() ==> r.0@ == self@.results && r.1 == self@.stats,
    {
        if self.failed || self.void {
            (Vec::new(), Statistics::default())
        } else {
            (self.results, self.stats)
        }
    }

    /// Takes an idle engine out of the ring for good, so that its backend can
    /// be closed when the crawl is over.
    pub fn retire(&mut self) -> (r: Option<Engine<B>>)
        requires
            old(self).wf(),
        ensures
            final(self).wf(),
            final(self).maker() == old(self).maker(),
            match r {
                Some(engine) => {
                    &&& old(self)@.ring.idle.len() > 0
                    &&& engine == old(self)@.ring.idle.last()
                    &&& final(self)@ == (WorkloadView {
                        ring: old(self)@.ring.out(),
                        ..old(self)@
                    })
                },
                None => old(self)@.ring.idle.len() == 0 && final(self)@ == old(self)@,
            },
    {
        let r = self.ring.obtain();
        proof {
            self.ring.lemma_wf();
        }
        r
    }

    /// The number of fetches that are under way.
    pub fn in_flight(&self) -> (r: usize)
        requires
            self.wf(),
        ensures
            r == self@.in_flight(),
            r <= self@.ring.cap,
    {
        proof {
            self.ring.lemma_wf();
        }
        self.ring.count_engines_in_use()
    }

    /// Whether the ring has room for one more engine.
    pub fn has_room(&self) -> (r: bool)
        requires
            self.wf(),
        ensures
            r == (self@.ring.built() < self@.ring.cap),
    {
        proof {
            self.ring.lemma_wf();
        }
        self.ring.count_engines_in_use() < self.ring.capacity() - self.ring.count_idle()
    }

    /// Whether the engine of the slot `id` is out on a fetch.
    pub fn is_in_use(&self, id: EngineId) -> (r: bool)
        ensures
            r == self@.ring.in_use.contains(id),
    {
        self.ring.is_in_use(id)
    }

    /// Whether the intake is closed.
    pub fn is_closed(&self) -> (r: bool)
        ensures
            r == self@.closed,
    {
        self.closed
    }

    /// The builder, to make the next engine with.
    pub fn builder(&mut self) -> (r: &mut EB)
        ensures
            *r == old(self).maker(),
            final(self).maker() == *final(r),
            final(self)@ == old(self)@,
            old(self).wf() ==> final(self).wf(),
    {
        self.ring.builder()
    }
}

} // verus!
