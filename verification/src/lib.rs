// This Source Code Form is subject to the terms of the Mozilla Public
// License, v. 2.0. If a copy of the MPL was not distributed with this
// file, You can obtain one at https://mozilla.org/MPL/2.0/.

//! The orchestration core of a browser-driven web crawler: URL filters, the
//! frontier with its deduplication, the retry pool, the ring of engines, the
//! cache of robots rules, and the control loop that ties them together.

pub mod address;
pub mod text;
pub mod filters;
pub mod engine;
pub mod retry;
pub mod engine_ring;
pub mod robots;
pub mod seen;
pub mod frontier;
pub mod workload;
pub mod run;
pub mod bound;
pub mod tally;
pub mod progress;
pub mod engine_builder;
pub mod cfg;

use crate::address::{bare_texts, url_texts, Url};
use crate::engine_builder::WebDriverConfig;
use crate::engine_ring::EngineRing;
use crate::filters::Filter;
use crate::frontier::empty_frontier;
use crate::retry::{millis_to_nanos, nanos_of_millis, RetryPool};
use crate::workload::{zero_statistics, RetryPolicy, Workload};
use vstd::prelude::*;

verus! {

/// What a crawl needs to know.  It stays as it is while the crawl runs.
#[derive(Debug)]
pub struct CrawlConfig {
    /// The script that produces the artifact of a page.
    pub code: Code,
    pub wb_config: WebDriverConfig,
    /// The links that one of these filters excludes are not followed.
    pub filters: Vec<Filter>,
    /// The number of engines, which is the number of fetches at a time.
    pub count_engines: usize,
    /// The number of artifacts after which the crawl takes in no new work.
    pub url_limit: Option<usize>,
    pub retry_policy: RetryPolicy,
    /// How long a URL waits for its retry, in milliseconds.
    pub retry_threshold: u64,
    /// The number of attempts at which a URL is given up.
    pub retry_count: usize,
    pub robot_name: String,
    pub use_robots_txt: bool,
    /// The URLs to start from.
    pub urls: Vec<Url>,
}

/// Sets up the crawl that `config` describes, with `builder` to make its
/// engines: a workload that has been offered the URLs to start from, each
/// without its fragment, and has done nothing else.  The caller drives it; see [`Workload::next`].
pub fn crawl<B, EB, V>(config: CrawlConfig, builder: EB) -> (r: Workload<B, EB, V>)
    ensures
        r.wf(),
        r.maker() == builder,
        r@.ring.cap == config.count_engines,
        r@.ring.idle.len() == 0,
        r@.ring.in_use.len() == 0,
        r@.pool.fire_time == nanos_of_millis(config.retry_threshold),
        r@.pool.cap == config.retry_count,
        r@.pool.batches.len() == 0,
        forall|url: Seq<char>| r@.pool.attempts[url] == 0,
        r@.robots == Map::<(Seq<char>, Seq<char>), Seq<u8>>::empty(),
        r@.policy == config.retry_policy,
        r@.limit == match config.url_limit {
            Some(n) => Some(n as nat),
            None => None,
        },
        r@.use_robots == config.use_robots_txt,
        r@.robot == config.robot_name@,
        !r@.closed,
        !r@.failed,
        r@.void == (config.urls@.len() == 0),
        r@.results.len() == 0,
        r@.stats == zero_statistics(),
        r@.frontier == empty_frontier().keep_all(
            bare_texts(url_texts(config.urls@)),
            config.use_robots_txt,
        ),
{
    let ring = EngineRing::new(builder, config.count_engines);
    let retry_pool = RetryPool::new(millis_to_nanos(config.retry_threshold), config.retry_count);
    let mut workload = Workload::new(
        ring,
        config.url_limit,
        config.retry_policy,
        retry_pool,
        config.use_robots_txt,
        config.robot_name,
    );
    assert(workload@.frontier =~= empty_frontier());
    workload.start(config.urls);
    workload
}

/// A script, and what kind of script it is.
#[derive(Debug)]
pub struct Code {
    pub text: String,
    pub code_type: CodeType,
}

/// The kinds of scripts.
#[derive(Debug, Clone, Copy, PartialEq, Eq, Structural)]
pub enum CodeType {
    /// A recorded browser script.
    Side,
    /// JavaScript.
    Js,
}

} // verus!
