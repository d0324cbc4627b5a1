// This Source Code Form is subject to the terms of the Mozilla Public
// License, v. 2.0. If a copy of the MPL was not distributed with this
// file, You can obtain one at https://mozilla.org/MPL/2.0/.

use doonop::address::Url;
use doonop::engine::{BackendError, DriverError, Engine, SearchResult};
use doonop::engine_builder::{Browser, WebDriverConfig};
use doonop::engine_ring::EngineRing;
use doonop::filters::Filter;
use doonop::retry::RetryPool;
use doonop::workload::{Action, RetryPolicy, Statistics, Workload};
use doonop::{crawl, Code, CodeType, CrawlConfig};

/// What a mock backend answers to one fetch.
enum Answer {
    Page(Vec<&'static str>, Option<&'static str>),
    Timeout,
    Failure,
}

/// A backend that answers from a list, each answer after its delay.
struct MockBackend {
    results: Vec<(Answer, u64)>,
}

impl MockBackend {
    fn new(results: Vec<(&[&'static str], Option<&'static str>, Option<u64>)>) -> Self {
        let results = results
            .into_iter()
            .map(|(urls, data, delay)| (Answer::Page(urls.to_vec(), data), delay.unwrap_or(0)))
            .collect();
        Self { results }
    }

    fn answering(results: Vec<Answer>) -> Self {
        Self { results: results.into_iter().map(|a| (a, 0)).collect() }
    }

    fn search(&mut self, url: &Url) -> (Result<SearchResult<String>, BackendError>, u64) {
        if self.results.is_empty() {
            panic!("Search call wasn't expected");
        }
        let (answer, delay) = self.results.remove(0);
        let result = match answer {
            Answer::Page(urls, data) => Ok(SearchResult::new(
                urls.iter().map(|url| url.to_string()).collect(),
                data.map(|d| d.to_string()),
            )),
            Answer::Timeout => Err(BackendError::OpenAddress {
                source: DriverError { timeout: true, message: "timeout".to_string() },
                address: url.clone(),
            }),
            Answer::Failure => Err(BackendError::Other { msg: "failure".to_string() }),
        };
        (result, delay)
    }
}

/// A builder that hands out the backends of a list.
struct MockBuilder {
    backends: Vec<MockBackend>,
    id: usize,
    filters: Vec<Filter>,
    broken: bool,
}

impl MockBuilder {
    fn new(backends: Vec<MockBackend>) -> Self {
        Self { backends, id: 0, filters: Vec::new(), broken: false }
    }

    fn build(&mut self) -> Option<Engine<MockBackend>> {
        if self.broken {
            return None;
        }
        if self.backends.is_empty() {
            panic!("Build call wasn't expected");
        }
        let backend = self.backends.remove(0);
        let id = self.id;
        self.id += 1;
        Some(Engine::new(id, backend, &self.filters))
    }
}

type Load = Workload<MockBackend, MockBuilder, String>;

/// What the driver of a workload saw.
#[derive(Default)]
struct Seen {
    /// The URLs in the order of their dispatch, each with its engine.
    dispatched: Vec<(usize, String)>,
    /// The most fetches that were under way at once.
    most_in_flight: usize,
    builds: usize,
    robots_fetches: Vec<String>,
}

/// Drives a workload as a caller does.  Time starts at `start` and moves on
/// with the fetches: a fetch that was dispatched at the moment `t` with the
/// delay `d` completes at `t + d`, and of the fetches under way the one that
/// completes first is reported first.  The crawl is cancelled once
/// `cancel_after` fetches have completed.
fn drive(
    workload: &mut Load,
    start: u64,
    robots: &dyn Fn(&str) -> Option<Vec<u8>>,
    cancel_after: Option<usize>,
) -> Seen {
    let mut now = start;
    let mut seen = Seen::default();
    let mut completed = 0;
    let mut flying: Vec<(u64, Engine<MockBackend>, Result<(Vec<Url>, Option<String>), BackendError>)> =
        Vec::new();
    loop {
        match workload.next(now) {
            Action::Dispatch { mut engine, url } => {
                seen.dispatched.push((engine.id(), url.as_str().to_string()));
                let (found, delay) = engine.backend_mut().search(&url);
                let outcome = engine.run(&url, found);
                flying.push((now + delay, engine, outcome));
                assert_eq!(workload.in_flight(), flying.len());
                seen.most_in_flight = seen.most_in_flight.max(flying.len());
            }
            Action::Build => {
                assert!(workload.has_room());
                seen.builds += 1;
                match workload.builder().build() {
                    Some(engine) => workload.engine_built(engine),
                    None => workload.build_failed(),
                }
            }
            Action::FetchRobots { url } => {
                seen.robots_fetches.push(url.as_str().to_string());
                workload.robots_fetched(robots(url.as_str()));
            }
            Action::Wait => {
                assert!(!flying.is_empty());
                let mut first = 0;
                for i in 1..flying.len() {
                    if flying[i].0 < flying[first].0 {
                        first = i;
                    }
                }
                let (at, engine, outcome) = flying.remove(first);
                now = now.max(at);
                assert!(workload.is_in_use(engine.id()));
                workload.complete(engine, outcome, now);
                completed += 1;
                if cancel_after == Some(completed) {
                    workload.cancel();
                    // Cancelling again changes nothing.
                    workload.cancel();
                }
            }
            Action::Finished => break,
        }
    }
    seen
}

fn no_robots(_: &str) -> Option<Vec<u8>> {
    panic!("Robots fetch wasn't expected");
}

fn default_config(urls: Vec<Url>, count_engines: usize, limit: Option<usize>) -> CrawlConfig {
    CrawlConfig {
        wb_config: WebDriverConfig {
            load_timeout: 1000,
            browser: Browser::Firefox,
            webdriver_address: Url::parse("http://localhost:4444").unwrap(),
            proxy: None,
        },
        robot_name: "DonoopRobot".to_string(),
        use_robots_txt: false,
        retry_policy: RetryPolicy::No,
        retry_count: 0,
        retry_threshold: 1000,
        code: Code {
            text: String::new(),
            code_type: CodeType::Js,
        },
        filters: Vec::new(),
        url_limit: limit,
        urls,
        count_engines,
    }
}

fn texts(data: &[String]) -> Vec<&str> {
    data.iter().map(|d| d.as_str()).collect()
}

#[test]
fn crawl_with_single_engine() {
    let config = default_config(vec![Url::parse("http://example1.com").unwrap()], 1, None);
    let builder = MockBuilder::new(vec![MockBackend::new(vec![
        (
            &["http://example2.com", "http://example3.com"],
            Some("d1"),
            None,
        ),
        (&["http://example1.com"], Some("d2"), None),
        (&[], None, None),
    ])]);

    let mut workload: Load = crawl(config, builder);
    let seen = drive(&mut workload, 0, &no_robots, None);
    let (data, stats) = workload.finish();

    // The page without an artifact adds nothing to the results.
    assert_eq!(texts(&data), vec!["d1", "d2"]);
    assert_eq!(
        stats,
        Statistics { count_visited: 3, count_collected: 2, count_errors: 0, count_retries: 0 }
    );
    assert_eq!(seen.builds, 1);
    assert_eq!(
        seen.dispatched,
        vec![
            (0, "http://example1.com/".to_string()),
            (0, "http://example3.com/".to_string()),
            (0, "http://example2.com/".to_string()),
        ]
    );
}

#[test]
fn crawl_with_2_engines() {
    let config = default_config(vec![Url::parse("http://example1.com").unwrap()], 2, None);
    let builder = MockBuilder::new(vec![
        MockBackend::new(vec![
            (
                &["http://example2.com", "http://example3.com"],
                Some("d1"),
                None,
            ),
            (&[], Some("d2"), Some(1000)),
        ]),
        MockBackend::new(vec![(&[], Some("d3"), None)]),
    ]);

    let mut workload: Load = crawl(config, builder);
    let seen = drive(&mut workload, 0, &no_robots, None);
    let (data, stats) = workload.finish();

    assert_eq!(texts(&data), vec!["d1", "d3", "d2"]);
    assert_eq!(stats.count_visited, 3);
    assert_eq!(stats.count_collected, 3);
    assert_eq!(seen.builds, 2);
    assert_eq!(seen.most_in_flight, 2);
}

#[test]
fn two_seeds_on_two_engines_finish_in_the_order_of_their_fetches() {
    // The seeds come off the stack last first: B goes out on the first
    // engine, A on the second.  A discovers nothing but is slow.
    let config = default_config(
        vec![Url::parse("http://a.com").unwrap(), Url::parse("http://b.com").unwrap()],
        2,
        None,
    );
    let builder = MockBuilder::new(vec![
        MockBackend::new(vec![(&[], Some("d3"), None)]),
        MockBackend::new(vec![(&[], Some("d2"), Some(1000))]),
    ]);
    let mut workload: Load = crawl(config, builder);
    let seen = drive(&mut workload, 0, &no_robots, None);
    let (data, _) = workload.finish();
    assert_eq!(texts(&data), vec!["d3", "d2"]);
    assert_eq!(
        seen.dispatched,
        vec![(0, "http://b.com/".to_string()), (1, "http://a.com/".to_string())]
    );
}

#[test]
fn no_seed_no_work() {
    let config = default_config(vec![], 3, None);
    let mut workload: Load = crawl(config, MockBuilder::new(vec![]));
    let seen = drive(&mut workload, 0, &no_robots, None);
    assert_eq!(seen.builds, 0);
    assert!(seen.dispatched.is_empty());
    let (data, stats) = workload.finish();
    assert!(data.is_empty());
    assert_eq!(stats, Statistics::default());
    assert_eq!(
        stats,
        Statistics { count_visited: 0, count_collected: 0, count_errors: 0, count_retries: 0 }
    );
}

#[test]
fn no_url_is_fetched_twice() {
    // Every page links to every page, with and without fragments.
    let links: &[&'static str] = &[
        "http://e.com/1",
        "http://e.com/2#a",
        "http://e.com/2#b",
        "http://e.com/3",
        "/1#top",
        "http://e.com/",
    ];
    let page = |d| (links, Some(d), None);
    let config = default_config(vec![Url::parse("http://e.com/").unwrap()], 2, None);
    let builder = MockBuilder::new(vec![
        MockBackend::new(vec![page("a"), page("b"), page("c"), page("d")]),
        MockBackend::new(vec![page("e"), page("f"), page("g"), page("h")]),
    ]);
    let mut workload: Load = crawl(config, builder);
    let seen = drive(&mut workload, 0, &no_robots, None);
    let mut fetched: Vec<String> = seen.dispatched.iter().map(|(_, url)| url.clone()).collect();
    fetched.sort();
    assert_eq!(
        fetched,
        vec!["http://e.com/", "http://e.com/1", "http://e.com/2", "http://e.com/3"]
    );
    let (data, stats) = workload.finish();
    assert_eq!(data.len(), 4);
    assert_eq!(stats.count_visited, 4);
}

#[test]
fn never_more_fetches_than_engines() {
    let links: &[&'static str] = &["/1", "/2", "/3", "/4", "/5", "/6", "/7"];
    for engines in 1..5usize {
        let config = default_config(vec![Url::parse("http://e.com/").unwrap()], engines, None);
        let backends = (0..engines)
            .map(|_| {
                MockBackend::new(vec![
                    (links, Some("x"), Some(5)),
                    (&[], Some("x"), Some(7)),
                    (&[], Some("x"), Some(3)),
                    (&[], Some("x"), Some(9)),
                    (&[], Some("x"), Some(1)),
                    (&[], Some("x"), Some(4)),
                    (&[], Some("x"), Some(2)),
                    (&[], Some("x"), Some(8)),
                ])
            })
            .collect();
        let mut workload: Load = crawl(config, MockBuilder::new(backends));
        let seen = drive(&mut workload, 0, &no_robots, None);
        assert!(seen.most_in_flight <= engines);
        assert_eq!(seen.most_in_flight, engines.min(7));
        assert_eq!(seen.builds, engines.min(7));
        assert_eq!(seen.dispatched.len(), 8);
        assert_eq!(workload.in_flight(), 0);
    }
}

#[test]
fn a_ring_without_room_fetches_nothing() {
    let config = default_config(vec![Url::parse("http://e.com/").unwrap()], 0, None);
    let mut workload: Load = crawl(config, MockBuilder::new(vec![]));
    let seen = drive(&mut workload, 0, &no_robots, None);
    assert_eq!(seen.builds, 0);
    assert!(seen.dispatched.is_empty());
}

#[test]
fn the_limit_closes_the_intake_but_fetches_under_way_still_count() {
    let links: &[&'static str] = &["/1", "/2", "/3", "/4"];
    let config = default_config(vec![Url::parse("http://e.com/").unwrap()], 2, Some(2));
    let builder = MockBuilder::new(vec![
        MockBackend::new(vec![(links, Some("root"), None), (&[], Some("slow"), Some(100))]),
        MockBackend::new(vec![(&[], Some("fast"), Some(10)), (&[], Some("never"), None)]),
    ]);
    let mut workload: Load = crawl(config, builder);
    let seen = drive(&mut workload, 0, &no_robots, None);
    assert!(workload.is_closed());
    // "fast" reaches the limit of 2; "slow" was under way and still arrives.
    assert_eq!(seen.dispatched.len(), 3);
    let (data, stats) = workload.finish();
    assert_eq!(texts(&data), vec!["root", "fast", "slow"]);
    assert_eq!(stats.count_visited, 3);
    assert_eq!(stats.count_collected, 3);
}

#[test]
fn a_page_without_artifact_does_not_count_against_the_limit() {
    let links: &[&'static str] = &["/1", "/2", "/3"];
    let config = default_config(vec![Url::parse("http://e.com/").unwrap()], 1, Some(1));
    let builder = MockBuilder::new(vec![MockBackend::new(vec![
        (links, None, None),
        (&[], None, None),
        (&[], Some("found"), None),
        (&[], Some("never"), None),
    ])]);
    let mut workload: Load = crawl(config, builder);
    drive(&mut workload, 0, &no_robots, None);
    let (data, stats) = workload.finish();
    assert_eq!(texts(&data), vec!["found"]);
    assert_eq!(stats.count_visited, 3);
    assert_eq!(stats.count_collected, 1);
}

#[test]
fn a_limit_of_nothing_still_takes_the_first_artifact() {
    let config = default_config(vec![Url::parse("http://e.com/").unwrap()], 1, Some(0));
    let builder = MockBuilder::new(vec![MockBackend::new(vec![(&["/1"], Some("one"), None)])]);
    let mut workload: Load = crawl(config, builder);
    drive(&mut workload, 0, &no_robots, None);
    let (data, _) = workload.finish();
    assert_eq!(texts(&data), vec!["one"]);
}

#[test]
fn a_cancelled_crawl_waits_for_its_fetches_and_starts_none() {
    let links: &[&'static str] = &["/1", "/2", "/3", "/4"];
    let config = default_config(vec![Url::parse("http://e.com/").unwrap()], 2, None);
    let builder = MockBuilder::new(vec![
        MockBackend::new(vec![(links, Some("root"), None), (&[], Some("a"), Some(10))]),
        MockBackend::new(vec![(&[], Some("b"), Some(20))]),
    ]);
    let mut workload: Load = crawl(config, builder);
    // Cancelled when the second fetch completes, while the third is under way.
    let seen = drive(&mut workload, 0, &no_robots, Some(2));
    assert_eq!(seen.dispatched.len(), 3);
    assert_eq!(workload.in_flight(), 0);
    let (data, stats) = workload.finish();
    assert_eq!(texts(&data), vec!["root", "a", "b"]);
    assert_eq!(stats.count_visited, 3);
}

#[test]
fn a_cancelled_workload_is_finished_at_once_when_nothing_is_under_way() {
    let config = default_config(vec![Url::parse("http://e.com/").unwrap()], 2, None);
    let mut workload: Load = crawl(config, MockBuilder::new(vec![]));
    workload.cancel();
    assert!(matches!(workload.next(0), Action::Finished));
    assert!(matches!(workload.next(1), Action::Finished));
}

#[test]
fn an_engine_that_cannot_be_built_ends_the_crawl_with_nothing() {
    let config = default_config(vec![Url::parse("http://e.com/").unwrap()], 2, None);
    let mut builder = MockBuilder::new(vec![]);
    builder.broken = true;
    let mut workload: Load = crawl(config, builder);
    let seen = drive(&mut workload, 0, &no_robots, None);
    assert_eq!(seen.builds, 1);
    assert!(seen.dispatched.is_empty());
    let (data, stats) = workload.finish();
    assert!(data.is_empty());
    assert_eq!(stats, Statistics::default());
}

#[test]
fn failures_are_counted_and_do_not_stop_the_crawl() {
    let mut config = default_config(vec![Url::parse("http://e.com/").unwrap()], 1, None);
    config.retry_policy = RetryPolicy::No;
    let builder = MockBuilder::new(vec![MockBackend::answering(vec![
        Answer::Page(vec!["/1", "/2", "/3"], Some("root")),
        Answer::Timeout,
        Answer::Failure,
        Answer::Page(vec![], Some("last")),
    ])]);
    let mut workload: Load = crawl(config, builder);
    let seen = drive(&mut workload, 0, &no_robots, None);
    assert_eq!(seen.dispatched.len(), 4);
    let (data, stats) = workload.finish();
    assert_eq!(texts(&data), vec!["root", "last"]);
    // Without retries a timeout is an error like any other.
    assert_eq!(
        stats,
        Statistics { count_visited: 4, count_collected: 2, count_errors: 2, count_retries: 0 }
    );
}

fn retrying(policy: RetryPolicy, cap: usize, threshold_ms: u64, answers: Vec<Answer>) -> (Seen, Vec<String>, Statistics) {
    let mut config = default_config(vec![Url::parse("http://e.com/").unwrap()], 1, None);
    config.retry_policy = policy;
    config.retry_count = cap;
    config.retry_threshold = threshold_ms;
    let builder = MockBuilder::new(vec![MockBackend::answering(answers)]);
    let mut workload: Load = crawl(config, builder);
    let seen = drive(&mut workload, 5, &no_robots, None);
    let (data, stats) = workload.finish();
    (seen, data, stats)
}

fn urls(seen: &Seen) -> Vec<&str> {
    seen.dispatched.iter().map(|(_, url)| url.as_str()).collect()
}

#[test]
fn a_timeout_is_retried_until_the_cap() {
    // With the cap 3 a URL is fetched three times: once, and two retries.
    let (seen, data, stats) = retrying(
        RetryPolicy::RetryFirst,
        3,
        0,
        vec![Answer::Timeout, Answer::Timeout, Answer::Timeout],
    );
    assert_eq!(urls(&seen), vec!["http://e.com/"; 3]);
    assert!(data.is_empty());
    assert_eq!(
        stats,
        Statistics { count_visited: 3, count_collected: 0, count_errors: 0, count_retries: 3 }
    );
}

#[test]
fn a_retry_that_succeeds_is_collected() {
    let (seen, data, stats) = retrying(
        RetryPolicy::RetryLast,
        3,
        0,
        vec![Answer::Timeout, Answer::Page(vec![], Some("late"))],
    );
    assert_eq!(urls(&seen), vec!["http://e.com/"; 2]);
    assert_eq!(texts(&data), vec!["late"]);
    assert_eq!(
        stats,
        Statistics { count_visited: 2, count_collected: 1, count_errors: 0, count_retries: 1 }
    );
}

#[test]
fn retries_first_puts_a_cooled_retry_before_new_urls() {
    let (seen, _, _) = retrying(
        RetryPolicy::RetryFirst,
        3,
        0,
        vec![
            Answer::Page(vec!["/1", "/2"], None),
            Answer::Timeout,
            Answer::Page(vec![], None),
            Answer::Page(vec![], None),
        ],
    );
    // The mock fetches take no time, so a retry has not cooled down while new
    // URLs are left: the threshold must be exceeded, not reached.
    assert_eq!(
        urls(&seen),
        vec!["http://e.com/", "http://e.com/2", "http://e.com/1", "http://e.com/2"]
    );
}

#[test]
fn retries_last_puts_new_urls_before_any_retry() {
    let mut config = default_config(vec![Url::parse("http://e.com/").unwrap()], 1, None);
    config.retry_policy = RetryPolicy::RetryLast;
    config.retry_count = 3;
    config.retry_threshold = 0;
    let builder = MockBuilder::new(vec![MockBackend {
        results: vec![
            (Answer::Page(vec!["/1", "/2"], None), 0),
            (Answer::Timeout, 10),
            (Answer::Page(vec![], None), 10),
            (Answer::Page(vec![], None), 10),
        ],
    }]);
    let mut workload: Load = crawl(config, builder);
    let seen = drive(&mut workload, 5, &no_robots, None);
    assert_eq!(
        urls(&seen),
        vec!["http://e.com/", "http://e.com/2", "http://e.com/1", "http://e.com/2"]
    );
}

#[test]
fn retries_first_takes_the_retry_once_it_has_waited() {
    let mut config = default_config(vec![Url::parse("http://e.com/").unwrap()], 1, None);
    config.retry_policy = RetryPolicy::RetryFirst;
    config.retry_count = 3;
    config.retry_threshold = 0;
    // Each fetch takes 10 nanoseconds, so the URL that timed out has waited
    // when the next URL is picked.
    let builder = MockBuilder::new(vec![MockBackend {
        results: vec![
            (Answer::Page(vec!["/1", "/2", "/3"], None), 10),
            (Answer::Timeout, 10),
            (Answer::Page(vec![], None), 10),
            (Answer::Page(vec![], None), 10),
            (Answer::Page(vec![], None), 10),
        ],
    }]);
    let mut workload: Load = crawl(config, builder);
    let seen = drive(&mut workload, 5, &no_robots, None);
    assert_eq!(
        urls(&seen),
        vec![
            "http://e.com/",
            "http://e.com/3",
            "http://e.com/2",
            "http://e.com/3",
            "http://e.com/1"
        ]
    );
}

#[test]
fn a_retry_that_is_cooling_down_is_forced_out_when_nothing_else_is_left() {
    // The threshold is a second, the fetches take no time at all.
    let (seen, _, stats) = retrying(
        RetryPolicy::RetryFirst,
        2,
        1000,
        vec![Answer::Timeout, Answer::Page(vec![], Some("x"))],
    );
    assert_eq!(urls(&seen), vec!["http://e.com/"; 2]);
    assert_eq!(stats.count_retries, 1);
    assert_eq!(stats.count_collected, 1);
}

const ROBOTS: &str = "User-agent: *\nDisallow: /private\n\nUser-agent: friend\nAllow: /\n";

fn with_robots(robot: &str, robots: &dyn Fn(&str) -> Option<Vec<u8>>) -> (Seen, Vec<String>) {
    let mut config = default_config(vec![Url::parse("http://e.com/").unwrap()], 1, None);
    config.use_robots_txt = true;
    config.robot_name = robot.to_string();
    let builder = MockBuilder::new(vec![MockBackend::new(vec![
        (&["/private/a", "/public", "http://other.com/private"], Some("root"), None),
        (&[], Some("1"), None),
        (&[], Some("2"), None),
        (&[], Some("3"), None),
    ])]);
    let mut workload: Load = crawl(config, builder);
    let seen = drive(&mut workload, 0, robots, None);
    let (data, _) = workload.finish();
    (seen, data)
}

#[test]
fn robots_rules_hold_urls_back() {
    let (seen, data) = with_robots("stranger", &|_| Some(ROBOTS.as_bytes().to_vec()));
    assert_eq!(urls(&seen), vec!["http://e.com/", "http://e.com/public"]);
    assert_eq!(data.len(), 2);
    // Each site's file is fetched once; later URLs of the site use the cache.
    assert_eq!(
        seen.robots_fetches,
        vec!["http://e.com/robots.txt", "http://other.com/robots.txt"]
    );
}

#[test]
fn robots_rules_are_read_for_the_robot() {
    let (seen, _) = with_robots("friend", &|_| Some(ROBOTS.as_bytes().to_vec()));
    assert_eq!(
        urls(&seen),
        vec!["http://e.com/", "http://other.com/private", "http://e.com/public", "http://e.com/private/a"]
    );
}

#[test]
fn a_url_whose_robots_file_cannot_be_had_is_dropped() {
    let (seen, data) = with_robots("friend", &|url| {
        if url.starts_with("http://e.com") {
            None
        } else {
            Some(ROBOTS.as_bytes().to_vec())
        }
    });
    // Not even the seed is fetched, and the file is asked for again for
    // every URL of the site.
    assert!(seen.dispatched.is_empty());
    assert!(data.is_empty());
    assert_eq!(seen.robots_fetches, vec!["http://e.com/robots.txt"]);
}

#[test]
fn a_robots_file_that_cannot_be_read_clears_nothing() {
    let (seen, _) = with_robots("friend", &|_| Some(vec![0xff, 0xfe, b'\n']));
    assert!(seen.dispatched.is_empty());
}

#[test]
fn a_robots_file_that_cannot_be_cut_clears_nothing() {
    let (seen, data) = with_robots("friend", &|_| Some("Allow: /\u{e9}\n".as_bytes().to_vec()));
    assert!(seen.dispatched.is_empty());
    assert!(data.is_empty());
}

#[test]
fn seeds_that_differ_in_their_fragment_alone_are_one_url() {
    let config = default_config(
        vec![
            Url::parse("http://e.com/page#one").unwrap(),
            Url::parse("http://e.com/page#two").unwrap(),
            Url::parse("http://e.com/page").unwrap(),
        ],
        2,
        None,
    );
    let builder = MockBuilder::new(vec![MockBackend::new(vec![(
        &["http://e.com/page", "/page#three", "#four"],
        Some("x"),
        None,
    )])]);
    let mut workload: Load = crawl(config, builder);
    let seen = drive(&mut workload, 0, &no_robots, None);
    assert_eq!(seen.dispatched, vec![(0, "http://e.com/page".to_string())]);
    let (_, stats) = workload.finish();
    assert_eq!(stats.count_visited, 1);
}

#[test]
fn a_workload_can_be_put_together_by_hand() {
    let ring = EngineRing::new(MockBuilder::new(vec![MockBackend::new(vec![(&[], Some("x"), None)])]), 1);
    let pool = RetryPool::new(0, 1);
    let mut workload: Load =
        Workload::new(ring, None, RetryPolicy::RetryFirst, pool, false, "robot".to_string());
    assert!(matches!(workload.next(0), Action::Finished));
    workload.start(vec![
        Url::parse("http://e.com/").unwrap(),
        Url::parse("http://e.com/#again").unwrap(),
    ]);
    let seen = drive(&mut workload, 0, &no_robots, None);
    assert_eq!(seen.dispatched.len(), 1);
    let (data, _) = workload.finish();
    assert_eq!(texts(&data), vec!["x"]);
}

#[test]
fn empty_sheduler_test() {
    let config = default_config(vec![], 1, None);
    let mut workload: Load = crawl(config, MockBuilder::new(vec![]));
    assert!(matches!(workload.next(0), Action::Finished));
    let (data, _) = workload.finish();

    assert!(data.is_empty());
}

fn statistics_line(stats: &Statistics) -> String {
    format!(
        "Statistics: visited {}, collected {}, errors {}, retries {}\n",
        stats.count_visited, stats.count_collected, stats.count_errors, stats.count_retries
    )
}

#[test]
fn no_urls() {
    let config = default_config(vec![], 1, None);
    let mut workload: Load = crawl(config, MockBuilder::new(vec![]));
    drive(&mut workload, 0, &no_robots, None);
    let (_, stats) = workload.finish();
    assert!(statistics_line(&stats)
        .ends_with("Statistics: visited 0, collected 0, errors 0, retries 0\n"));
}

#[test]
fn basic() {
    // A page that links to one other page, and to itself.
    let config = default_config(
        vec![Url::parse("http://localhost:8000/www/basic/index.html").unwrap()],
        1,
        None,
    );
    let builder = MockBuilder::new(vec![MockBackend::new(vec![
        (
            &["http://localhost:8000/www/basic/index.html", "/www/basic/second.html"],
            Some("http://localhost:8000/www/basic/index.html"),
            None,
        ),
        (
            &["index.html"],
            Some("http://localhost:8000/www/basic/second.html"),
            None,
        ),
    ])]);
    let mut workload: Load = crawl(config, builder);
    drive(&mut workload, 0, &no_robots, None);
    let (_, stats) = workload.finish();
    assert!(statistics_line(&stats)
        .ends_with("Statistics: visited 2, collected 2, errors 0, retries 0\n"));
}

#[test]
fn basic_with_invalid_driver() {
    let config = default_config(
        vec![Url::parse("http://localhost:8000/www/basic/index.html").unwrap()],
        1,
        None,
    );
    let mut builder = MockBuilder::new(vec![]);
    builder.broken = true;
    let mut workload: Load = crawl(config, builder);
    drive(&mut workload, 0, &no_robots, None);
    let (_, stats) = workload.finish();
    assert!(statistics_line(&stats)
        .ends_with("Statistics: visited 0, collected 0, errors 0, retries 0\n"));
}

#[test]
fn a_crawl_fetches_no_more_than_its_web_and_its_retries_allow() {
    // A web of four pages, every fetch of which times out.
    for cap in 0..4usize {
        let mut config = default_config(vec![Url::parse("http://e.com/").unwrap()], 2, None);
        config.retry_policy = RetryPolicy::RetryFirst;
        config.retry_count = cap;
        config.retry_threshold = 0;
        let mut answers = vec![(Answer::Page(vec!["/1", "/2", "/3"], None), 1)];
        for _ in 0..20 {
            answers.push((Answer::Timeout, 1));
        }
        let more = (0..20).map(|_| (Answer::Timeout, 1)).collect();
        let builder = MockBuilder::new(vec![
            MockBackend { results: answers },
            MockBackend { results: more },
        ]);
        let mut workload: Load = crawl(config, builder);
        let seen = drive(&mut workload, 0, &no_robots, None);
        let web = 4;
        let granted = if cap > 0 { cap - 1 } else { 0 };
        assert!(seen.dispatched.len() <= web + web * granted);
        // The three pages that time out are fetched once and as often again
        // as the pool grants; the first page is fetched once.
        assert_eq!(seen.dispatched.len(), 1 + 3 * (1 + granted));
    }
}

#[test]
fn a_crawl_that_is_finished_has_visited_as_often_as_it_has_fetched() {
    for (policy, engines, limit) in [
        (RetryPolicy::No, 1, None),
        (RetryPolicy::RetryFirst, 2, None),
        (RetryPolicy::RetryLast, 3, Some(2)),
    ] {
        let mut config = default_config(vec![Url::parse("http://e.com/").unwrap()], engines, limit);
        config.retry_policy = policy;
        config.retry_count = 3;
        config.retry_threshold = 0;
        let backends = (0..engines)
            .map(|_| MockBackend {
                results: vec![
                    (Answer::Page(vec!["/1", "/2", "/3", "/4"], Some("x")), 3),
                    (Answer::Timeout, 2),
                    (Answer::Failure, 1),
                    (Answer::Page(vec!["/5"], None), 4),
                    (Answer::Timeout, 1),
                    (Answer::Page(vec![], Some("y")), 2),
                    (Answer::Timeout, 1),
                    (Answer::Timeout, 1),
                    (Answer::Timeout, 1),
                    (Answer::Timeout, 1),
                ],
            })
            .collect();
        let mut workload: Load = crawl(config, MockBuilder::new(backends));
        let seen = drive(&mut workload, 0, &no_robots, None);
        assert_eq!(workload.in_flight(), 0);
        let fetched = seen.dispatched.len();
        // No URL is fetched more often than the cap says.
        for (_, url) in &seen.dispatched {
            let times = seen.dispatched.iter().filter(|(_, other)| other == url).count();
            assert!(times <= if policy == RetryPolicy::No { 1 } else { 3 });
        }
        let (_, stats) = workload.finish();
        assert_eq!(stats.count_visited, fetched);
        // Every visit is an artifact, an error, a retry, or a page without
        // an artifact.
        assert!(stats.count_collected + stats.count_errors + stats.count_retries <= fetched);
    }
}

#[test]
fn no_seed_ends_the_crawl_whatever_the_pool_and_the_ring_hold() {
    for policy in [RetryPolicy::RetryFirst, RetryPolicy::RetryLast, RetryPolicy::No] {
        // A retry pool that holds a URL already, and a ring with one engine
        // out and one idle.
        let mut pool = RetryPool::new(0, 5);
        assert!(pool.keep_retry_at(Url::parse("http://e.com/").unwrap(), 1));
        let builder = MockBuilder::new(vec![
            MockBackend::new(vec![]),
            MockBackend::new(vec![]),
            MockBackend::new(vec![]),
        ]);
        let mut ring = EngineRing::new(builder, 3);
        let first = ring.builder().build().unwrap();
        let out = ring.enroll(first);
        let second = ring.builder().build().unwrap();
        let back = ring.enroll(second);
        ring.return_back(back);

        let mut workload: Load =
            Workload::new(ring, Some(3), policy, pool, true, "robot".to_string());
        workload.start(vec![]);
        for now in [0, 1, 1000] {
            assert!(matches!(workload.next(now), Action::Finished));
        }
        // A fetch that was under way elsewhere changes nothing of it.
        workload.complete(out, Ok((vec![Url::parse("http://e.com/1").unwrap()], Some("x".to_string()))), 5);
        assert!(matches!(workload.next(6), Action::Finished));
        workload.cancel();
        assert!(matches!(workload.next(7), Action::Finished));
        let (data, stats) = workload.finish();
        assert!(data.is_empty());
        assert_eq!(stats, Statistics::default());
    }
}

#[test]
fn a_workload_with_a_filled_pool_and_a_seed_works_the_pool_off() {
    let mut pool = RetryPool::new(0, 5);
    assert!(pool.keep_retry_at(Url::parse("http://e.com/old").unwrap(), 1));
    let builder = MockBuilder::new(vec![MockBackend::new(vec![
        (&[], Some("a"), None),
        (&[], Some("b"), None),
    ])]);
    let ring = EngineRing::new(builder, 1);
    let mut workload: Load =
        Workload::new(ring, None, RetryPolicy::RetryLast, pool, false, "robot".to_string());
    workload.start(vec![Url::parse("http://e.com/new").unwrap()]);
    let seen = drive(&mut workload, 10, &no_robots, None);
    assert_eq!(urls(&seen), vec!["http://e.com/new", "http://e.com/old"]);
}

#[test]
fn a_crawl_takes_no_more_steps_than_is_left_to_do_at_its_start() {
    // A web of five pages behind robots rules, two engines, retries with a
    // cap of 3, and backends that time out now and then.
    let mut config = default_config(vec![Url::parse("http://e.com/").unwrap()], 2, None);
    config.retry_policy = RetryPolicy::RetryFirst;
    config.retry_count = 3;
    config.retry_threshold = 0;
    config.use_robots_txt = true;
    let answers = || MockBackend {
        results: vec![
            (Answer::Page(vec!["/1", "/2", "/3", "/4"], Some("x")), 2),
            (Answer::Timeout, 3),
            (Answer::Page(vec!["/1", "/"], None), 1),
            (Answer::Timeout, 1),
            (Answer::Timeout, 2),
            (Answer::Failure, 1),
            (Answer::Timeout, 1),
            (Answer::Timeout, 1),
            (Answer::Timeout, 1),
            (Answer::Timeout, 1),
            (Answer::Timeout, 1),
            (Answer::Timeout, 1),
        ],
    };
    let mut workload: Load = crawl(config, MockBuilder::new(vec![answers(), answers()]));
    let seen = drive(&mut workload, 0, &|_| Some(b"User-agent: *\nAllow: /\n".to_vec()), None);
    let (web, engines, granted) = (5, 2, 2);
    let fetches = seen.dispatched.len();
    // Each fetch was dispatched and came to its end; then the builds, and
    // the fetches of robots files.
    let steps = 2 * fetches + seen.builds + seen.robots_fetches.len();
    let work_left = web + web * granted;
    let to_do = 2 * work_left + engines + web;
    assert!(fetches <= work_left);
    assert!(seen.builds <= engines);
    assert!(steps <= to_do);
    let (_, stats) = workload.finish();
    assert_eq!(stats.count_visited, fetches);
    assert!(stats.count_collected + stats.count_errors + stats.count_retries <= stats.count_visited);
}

#[test]
fn a_limit_of_artifacts_is_passed_by_no_more_than_the_other_engines() {
    for (limit, engines) in [(1usize, 1usize), (1, 3), (2, 3), (3, 2)] {
        let links: &[&'static str] = &["/1", "/2", "/3", "/4", "/5", "/6", "/7", "/8"];
        let config = default_config(vec![Url::parse("http://e.com/").unwrap()], engines, Some(limit));
        let backends = (0..engines)
            .map(|i| {
                MockBackend::new(vec![
                    (links, if limit > 1 { Some("root") } else { None }, None),
                    (&[], Some("a"), Some(5 + i as u64)),
                    (&[], Some("b"), Some(5)),
                    (&[], Some("c"), Some(5)),
                    (&[], Some("d"), Some(5)),
                ])
            })
            .collect();
        let mut workload: Load = crawl(config, MockBuilder::new(backends));
        drive(&mut workload, 0, &no_robots, None);
        assert!(workload.is_closed());
        let (data, _) = workload.finish();
        assert!(data.len() >= limit);
        assert!(data.len() <= limit + engines - 1);
    }
}
