// This Source Code Form is subject to the terms of the Mozilla Public
// License, v. 2.0. If a copy of the MPL was not distributed with this
// file, You can obtain one at https://mozilla.org/MPL/2.0/.

use doonop::address::Url;
use doonop::retry::{millis_to_nanos, RetryPool};

#[test]
fn get() {
    let mut pool = RetryPool::new(0, 2);
    pool.keep_retry(Url::parse("https://example_1.net").unwrap());
    pool.keep_retry(Url::parse("https://example_2.net").unwrap());
    pool.keep_retry(Url::parse("https://example_3.net").unwrap());
    assert_eq!(
        pool.get_url(false),
        Some(Url::parse("https://example_1.net").unwrap())
    );
    assert_eq!(
        pool.get_url(false),
        Some(Url::parse("https://example_2.net").unwrap())
    );
    assert_eq!(
        pool.get_url(false),
        Some(Url::parse("https://example_3.net").unwrap())
    );
    assert_eq!(pool.get_url(false), None);
}

#[test]
fn get_with_fire() {
    let fire = millis_to_nanos(50);
    let mut pool = RetryPool::new(fire, 2);
    pool.keep_retry_at(Url::parse("https://example_1.net").unwrap(), 1000);
    assert_eq!(pool.get_url_at(false, 1000), None);
    // Exactly the threshold is not yet longer than the threshold.
    assert_eq!(pool.get_url_at(false, 1000 + fire), None);
    assert_eq!(
        pool.get_url_at(false, 1000 + fire + 1),
        Some(Url::parse("https://example_1.net").unwrap())
    );
    assert_eq!(pool.get_url_at(false, 1000 + fire + 1), None);
}

#[test]
fn get_count_retries() {
    let mut pool = RetryPool::new(0, 3);

    for _ in 0..2 {
        let is_not_over = pool.keep_retry(Url::parse("https://example_1.net").unwrap());
        assert_eq!(is_not_over, true);
        assert_eq!(
            pool.get_url(false),
            Some(Url::parse("https://example_1.net").unwrap())
        );
    }

    let is_not_over = pool.keep_retry(Url::parse("https://example_1.net").unwrap());
    assert_eq!(is_not_over, false);
    assert_eq!(pool.get_url(false), None);
}

#[test]
fn get_force() {
    let mut pool = RetryPool::new(millis_to_nanos(50), 2);
    pool.keep_retry(Url::parse("https://example_1.net").unwrap());
    assert_eq!(
        pool.get_url(true),
        Some(Url::parse("https://example_1.net").unwrap())
    );
    assert_eq!(pool.get_url(false), None);
}

#[test]
fn three_urls_come_out_in_the_order_of_their_moments() {
    let mut pool = RetryPool::new(0, 2);
    assert!(pool.keep_retry_at(Url::parse("https://example_1.net").unwrap(), 10));
    assert!(pool.keep_retry_at(Url::parse("https://example_2.net").unwrap(), 20));
    assert!(pool.keep_retry_at(Url::parse("https://example_3.net").unwrap(), 30));
    assert!(!pool.is_empty());
    for name in ["https://example_1.net", "https://example_2.net", "https://example_3.net"] {
        assert_eq!(pool.get_url_at(false, 31), Some(Url::parse(name).unwrap()));
    }
    assert_eq!(pool.get_url_at(false, 31), None);
    assert!(pool.is_empty());
}

#[test]
fn an_earlier_moment_goes_before_a_later_one_whenever_it_was_kept() {
    let mut pool = RetryPool::new(0, 5);
    pool.keep_retry_at(Url::parse("https://late.net").unwrap(), 30);
    pool.keep_retry_at(Url::parse("https://early.net").unwrap(), 10);
    pool.keep_retry_at(Url::parse("https://middle.net").unwrap(), 20);
    assert_eq!(pool.get_url_at(true, 0), Some(Url::parse("https://early.net").unwrap()));
    assert_eq!(pool.get_url_at(true, 0), Some(Url::parse("https://middle.net").unwrap()));
    assert_eq!(pool.get_url_at(true, 0), Some(Url::parse("https://late.net").unwrap()));
    assert_eq!(pool.get_url_at(true, 0), None);
}

#[test]
fn urls_of_one_moment_come_out_newest_first() {
    let mut pool = RetryPool::new(0, 5);
    pool.keep_retry_at(Url::parse("https://a.net").unwrap(), 7);
    pool.keep_retry_at(Url::parse("https://b.net").unwrap(), 7);
    pool.keep_retry_at(Url::parse("https://c.net").unwrap(), 7);
    assert_eq!(pool.get_url_at(false, 8), Some(Url::parse("https://c.net").unwrap()));
    assert_eq!(pool.get_url_at(false, 8), Some(Url::parse("https://b.net").unwrap()));
    assert_eq!(pool.get_url_at(false, 8), Some(Url::parse("https://a.net").unwrap()));
    assert!(pool.is_empty());
}

#[test]
fn a_batch_that_has_not_waited_blocks_the_later_ones() {
    let mut pool = RetryPool::new(100, 5);
    pool.keep_retry_at(Url::parse("https://a.net").unwrap(), 50);
    pool.keep_retry_at(Url::parse("https://b.net").unwrap(), 60);
    assert_eq!(pool.get_url_at(false, 150), None);
    assert_eq!(pool.get_url_at(false, 151), Some(Url::parse("https://a.net").unwrap()));
    assert_eq!(pool.get_url_at(false, 151), None);
    assert_eq!(pool.get_url_at(false, 161), Some(Url::parse("https://b.net").unwrap()));
}

#[test]
fn a_clock_that_went_back_makes_nothing_ready() {
    let mut pool = RetryPool::new(0, 5);
    pool.keep_retry_at(Url::parse("https://a.net").unwrap(), 50);
    assert_eq!(pool.get_url_at(false, 40), None);
    assert_eq!(pool.get_url_at(false, 50), None);
    assert_eq!(pool.get_url_at(true, 40), Some(Url::parse("https://a.net").unwrap()));
}

#[test]
fn a_url_is_kept_fewer_times_than_the_cap() {
    for cap in 0..5usize {
        let mut pool = RetryPool::new(0, cap);
        let mut kept = 0;
        for moment in 0..10u64 {
            if pool.keep_retry_at(Url::parse("https://a.net").unwrap(), moment) {
                kept += 1;
            }
            // Another URL's attempts do not count.
            pool.keep_retry_at(Url::parse("https://b.net").unwrap(), moment);
        }
        assert_eq!(kept, if cap == 0 { 0 } else { cap - 1 });
    }
}

#[test]
fn the_attempt_that_reaches_the_cap_is_refused_and_keeps_nothing() {
    let mut pool = RetryPool::new(0, 1);
    assert_eq!(pool.keep_retry_at(Url::parse("https://a.net").unwrap(), 1), false);
    assert!(pool.is_empty());
    assert_eq!(pool.get_url_at(true, 2), None);
}

#[test]
fn milliseconds_in_nanoseconds() {
    assert_eq!(millis_to_nanos(0), 0);
    assert_eq!(millis_to_nanos(50), 50_000_000);
    assert_eq!(millis_to_nanos(10000), 10_000_000_000);
    assert_eq!(millis_to_nanos(u64::MAX / 1_000_000), (u64::MAX / 1_000_000) * 1_000_000);
    assert_eq!(millis_to_nanos(u64::MAX / 1_000_000 + 1), u64::MAX);
    assert_eq!(millis_to_nanos(u64::MAX), u64::MAX);
}
