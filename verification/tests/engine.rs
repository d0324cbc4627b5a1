// This Source Code Form is subject to the terms of the Mozilla Public
// License, v. 2.0. If a copy of the MPL was not distributed with this
// file, You can obtain one at https://mozilla.org/MPL/2.0/.

use doonop::address::Url;
use doonop::engine::{
    make_absolute_url, validate_links, BackendError, DriverError, Engine, SearchResult,
};
use doonop::filters::Filter;

#[test]
fn validate_link() {
    assert_eq!(
        validate_links(
            &Url::parse("https://example.net").unwrap(),
            &vec![
                "https://example_1.net".into(),
                "https://example_1.net?p1=123&p2=asd".into(),
                "/path".into(),
                "/path?p1=123&p2=asd".into()
            ],
            &vec![]
        ),
        vec![
            Url::parse("https://example_1.net").unwrap(),
            Url::parse("https://example_1.net?p1=123&p2=asd").unwrap(),
            Url::parse("https://example.net/path").unwrap(),
            Url::parse("https://example.net/path?p1=123&p2=asd").unwrap(),
        ]
    )
}

#[test]
fn links_lose_their_fragment_after_the_filters_have_seen_it() {
    let base = Url::parse("https://example.net/dir/page").unwrap();
    let filters = vec![Filter::regex("#skip$").unwrap()];
    assert_eq!(
        validate_links(
            &base,
            &vec!["a#top".into(), "b#skip".into(), "#here".into(), "https://other.net/x#y".into()],
            &filters
        ),
        vec![
            Url::parse("https://example.net/dir/a").unwrap(),
            Url::parse("https://example.net/dir/page").unwrap(),
            Url::parse("https://other.net/x").unwrap(),
        ]
    );
}

#[test]
fn links_that_cannot_be_read_or_that_a_filter_excludes_are_dropped() {
    let base = Url::parse("https://example.net").unwrap();
    let filters = vec![
        Filter::regex(".jpg$").unwrap(),
        Filter::Domain(vec!["example.net".to_string()]),
    ];
    assert_eq!(
        validate_links(
            &base,
            &vec![
                "http://[::1".into(),
                "/a.jpg".into(),
                "/a.png".into(),
                "https://www.example.net/b".into(),
                "https://other.net/b".into(),
                "mailto:someone@example.net".into(),
            ],
            &filters
        ),
        vec![
            Url::parse("https://example.net/a.png").unwrap(),
            Url::parse("https://www.example.net/b").unwrap(),
        ]
    );
    assert_eq!(validate_links(&base, &vec![], &filters), vec![]);
}

#[test]
fn a_link_is_absolute_or_relative_to_its_page() {
    let base = Url::parse("http://example.net/a/b").unwrap();
    assert_eq!(
        make_absolute_url(&base, "https://other.net"),
        Some(Url::parse("https://other.net").unwrap())
    );
    assert_eq!(
        make_absolute_url(&base, "c?d=1"),
        Some(Url::parse("http://example.net/a/c?d=1").unwrap())
    );
    assert_eq!(make_absolute_url(&base, "http://[::1"), None);
    let opaque = Url::parse("mailto:someone@example.net").unwrap();
    assert_eq!(make_absolute_url(&opaque, "c"), None);
}

#[test]
fn an_engine_treats_the_page_that_its_backend_found() {
    let engine = Engine::new(3, (), &vec![Filter::regex("private").unwrap()]);
    assert_eq!(engine.id(), 3);
    let page = Url::parse("https://example.net/").unwrap();
    let found = Ok(SearchResult::new(
        vec!["/public".to_string(), "/private".to_string()],
        Some("data".to_string()),
    ));
    let (urls, data) = engine.run(&page, found).unwrap();
    assert_eq!(urls, vec![Url::parse("https://example.net/public").unwrap()]);
    assert_eq!(data, Some("data".to_string()));
    assert_eq!(
        engine.filter_result(&vec!["/private/x".to_string(), "y".to_string()], &page),
        vec![Url::parse("https://example.net/y").unwrap()]
    );
}

#[test]
fn an_engine_hands_a_failure_on_as_it_is() {
    let engine = Engine::new(0, (), &vec![]);
    let page = Url::parse("https://example.net/").unwrap();
    let failure: Result<SearchResult<String>, BackendError> = Err(BackendError::OpenAddress {
        source: DriverError { timeout: true, message: "timeout".to_string() },
        address: page.clone(),
    });
    let error = engine.run(&page, failure).unwrap_err();
    assert!(error.is_timeout());
    assert_eq!(error.address(), Some(&page));
}

#[test]
fn only_a_timeout_of_the_driver_is_a_timeout() {
    let page = Url::parse("https://example.net/").unwrap();
    let slow = DriverError { timeout: true, message: "script timeout".to_string() };
    let broken = DriverError { timeout: false, message: "no such window".to_string() };

    let error = BackendError::RunningScript { source: slow, address: page.clone() };
    assert!(error.is_timeout());
    assert!(error.wb_error().unwrap().timeout);
    assert_eq!(error.address(), Some(&page));

    let error = BackendError::CollectLinks { source: broken, address: page.clone() };
    assert!(!error.is_timeout());
    assert_eq!(error.wb_error().unwrap().message, "no such window");
    assert_eq!(error.address(), Some(&page));

    let error = BackendError::Other { msg: "anything".to_string() };
    assert!(!error.is_timeout());
    assert!(error.wb_error().is_none());
    assert_eq!(error.address(), None);
}

#[test]
fn the_backend_of_an_engine_can_be_used_and_taken() {
    let mut engine = Engine::new(1, vec![1, 2], &vec![]);
    engine.backend_mut().push(3);
    assert_eq!(engine.into_backend(), vec![1, 2, 3]);
}
