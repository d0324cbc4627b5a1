// This Source Code Form is subject to the terms of the Mozilla Public
// License, v. 2.0. If a copy of the MPL was not distributed with this
// file, You can obtain one at https://mozilla.org/MPL/2.0/.

use doonop::address::Url;
use doonop::filters::{is_ignored_by_any, Filter};

#[test]
fn test_regex() {
    let f = Filter::regex(".jpg$").unwrap();
    assert_eq!(
        f.is_ignored(&Url::parse("http://google.com").unwrap()),
        false
    );
    assert_eq!(
        f.is_ignored(&Url::parse("http://google.com/image.png").unwrap()),
        false
    );
    assert_eq!(
        f.is_ignored(&Url::parse("http://google.com/some/thing/second.jpg").unwrap()),
        true
    );

    let f = Filter::regex("^http://google.com").unwrap();
    assert_eq!(
        f.is_ignored(&Url::parse("http://google.com").unwrap()),
        true
    );
    assert_eq!(
        f.is_ignored(&Url::parse("http://google.com/image.png").unwrap()),
        true
    );
    assert_eq!(
        f.is_ignored(&Url::parse("http://microsoft.com").unwrap()),
        false
    );
}

#[test]
fn test_domain() {
    let f = Filter::Domain(vec!["google.com".to_string(), "www.bing.com".to_string()]);
    assert_eq!(
        f.is_ignored(&Url::parse("http://google.com").unwrap()),
        false
    );
    assert_eq!(
        f.is_ignored(&Url::parse("http://google.com/image.png").unwrap()),
        false
    );
    assert_eq!(
        f.is_ignored(&Url::parse("http://bing.com/image.png?asd=13").unwrap()),
        false
    );
    assert_eq!(
        f.is_ignored(&Url::parse("http://yahoo.com").unwrap()),
        true
    );
}

#[test]
fn a_domain_filter_disregards_www_on_both_sides() {
    let f = Filter::Domain(vec!["google.com".to_string()]);
    assert_eq!(f.is_ignored(&Url::parse("http://google.com/x").unwrap()), false);
    assert_eq!(f.is_ignored(&Url::parse("http://www.google.com").unwrap()), false);
    assert_eq!(f.is_ignored(&Url::parse("http://www.www.google.com").unwrap()), false);
    assert_eq!(f.is_ignored(&Url::parse("http://bing.com").unwrap()), true);
    assert_eq!(f.is_ignored(&Url::parse("http://wwwgoogle.com").unwrap()), true);
    assert_eq!(f.is_ignored(&Url::parse("http://mail.google.com").unwrap()), true);
    assert_eq!(f.is_ignored(&Url::parse("http://google.com.evil.net").unwrap()), true);
    let f = Filter::Domain(vec!["www.".to_string()]);
    assert_eq!(f.is_ignored(&Url::parse("http://www.www/").unwrap()), true);
}

#[test]
fn a_domain_filter_excludes_what_has_no_domain() {
    let f = Filter::Domain(vec!["127.0.0.1".to_string(), "example.net".to_string()]);
    assert_eq!(f.is_ignored(&Url::parse("http://127.0.0.1/x").unwrap()), true);
    assert_eq!(f.is_ignored(&Url::parse("mailto:someone@example.net").unwrap()), true);
    let none = Filter::Domain(Vec::new());
    assert_eq!(none.is_ignored(&Url::parse("http://example.net").unwrap()), true);
}

#[test]
fn a_regex_filter_sees_the_whole_url() {
    let f = Filter::regex(".jpg$").unwrap();
    assert_eq!(f.is_ignored(&Url::parse("http://x.com/a.jpg").unwrap()), true);
    assert_eq!(f.is_ignored(&Url::parse("http://x.com/a.png").unwrap()), false);
    assert_eq!(f.is_ignored(&Url::parse("http://x.com/a.jpg?size=1").unwrap()), false);
    // A pattern that needs more than a plain regex engine offers.
    let f = Filter::regex(r"^(?!https://)").unwrap();
    assert_eq!(f.is_ignored(&Url::parse("http://x.com/").unwrap()), true);
    assert_eq!(f.is_ignored(&Url::parse("https://x.com/").unwrap()), false);
}

#[test]
fn a_pattern_that_does_not_compile_is_no_filter_and_matches_nothing() {
    assert!(Filter::regex("(").is_none());
    assert!(Filter::regex("[a").is_none());
    let broken = Filter::Regex("(".to_string());
    assert_eq!(broken.is_ignored(&Url::parse("http://x.com/(").unwrap()), false);
}

#[test]
fn a_chain_excludes_what_any_of_its_filters_excludes() {
    let chain = vec![
        Filter::regex(".jpg$").unwrap(),
        Filter::Domain(vec!["x.com".to_string()]),
    ];
    assert!(is_ignored_by_any(&chain, &Url::parse("http://x.com/a.jpg").unwrap()));
    assert!(is_ignored_by_any(&chain, &Url::parse("http://y.com/a.png").unwrap()));
    assert!(!is_ignored_by_any(&chain, &Url::parse("http://x.com/a.png").unwrap()));
    assert!(!is_ignored_by_any(&vec![], &Url::parse("http://y.com/a.jpg").unwrap()));
    let copy = chain[1].clone();
    assert!(!copy.is_ignored(&Url::parse("http://www.x.com/").unwrap()));
}
