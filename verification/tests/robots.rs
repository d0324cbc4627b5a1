// This Source Code Form is subject to the terms of the Mozilla Public
// License, v. 2.0. If a copy of the MPL was not distributed with this
// file, You can obtain one at https://mozilla.org/MPL/2.0/.

use doonop::address::Url;
use doonop::robots::{is_cuttable, RobotsMap, RobotsVerifier, Verdict};

/// Rules in the manner of a large search engine: everybody is kept out of
/// the images, one robot is let in.
const FILE: &str = "User-agent: *\nDisallow: /images/\nDisallow: /search\n\nUser-agent: Twitterbot\nAllow: /images\n";

fn known(map: &RobotsMap, robot: &str, url: &Url) -> Option<bool> {
    match map.is_allowed(robot, url) {
        Verdict::Known(allowed) => Some(allowed),
        _ => None,
    }
}

#[test]
fn test_robots_map() {
    let mut map = RobotsMap::default();
    let url = Url::parse("https://www.yandex.com/images/123").unwrap();
    assert_eq!(
        map.learn("UndefinedRobot", &url, FILE.as_bytes().to_vec()).unwrap(),
        false
    );
    assert_eq!(
        map.learn("Twitterbot", &url, FILE.as_bytes().to_vec()).unwrap(),
        true
    );
    assert_eq!(known(&map, "UndefinedRobot", &url), Some(false));
    assert_eq!(known(&map, "Twitterbot", &url), Some(true));
}

#[test]
fn rules_that_are_missing_are_asked_for_at_the_root_of_the_site() {
    let map = RobotsMap::default();
    let url = Url::parse("https://www.yandex.com/images/123?x#y").unwrap();
    match map.is_allowed("Twitterbot", &url) {
        Verdict::Fetch(place) => assert_eq!(place.as_str(), "https://www.yandex.com/robots.txt"),
        other => panic!("unexpected verdict {:?}", other),
    }
}

#[test]
fn rules_are_kept_by_domain_and_robot() {
    let mut map = RobotsMap::default();
    let url = Url::parse("https://a.com/images/1").unwrap();
    map.learn("robot", &url, FILE.as_bytes().to_vec());
    assert_eq!(known(&map, "robot", &Url::parse("https://a.com/images/2").unwrap()), Some(false));
    assert_eq!(known(&map, "robot", &Url::parse("https://a.com/text").unwrap()), Some(true));
    // Another scheme or port is the same domain.
    assert_eq!(known(&map, "robot", &Url::parse("http://a.com:81/images/2").unwrap()), Some(false));
    // Another robot or another domain is not known.
    assert_eq!(known(&map, "other", &Url::parse("https://a.com/images/2").unwrap()), None);
    assert_eq!(known(&map, "robot", &Url::parse("https://www.a.com/images/2").unwrap()), None);
    // The file that came last counts.
    map.learn("robot", &url, b"User-agent: *\nAllow: /\n".to_vec());
    assert_eq!(known(&map, "robot", &Url::parse("https://a.com/images/2").unwrap()), Some(true));
}

#[test]
fn a_url_without_domain_is_under_no_rules() {
    let mut map = RobotsMap::default();
    let url = Url::parse("http://127.0.0.1/images/1").unwrap();
    assert_eq!(known(&map, "robot", &url), Some(true));
    assert_eq!(map.learn("robot", &url, FILE.as_bytes().to_vec()), Some(true));
    assert_eq!(known(&map, "robot", &url), Some(true));
}

#[test]
fn a_file_that_is_no_text_gives_no_rules() {
    let mut map = RobotsMap::default();
    let url = Url::parse("https://a.com/images/1").unwrap();
    assert_eq!(map.learn("robot", &url, vec![0xff, 0xfe, b'\n']), None);
    assert_eq!(known(&map, "robot", &url), None);
    assert!(RobotsVerifier::new("robot", vec![0xff, 0xfe, b'\n']).is_none());
}

#[test]
fn rules_decide_by_the_path() {
    let rules = RobotsVerifier::new("robot", FILE.as_bytes().to_vec()).unwrap();
    assert!(!rules.is_allowed(&Url::parse("https://a.com/images/1").unwrap()));
    assert!(!rules.is_allowed(&Url::parse("https://a.com/search?q=images").unwrap()));
    assert!(rules.is_allowed(&Url::parse("https://a.com/?q=/images/").unwrap()));
    assert!(rules.is_allowed(&Url::parse("https://a.com/image").unwrap()));
    let none = RobotsVerifier::new("robot", Vec::new()).unwrap();
    assert!(none.is_allowed(&Url::parse("https://a.com/images/1").unwrap()));
}

#[test]
fn a_file_whose_lines_cannot_be_cut_gives_no_rules() {
    // A character of more than one byte lies where a line is cut.
    for file in [
        "Allow: /\u{e9}\n",
        "Disallow: \u{e9}t\u{e9}\n",
        "User-agent: *\n  \t Allow:\u{e9}\n",
        "\u{FEFF}User-agent: *\nDisallow: /\n",
        "\u{3000}Allow: /\n",
        "abc\u{e9}",
    ] {
        assert!(!is_cuttable(file.as_bytes()));
        assert!(RobotsVerifier::new("robot", file.as_bytes().to_vec()).is_none());
        let mut map = RobotsMap::default();
        let url = Url::parse("https://a.com/images/1").unwrap();
        assert_eq!(map.learn("robot", &url, file.as_bytes().to_vec()), None);
        assert_eq!(known(&map, "robot", &url), None);
    }
}

#[test]
fn text_beyond_ascii_is_read_where_no_line_is_cut_in_it() {
    for file in [
        "",
        "\n\n",
        "# caf\u{e9}\nUser-agent: *\nDisallow: /images # \u{e9}\n",
        "User-agent: \u{1F600}\nDisallow: /\n",
        "User-agent: *\r\nDisallow: /caf\u{e9}\r\nAllow: /images/\u{e9}t\u{e9}\r\n",
        "  \t#\u{e9}\n#\u{3000}\nab#\u{e9}",
        "Disallow: /x\u{e9}",
    ] {
        assert!(is_cuttable(file.as_bytes()));
        assert!(RobotsVerifier::new("robot", file.as_bytes().to_vec()).is_some());
    }
    let rules = RobotsVerifier::new(
        "robot",
        "# caf\u{e9}\nUser-agent: *\nDisallow: /images # \u{e9}\n".as_bytes().to_vec(),
    )
    .unwrap();
    assert!(!rules.is_allowed(&Url::parse("https://a.com/images/1").unwrap()));
    assert!(rules.is_allowed(&Url::parse("https://a.com/texts/1").unwrap()));
    // A file that is no text at all can be cut, but gives no rules.
    let mut broken = b"User-agent: *\nDisallow: /images".to_vec();
    broken.extend([0xff, 0xfe, b'\n']);
    assert!(is_cuttable(&broken));
    assert!(RobotsVerifier::new("robot", broken).is_none());
}

/// All the files that are made of up to `n` of the `parts`.
fn files(parts: &[&str], n: usize) -> Vec<String> {
    let mut all = vec![String::new()];
    let mut last = vec![String::new()];
    for _ in 0..n {
        let mut next = Vec::new();
        for file in &last {
            for part in parts {
                next.push(format!("{}{}", file, part));
            }
        }
        all.extend(next.iter().cloned());
        last = next;
    }
    all
}

#[test]
fn every_file_that_can_be_cut_is_read_without_a_failure() {
    // Characters of one, two and three bytes, blanks of one, two and three
    // bytes, comments, line ends, and words as long as the places of the cuts.
    let parts = [
        "\u{e9}", "\u{3000}", "\u{a0}", " ", "\n", "#", "abcde", "user-agent:", "\r", "allow:",
    ];
    let mut cut = 0;
    let mut beyond_ascii = 0;
    for file in files(&parts, 5) {
        if is_cuttable(file.as_bytes()) {
            cut += 1;
            if !file.is_ascii() {
                beyond_ascii += 1;
            }
            // The compiler returns, and what it returns are rules.
            let rules = RobotsVerifier::new("robot", file.as_bytes().to_vec()).unwrap();
            rules.is_allowed(&Url::parse("https://a.com/abcde").unwrap());
        }
    }
    assert!(cut > 10000);
    assert!(beyond_ascii > 1000);
}
