// This Source Code Form is subject to the terms of the Mozilla Public
// License, v. 2.0. If a copy of the MPL was not distributed with this
// file, You can obtain one at https://mozilla.org/MPL/2.0/.

use doonop::address::Url;
use doonop::seen::SeenSet;

#[test]
fn a_set_holds_what_was_put_into_it_and_nothing_else() {
    let mut set = SeenSet::new();
    let url = |i: usize| Url::parse(&format!("http://example.net/page/{}?q={}", i, i * 7)).unwrap();
    for i in 0..2000 {
        assert!(!set.contains(&url(i)));
        set.insert(url(i));
        assert!(set.contains(&url(i)));
    }
    for i in 0..2000 {
        assert!(set.contains(&url(i)));
        assert!(!set.contains(&url(i + 2000)));
    }
    // Putting a URL in twice changes nothing that can be seen.
    set.insert(url(1));
    assert!(set.contains(&url(1)));
    // Texts beyond ASCII are kept like any other.
    let far = Url::parse("http://example.net/\u{1F600}/\u{e9}").unwrap();
    assert!(!set.contains(&far));
    set.insert(far.clone());
    assert!(set.contains(&far));
}
