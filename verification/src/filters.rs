// This Source Code Form is subject to the terms of the Mozilla Public
// License, v. 2.0. If a copy of the MPL was not distributed with this
// file, You can obtain one at https://mozilla.org/MPL/2.0/.

//! Rules that exclude URLs from a crawl.
//!
//! A filter is a pure predicate on a URL.  A regex filter denies: it excludes
//! the URLs whose text the pattern matches.  A domain filter allows: it
//! excludes the URLs whose host is not one of the listed domains, a leading
//! `www.` being disregarded on both sides.  A chain of filters excludes what
//! any of its filters excludes.

use crate::address::{url_domain, Url};
use crate::text::{chars_of, has_at, reads_at, same_tail};
use vstd::prelude::*;

verus! {

/// Whether the regular expression `pattern` compiles, as
/// `fancy_regex::Regex::new` decides it.
pub uninterp spec fn regex_compiles(pattern: Seq<char>) -> bool;

/// What `fancy_regex::Regex::is_match` answers for the compiled `pattern` on
/// `text`; `None` where the pattern does not compile or the search gives up
/// with an error.
pub uninterp spec fn regex_match(pattern: Seq<char>, text: Seq<char>) -> Option<bool>;

/// `fancy_regex::Regex::new`: tells whether the pattern is accepted.
#[verifier::external_body]
fn regex_compiles_text(pattern: &str) -> (r: bool)
    ensures
        r == regex_compiles(pattern@),
{
    fancy_regex::Regex::new(pattern).is_ok()
}

/// `fancy_regex::Regex::is_match` on the regex compiled from `pattern`: the
/// answer is the one named [`regex_match`].
#[verifier::external_body]
fn regex_match_text(pattern: &str, text: &str) -> (r: Option<bool>)
    ensures
        r == regex_match(pattern@, text@),
{
    match fancy_regex::Regex::new(pattern) {
        Ok(re) => re.is_match(text).ok(),
        Err(_) => None,
    }
}

/// The prefix that a domain filter disregards.
pub open spec fn www() -> Seq<char> {
    seq!['w', 'w', 'w', '.']
}

/// `s` without any leading repetitions of `www.`.
pub open spec fn strip_www(s: Seq<char>) -> Seq<char>
    decreases s.len(),
{
    if reads_at(s, 0, www()) {
        strip_www(s.skip(4))
    } else {
        s
    }
}

/// Whether `host` and `domain` name the same site.
pub open spec fn same_site(host: Seq<char>, domain: Seq<char>) -> bool {
    strip_www(host) == strip_www(domain)
}

/// Whether one of `domains` names the site of `host`.
pub open spec fn site_listed(domains: Seq<Seq<char>>, host: Seq<char>) -> bool {
    exists|i: int| 0 <= i < domains.len() && same_site(host, #[trigger] domains[i])
}

/// A filter as a mathematical value.
pub enum FilterView {
    Regex(Seq<char>),
    Domain(Seq<Seq<char>>),
}

impl FilterView {
    /// Whether this filter excludes the URL `url`.
    pub open spec fn ignores(self, url: Seq<char>) -> bool {
        match self {
            FilterView::Regex(pattern) => regex_match(pattern, url) == Some(true),
            FilterView::Domain(domains) => match url_domain(url) {
                Some(host) => !site_listed(domains, host),
                None => true,
            },
        }
    }
}

/// Whether one of `filters` excludes the URL `url`.
pub open spec fn chain_ignores(filters: Seq<FilterView>, url: Seq<char>) -> bool {
    exists|i: int| 0 <= i < filters.len() && (#[trigger] filters[i]).ignores(url)
}

/// The texts of `v`.
pub open spec fn texts(v: Seq<String>) -> Seq<Seq<char>> {
    Seq::new(v.len(), |i: int| v[i]@)
}

/// The filters of `v` as mathematical values.
pub open spec fn filter_views(v: Seq<Filter>) -> Seq<FilterView> {
    Seq::new(v.len(), |i: int| v[i]@)
}

/// A rule that excludes URLs.
#[derive(Debug)]
pub enum Filter {
    /// Excludes the URLs whose text this regular expression matches.  The
    /// expression is kept as it is written and compiled for each match; one
    /// that does not compile, or whose search gives up, matches nothing.
    Regex(String),
    /// Excludes the URLs whose host is none of these domains.
    Domain(Vec<String>),
}

impl View for Filter {
    type V = FilterView;

    open spec fn view(&self) -> FilterView {
        match self {
            Filter::Regex(pattern) => FilterView::Regex(pattern@),
            Filter::Domain(domains) => FilterView::Domain(texts(domains@)),
        }
    }
}

/// A copy of `v`.
pub fn clone_texts(v: &Vec<String>) -> (r: Vec<String>)
    ensures
        texts(r@) == texts(v@),
{
    let mut r: Vec<String> = Vec::new();
    let mut i: usize = 0;
    while i < v.len()
        invariant
            i <= v.len(),
            r.len() == i,
            forall|k: int| 0 <= k < i ==> r@[k]@ == v@[k]@,
        decreases v.len() - i,
    {
        r.push(v[i].clone());
        i += 1;
    }
    assert(texts(r@) =~= texts(v@));
    r
}

impl Clone for Filter {
    fn clone(&self) -> (r: Self)
        ensures
            r@ == self@,
    {
        match self {
            Filter::Regex(pattern) => Filter::Regex(pattern.clone()),
            Filter::Domain(domains) => Filter::Domain(clone_texts(domains)),
        }
    }
}

/// A copy of `v`.
pub fn clone_filters(v: &Vec<Filter>) -> (r: Vec<Filter>)
    ensures
        filter_views(r@) == filter_views(v@),
{
    let mut r: Vec<Filter> = Vec::new();
    let mut i: usize = 0;
    while i < v.len()
        invariant
            i <= v.len(),
            r.len() == i,
            forall|k: int| 0 <= k < i ==> r@[k]@ == v@[k]@,
        decreases v.len() - i,
    {
        r.push(v[i].clone());
        i += 1;
    }
    assert(filter_views(r@) =~= filter_views(v@));
    r
}

/// How many leading characters of `v` are repetitions of `www.`.
fn www_len(v: &Vec<char>) -> (k: usize)
    ensures
        k <= v.len(),
        strip_www(v@) == v@.skip(k as int),
{
    let mut prefix: Vec<char> = Vec::new();
    prefix.push('w');
    prefix.push('w');
    prefix.push('w');
    prefix.push('.');
    assert(prefix@ =~= www());
    let mut k: usize = 0;
    assert(v@.skip(0) =~= v@);
    loop
        invariant
            k <= v.len(),
            prefix@ == www(),
            strip_www(v@) == strip_www(v@.skip(k as int)),
        ensures
            k <= v.len(),
            strip_www(v@) == v@.skip(k as int),
        decreases v.len() - k,
    {
        if !has_at(v, k, &prefix) {
            proof {
                let rest = v@.skip(k as int);
                if reads_at(rest, 0, www()) {
                    assert(rest.subrange(0, 4) =~= v@.subrange(k as int, k + 4));
                    assert(false);
                }
            }
            break ;
        }
        proof {
            let rest = v@.skip(k as int);
            assert(rest.subrange(0, 4) =~= v@.subrange(k as int, k + 4));
            assert(reads_at(rest, 0, www()));
            assert(rest.skip(4) =~= v@.skip(k + 4));
        }
        k += 4;
    }
    k
}

impl Filter {
    /// A regex filter for `pattern`, if the pattern compiles.
    pub fn regex(pattern: &str) -> (r: Option<Filter>)
        ensures
            r.is_some() == regex_compiles(pattern@),
            r.is_some() ==> r.unwrap()@ == FilterView::Regex(pattern@),
    {
        if regex_compiles_text(pattern) {
            Some(Filter::Regex(pattern.to_owned()))
        } else {
            None
        }
    }

    /// Whether this filter excludes `url`.
    pub fn is_ignored(&self, url: &Url) -> (r: bool)
        ensures
            r == self@.ignores(url@),
    {
        match self {
            Filter::Regex(pattern) => {
                match regex_match_text(pattern.as_str(), url.as_str()) {
                    Some(found) => found,
                    None => false,
                }
            },
            Filter::Domain(domains) => {
                match url.domain() {
                    Some(host) => !is_listed(domains, host.as_str()),
                    None => true,
                }
            },
        }
    }
}

/// Whether one of `domains` names the site of `host`.
pub fn is_listed(domains: &Vec<String>, host: &str) -> (r: bool)
    ensures
        r == site_listed(texts(domains@), host@),
{
    let h = chars_of(host);
    let hk = www_len(&h);
    let mut i: usize = 0;
    while i < domains.len()
        invariant
            i <= domains.len(),
            h@ == host@,
            hk <= h.len(),
            strip_www(h@) == h@.skip(hk as int),
            forall|k: int| 0 <= k < i ==> !same_site(host@, #[trigger] texts(domains@)[k]),
        decreases domains.len() - i,
    {
        let d = chars_of(domains[i].as_str());
        let dk = www_len(&d);
        if same_tail(&h, hk, &d, dk) {
            assert(same_site(host@, texts(domains@)[i as int]));
            return true;
        }
        i += 1;
    }
    false
}

/// Whether one of `filters` excludes `url`.
pub fn is_ignored_by_any(filters: &Vec<Filter>, url: &Url) -> (r: bool)
    ensures
        r == chain_ignores(filter_views(filters@), url@),
{
    let mut i: usize = 0;
    while i < filters.len()
        invariant
            i <= filters.len(),
            forall|k: int| 0 <= k < i ==> !(#[trigger] filter_views(filters@)[k]).ignores(url@),
        decreases filters.len() - i,
    {
        if filters[i].is_ignored(url) {
            assert(filter_views(filters@)[i as int].ignores(url@));
            return true;
        }
        i += 1;
    }
    false
}

} // verus!
