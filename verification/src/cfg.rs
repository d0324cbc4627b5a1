// This Source Code Form is subject to the terms of the Mozilla Public
// License, v. 2.0. If a copy of the MPL was not distributed with this
// file, You can obtain one at https://mozilla.org/MPL/2.0/.

//! The settings of a crawl as the user writes them, and how they are read.
//!
//! Reading the settings touches no file: the texts of the check file and of
//! the seed file are handed in by the caller.

use crate::address::{url_parse, url_texts, Parsed, Url, UrlError};
use crate::engine_builder::{
    text_of, Browser, ManualProxy, ManualProxyView, Proxy, ProxyView, WebDriverConfig,
};
use crate::filters::{
    chain_ignores, filter_views, is_ignored_by_any, regex_compiles, texts, Filter, FilterView,
};
use crate::text::{
    chars_of, comes_before, copy_range, find, in_bounds, lemma_insert_contains,
    lemma_precedes_total, lemma_push_contains,
    lemma_precedes_trans, line_ranges, lines, parse_u8, pieces, precedes, range_is, same_text,
    split_once, split_ranges, split_terminator, u8_value,
};
use crate::workload::RetryPolicy;
use crate::{Code, CodeType, CrawlConfig};
use vstd::prelude::*;

verus! {

/// How long a page may take to load where the user says nothing, in
/// milliseconds.
pub const DEFAULT_LOAD_TIME: u64 = 10000;

/// The number of engines where the user says nothing.
pub const DEFAULT_AMOUNT_OF_ENGINES: usize = 1;

/// What is wrong with the settings.
#[derive(Debug, Clone, Copy, PartialEq, Eq, Structural)]
pub enum ConfigFault {
    /// The address of the driver is no URL.
    WebDriverAddress,
    /// The check file could not be read from the disk.
    CheckFile,
    /// The proxy setting cannot be read.
    Proxy,
    /// A pattern of the ignore list is no regular expression.
    IgnoreList,
    /// A filter cannot be read.
    Filter,
    /// One of the URLs to start from is no URL.
    Urls,
    /// The seed file could not be read from the disk, or a line of it is no
    /// URL.
    SeedFile,
}

/// The settings cannot be used.
#[derive(Debug)]
pub struct ConfigError {
    pub fault: ConfigFault,
    pub message: String,
}

/// What the error for `fault` says first.
pub open spec fn fault_phrase(fault: ConfigFault) -> Seq<char> {
    match fault {
        ConfigFault::WebDriverAddress => "Failed to parse a webdriver address"@,
        ConfigFault::CheckFile => "Failed to read an check file"@,
        ConfigFault::Proxy => "Failed to parse proxy setting"@,
        ConfigFault::IgnoreList => "Failed to parse regexes in an ignore list"@,
        ConfigFault::Filter => "Failed to parse a filter"@,
        ConfigFault::Urls => "Failed to get urls from Config"@,
        ConfigFault::SeedFile => "Failed to get urls from a seed file"@,
    }
}

/// Why `text` is no absolute URL, in words.
pub open spec fn url_fault_text(text: Seq<char>) -> Seq<char> {
    match url_parse(text) {
        Parsed::Failed(e) => e.words(),
        Parsed::Absolute(_) => Seq::empty(),
    }
}

impl ConfigError {
    /// Whether this is the error for `fault` with the detail `detail`: its
    /// message names the fault, then the detail.
    pub open spec fn says(&self, fault: ConfigFault, detail: Seq<char>) -> bool {
        self.fault == fault && self.message@ == fault_phrase(fault) + seq![' '] + detail
    }
}

/// `msg` and `e` with a blank between them: the text of an error that says
/// what failed and why.
pub fn wrap_err(msg: &str, e: &str) -> (r: String)
    ensures
        r@ == msg@ + seq![' '] + e@,
{
    crate::engine_builder::wrap_err(msg, e)
}

/// The script that is run on a page where the user names none: it gives the
/// page's address.
pub fn default_code_file() -> (r: &'static str)
    ensures
        r@ == "return window.location.href"@,
{
    "return window.location.href"
}

/// What came of reading a file that the settings may name.
#[derive(Debug)]
pub enum FileText {
    /// The settings name no such file.
    Absent,
    /// The text of the file.
    Text(String),
    /// The file could not be read, and why.
    Unreadable(String),
}

/// What came of reading a file, as a mathematical value.
pub enum FileView {
    Absent,
    Text(Seq<char>),
    Unreadable(Seq<char>),
}

impl FileView {
    /// The text of the file, if it was read.
    pub open spec fn text(self) -> Option<Seq<char>> {
        match self {
            FileView::Text(text) => Some(text),
            _ => None,
        }
    }
}

impl View for FileText {
    type V = FileView;

    open spec fn view(&self) -> FileView {
        match self {
            FileText::Absent => FileView::Absent,
            FileText::Text(text) => FileView::Text(text@),
            FileText::Unreadable(why) => FileView::Unreadable(why@),
        }
    }
}

/// The settings of a crawl as the user writes them.
#[derive(Debug)]
pub struct Cfg {
    /// The path of the script that is run on each page.
    pub check_file: Option<String>,
    /// The number of engines.
    pub count_searchers: Option<usize>,
    /// The number of artifacts after which the crawl stops.
    pub limit: Option<usize>,
    /// How long a page may take to load, in milliseconds.
    pub page_load_timeout: Option<u64>,
    /// Regular expressions; a URL that one of them matches is left out.
    pub ignore: Option<Vec<String>>,
    /// Filters, such as `domain=example.net`.
    pub filter: Option<Vec<String>>,
    /// The path of a file that holds one URL to start from on each line.
    pub seed_file: Option<String>,
    pub browser: Browser,
    pub retry_policy: RetryPolicy,
    /// How long a URL waits for its retry, in milliseconds.
    pub retry_threshold_milis: u64,
    /// The number of attempts at which a URL is given up.
    pub retry_count: usize,
    /// The proxy, such as `sock;address=https://example.net;version=5`.
    pub proxy: Option<String>,
    /// The address of the browser driver.
    pub webdriver_url: String,
    pub use_robots_txt: bool,
    /// The name under which the robots rules are read.
    pub robot_name: String,
    /// The URLs to start from.
    pub urls: Vec<String>,
}

/// The browser that `s` names.
pub open spec fn browser_of(s: Seq<char>) -> Option<Browser> {
    if s == "Firefox"@ || s == "firefox"@ || s == "geckodriver"@ {
        Some(Browser::Firefox)
    } else if s == "Chrome"@ || s == "chrome"@ || s == "chromedriver"@ {
        Some(Browser::Chrome)
    } else {
        None
    }
}

/// The retry policy that `s` names.
pub open spec fn retry_policy_of(s: Seq<char>) -> Option<RetryPolicy> {
    if s == "no"@ || s == "No"@ || s == "off"@ || s == "Off"@ {
        Some(RetryPolicy::No)
    } else if s == "first"@ || s == "First"@ {
        Some(RetryPolicy::RetryFirst)
    } else if s == "last"@ || s == "Last"@ {
        Some(RetryPolicy::RetryLast)
    } else {
        None
    }
}

impl Browser {
    /// Reads the name of a browser or of its driver.
    pub fn parse(s: &str) -> (r: Option<Browser>)
        ensures
            r == browser_of(s@),
    {
        if same_text(s, "Firefox") || same_text(s, "firefox") || same_text(s, "geckodriver") {
            Some(Browser::Firefox)
        } else if same_text(s, "Chrome") || same_text(s, "chrome") || same_text(s, "chromedriver") {
            Some(Browser::Chrome)
        } else {
            None
        }
    }
}

impl std::str::FromStr for Browser {
    type Err = &'static str;

    fn from_str(s: &str) -> (r: Result<Self, Self::Err>)
        ensures
            r.is_ok() == browser_of(s@).is_some(),
            r.is_ok() ==> r.unwrap() == browser_of(s@).unwrap(),
    {
        match Browser::parse(s) {
            Some(browser) => Ok(browser),
            None => Err(""),
        }
    }
}

/// The kind of script that `s` names.
pub open spec fn code_type_of(s: Seq<char>) -> Option<CodeType> {
    if s == "js"@ || s == "Js"@ || s == "javascript"@ {
        Some(CodeType::Js)
    } else if s == "side"@ || s == "Side"@ {
        Some(CodeType::Side)
    } else {
        None
    }
}

impl CodeType {
    /// Reads the name of a kind of script.
    pub fn parse(s: &str) -> (r: Option<CodeType>)
        ensures
            r == code_type_of(s@),
    {
        if same_text(s, "js") || same_text(s, "Js") || same_text(s, "javascript") {
            Some(CodeType::Js)
        } else if same_text(s, "side") || same_text(s, "Side") {
            Some(CodeType::Side)
        } else {
            None
        }
    }
}

impl std::str::FromStr for CodeType {
    type Err = &'static str;

    fn from_str(s: &str) -> (r: Result<Self, Self::Err>)
        ensures
            r.is_ok() == code_type_of(s@).is_some(),
            r.is_ok() ==> r.unwrap() == code_type_of(s@).unwrap(),
    {
        match CodeType::parse(s) {
            Some(kind) => Ok(kind),
            None => Err(""),
        }
    }
}

impl RetryPolicy {
    /// Reads the name of a retry policy.
    pub fn parse(s: &str) -> (r: Option<RetryPolicy>)
        ensures
            r == retry_policy_of(s@),
    {
        if same_text(s, "no") || same_text(s, "No") || same_text(s, "off") || same_text(s, "Off") {
            Some(RetryPolicy::No)
        } else if same_text(s, "first") || same_text(s, "First") {
            Some(RetryPolicy::RetryFirst)
        } else if same_text(s, "last") || same_text(s, "Last") {
            Some(RetryPolicy::RetryLast)
        } else {
            None
        }
    }
}

impl std::str::FromStr for RetryPolicy {
    type Err = &'static str;

    fn from_str(s: &str) -> (r: Result<Self, Self::Err>)
        ensures
            r.is_ok() == retry_policy_of(s@).is_some(),
            r.is_ok() ==> r.unwrap() == retry_policy_of(s@).unwrap(),
    {
        match RetryPolicy::parse(s) {
            Some(policy) => Ok(policy),
            None => Err(""),
        }
    }
}

/// The value that the last of `pairs` with the name `key` gives.
pub open spec fn setting(pairs: Seq<(Seq<char>, Seq<char>)>, key: Seq<char>) -> Option<Seq<char>>
    decreases pairs.len(),
{
    if pairs.len() == 0 {
        None
    } else if pairs.last().0 == key {
        Some(pairs.last().1)
    } else {
        setting(pairs.drop_last(), key)
    }
}

/// The names and values that the parts of a setting after its first part
/// give, each split at its first `=`; `None` where one of them has no `=`.
pub open spec fn settings(parts: Seq<Seq<char>>) -> Option<Seq<(Seq<char>, Seq<char>)>>
    decreases parts.len(),
{
    if parts.len() <= 1 {
        Some(Seq::empty())
    } else {
        match (settings(parts.drop_last()), split_once(parts.last(), '=')) {
            (Some(pairs), Some(pair)) => Some(pairs.push(pair)),
            _ => None,
        }
    }
}

/// The proxy of the kind `kind` with the settings `pairs`.
pub open spec fn proxy_with(kind: Seq<char>, pairs: Seq<(Seq<char>, Seq<char>)>) -> Option<
    ProxyView,
> {
    if kind == "sock"@ {
        match (setting(pairs, "address"@), setting(pairs, "version"@)) {
            (Some(address), Some(version)) => match u8_value(version) {
                Some(n) => Some(
                    ProxyView::Manual(
                        ManualProxyView::Sock {
                            address,
                            version: n,
                            username: setting(pairs, "username"@),
                            password: setting(pairs, "password"@),
                        },
                    ),
                ),
                None => None,
            },
            _ => None,
        }
    } else if kind == "http"@ {
        match setting(pairs, "address"@) {
            Some(address) => Some(ProxyView::Manual(ManualProxyView::Http(address))),
            None => None,
        }
    } else if kind == "auto-config"@ {
        match setting(pairs, "address"@) {
            Some(address) => Some(ProxyView::AutoConfig(address)),
            None => None,
        }
    } else if kind == "auto-detect"@ {
        Some(ProxyView::AutoDetect)
    } else if kind == "direct"@ {
        Some(ProxyView::Direct)
    } else if kind == "system"@ {
        Some(ProxyView::System)
    } else {
        None
    }
}

/// The proxy that `s` describes: a kind, then settings of the form
/// `name=value`, all of them parted by `;`.
pub open spec fn proxy_of(s: Seq<char>) -> Option<ProxyView> {
    let parts = split_terminator(s, ';');
    match settings(parts) {
        Some(pairs) => if parts.len() == 0 {
            None
        } else {
            proxy_with(parts[0], pairs)
        },
        None => None,
    }
}

/// The proxy of `p`, if there is one, as a mathematical value.
pub open spec fn proxy_view(p: Option<Proxy>) -> Option<ProxyView> {
    match p {
        Some(proxy) => Some(proxy@),
        None => None,
    }
}

/// The texts that the pairs of ranges `pairs` mark in `s`.
spec fn pair_texts(s: Seq<char>, pairs: Seq<((usize, usize), (usize, usize))>) -> Seq<
    (Seq<char>, Seq<char>),
> {
    Seq::new(
        pairs.len(),
        |i: int|
            (
                s.subrange(pairs[i].0.0 as int, pairs[i].0.1 as int),
                s.subrange(pairs[i].1.0 as int, pairs[i].1.1 as int),
            ),
    )
}

spec fn pairs_in_bounds(pairs: Seq<((usize, usize), (usize, usize))>, len: int) -> bool {
    forall|i: int|
        0 <= i < pairs.len() ==> {
            &&& (#[trigger] pairs[i]).0.0 <= pairs[i].0.1 <= len
            &&& pairs[i].1.0 <= pairs[i].1.1 <= len
        }
}

/// The value that the last of `pairs` with the name `key` gives.
fn lookup(v: &Vec<char>, pairs: &Vec<((usize, usize), (usize, usize))>, key: &str) -> (r: Option<
    (usize, usize),
>)
    requires
        pairs_in_bounds(pairs@, v.len() as int),
    ensures
        match r {
            Some(range) => range.0 <= range.1 <= v.len() && setting(pair_texts(v@, pairs@), key@)
                == Some(v@.subrange(range.0 as int, range.1 as int)),
            None => setting(pair_texts(v@, pairs@), key@).is_none(),
        },
{
    let ghost all = pair_texts(v@, pairs@);
    let mut i: usize = pairs.len();
    assert(all.take(i as int) =~= all);
    while i > 0
        invariant
            i <= pairs.len(),
            all == pair_texts(v@, pairs@),
            pairs_in_bounds(pairs@, v.len() as int),
            setting(all, key@) == setting(all.take(i as int), key@),
        decreases i,
    {
        let (name, value) = pairs[i - 1];
        assert(all.take(i as int).last() == all[i - 1]);
        if range_is(v, name.0, name.1, key) {
            return Some(value);
        }
        assert(all.take(i as int).drop_last() =~= all.take(i - 1));
        i -= 1;
    }
    None
}

/// The text that `range` marks in `s`, if there is a range.
fn copy_optional(s: &str, range: Option<(usize, usize)>) -> (r: Option<String>)
    requires
        range.is_some() ==> range.unwrap().0 <= range.unwrap().1 <= s@.len(),
    ensures
        text_of(r) == match range {
            Some(range) => Some(s@.subrange(range.0 as int, range.1 as int)),
            None => None,
        },
{
    match range {
        Some((from, to)) => Some(copy_range(s, from, to)),
        None => None,
    }
}

/// Reads a proxy setting; see [`proxy_of`].
pub fn parse_proxy(s: &str) -> (r: Option<Proxy>)
    ensures
        proxy_view(r) == proxy_of(s@),
{
    let v = chars_of(s);
    assert(v@.subrange(0, v.len() as int) =~= v@);
    let parts = split_ranges(&v, 0, v.len(), ';');
    let ghost texts = split_terminator(s@, ';');
    let mut pairs: Vec<((usize, usize), (usize, usize))> = Vec::new();
    let mut i: usize = 1;
    assert(pair_texts(v@, pairs@) =~= Seq::<(Seq<char>, Seq<char>)>::empty());
    while i < parts.len()
        invariant
            1 <= i,
            v@ == s@,
            in_bounds(parts@, v.len() as int),
            pieces(v@, parts@) == texts,
            pairs_in_bounds(pairs@, v.len() as int),
            texts == split_terminator(s@, ';'),
            i <= parts.len() || parts.len() == 0,
            i <= parts.len() ==> settings(texts.take(i as int)) == Some(pair_texts(v@, pairs@)),
        decreases parts.len() - i,
    {
        let (from, to) = parts[i];
        let at = find(&v, from, to, '=');
        proof {
            assert(texts.take(i + 1).drop_last() =~= texts.take(i as int));
            assert(texts.take(i + 1).last() == v@.subrange(from as int, to as int));
        }
        if at == to {
            proof {
                assert(texts[i as int] == v@.subrange(from as int, to as int));
                lemma_settings_fail(texts, i as int);
            }
            return None;
        }
        let ghost before = pair_texts(v@, pairs@);
        pairs.push(((from, at), (at + 1, to)));
        proof {
            let piece = v@.subrange(from as int, to as int);
            assert(piece.take(at - from) =~= v@.subrange(from as int, at as int));
            assert(piece.skip(at - from + 1) =~= v@.subrange(at + 1, to as int));
            assert(pair_texts(v@, pairs@) =~= before.push(
                (v@.subrange(from as int, at as int), v@.subrange(at + 1, to as int)),
            ));
        }
        i += 1;
    }
    if parts.len() == 0 {
        return None;
    }
    assert(texts.take(parts.len() as int) =~= texts);
    let (from, to) = parts[0];
    assert(texts[0] == v@.subrange(from as int, to as int));
    proxy_from(s, &v, from, to, &pairs)
}

/// The proxy of the kind that stands in `v` from `from` to `to`, with the
/// settings that `pairs` mark.
fn proxy_from(
    s: &str,
    v: &Vec<char>,
    from: usize,
    to: usize,
    pairs: &Vec<((usize, usize), (usize, usize))>,
) -> (r: Option<Proxy>)
    requires
        v@ == s@,
        from <= to <= v.len(),
        pairs_in_bounds(pairs@, v.len() as int),
    ensures
        proxy_view(r) == proxy_with(v@.subrange(from as int, to as int), pair_texts(v@, pairs@)),
{
    if range_is(v, from, to, "sock") {
        let address = lookup(v, pairs, "address");
        let version = lookup(v, pairs, "version");
        match (address, version) {
            (Some(address), Some(version)) => match parse_u8(v, version.0, version.1) {
                Some(n) => {
                    let username = copy_optional(s, lookup(v, pairs, "username"));
                    let password = copy_optional(s, lookup(v, pairs, "password"));
                    Some(
                        Proxy::Manual(
                            ManualProxy::Sock {
                                address: copy_range(s, address.0, address.1),
                                version: n,
                                username,
                                password,
                            },
                        ),
                    )
                },
                None => None,
            },
            _ => None,
        }
    } else if range_is(v, from, to, "http") {
        match lookup(v, pairs, "address") {
            Some(address) => Some(
                Proxy::Manual(ManualProxy::Http(copy_range(s, address.0, address.1))),
            ),
            None => None,
        }
    } else if range_is(v, from, to, "auto-config") {
        match lookup(v, pairs, "address") {
            Some(address) => Some(Proxy::AutoConfig(copy_range(s, address.0, address.1))),
            None => None,
        }
    } else if range_is(v, from, to, "auto-detect") {
        Some(Proxy::AutoDetect)
    } else if range_is(v, from, to, "direct") {
        Some(Proxy::Direct)
    } else if range_is(v, from, to, "system") {
        Some(Proxy::System)
    } else {
        None
    }
}

/// A part without `=` spoils the settings, wherever it stands.
proof fn lemma_settings_fail(parts: Seq<Seq<char>>, at: int)
    requires
        1 <= at < parts.len(),
        split_once(parts[at], '=').is_none(),
    ensures
        settings(parts).is_none(),
    decreases parts.len(),
{
    if at < parts.len() - 1 {
        lemma_settings_fail(parts.drop_last(), at);
    }
}

/// The domain that the filter `s` allows: the value of a filter that is
/// written `domain=value`.
pub open spec fn filter_of(s: Seq<char>) -> Option<Seq<char>> {
    match split_once(s, '=') {
        Some((name, value)) => if name == "domain"@ {
            Some(value)
        } else {
            None
        },
        None => None,
    }
}

/// Reads a filter; see [`filter_of`].
pub fn parse_filter(s: &str) -> (r: Option<Filter>)
    ensures
        match filter_of(s@) {
            Some(value) => r.is_some() && r.unwrap()@ == FilterView::Domain(seq![value]),
            None => r.is_none(),
        },
{
    let v = chars_of(s);
    assert(v@.subrange(0, v.len() as int) =~= v@);
    let at = find(&v, 0, v.len(), '=');
    if at == v.len() {
        return None;
    }
    assert(v@.take(at as int) =~= v@.subrange(0, at as int));
    assert(v@.skip(at + 1) =~= v@.subrange(at + 1, v.len() as int));
    if !range_is(&v, 0, at, "domain") {
        return None;
    }
    let mut domains: Vec<String> = Vec::new();
    domains.push(copy_range(s, at + 1, v.len()));
    assert(texts(domains@) =~= seq![v@.skip(at + 1)]);
    Some(Filter::Domain(domains))
}

/// The texts of `v`, if there is a list.
pub open spec fn texts_of(v: Option<Vec<String>>) -> Option<Seq<Seq<char>>> {
    match v {
        Some(list) => Some(texts(list@)),
        None => None,
    }
}

/// Whether every pattern of `patterns` is a regular expression.
pub open spec fn all_compile(patterns: Seq<Seq<char>>) -> bool {
    forall|i: int| 0 <= i < patterns.len() ==> regex_compiles(#[trigger] patterns[i])
}

/// The regex filters of `patterns`, in their order.
pub open spec fn regex_filters(patterns: Seq<Seq<char>>) -> Seq<FilterView> {
    Seq::new(patterns.len(), |i: int| FilterView::Regex(patterns[i]))
}

/// The filters of an ignore list: one regex filter for each pattern, or no
/// list where a pattern is no regular expression.
pub open spec fn ignore_filters(ignore: Option<Seq<Seq<char>>>) -> Option<Seq<FilterView>> {
    match ignore {
        Some(patterns) => if all_compile(patterns) {
            Some(regex_filters(patterns))
        } else {
            None
        },
        None => Some(Seq::empty()),
    }
}

/// Whether every filter of `list` can be read.
pub open spec fn all_filters_read(list: Seq<Seq<char>>) -> bool {
    forall|i: int| 0 <= i < list.len() ==> filter_of(#[trigger] list[i]).is_some()
}

/// The domains that the filters of `list` allow, in their order.
pub open spec fn filter_domains(list: Seq<Seq<char>>) -> Seq<Seq<char>> {
    Seq::new(list.len(), |i: int| filter_of(list[i]).unwrap())
}

/// The filters of a list of filters: one domain filter that allows the
/// domains of all of them, or no list where one of them cannot be read.
pub open spec fn domain_filters(filter: Option<Seq<Seq<char>>>) -> Option<Seq<FilterView>> {
    match filter {
        Some(list) => if all_filters_read(list) {
            Some(seq![FilterView::Domain(filter_domains(list))])
        } else {
            None
        },
        None => Some(Seq::empty()),
    }
}

/// The absolute URL that `text` is.
pub open spec fn absolute(text: Seq<char>) -> Option<Seq<char>> {
    match url_parse(text) {
        Parsed::Absolute(url) => Some(url),
        _ => None,
    }
}

/// What a text of the settings has to be.
pub enum Check {
    /// An absolute URL.
    Url,
    /// A regular expression.
    Pattern,
    /// A filter.
    Filter,
}

/// Whether `text` is what `check` asks for.
pub open spec fn passes(check: Check, text: Seq<char>) -> bool {
    match check {
        Check::Url => absolute(text).is_some(),
        Check::Pattern => regex_compiles(text),
        Check::Filter => filter_of(text).is_some(),
    }
}

/// The number of texts at the front of `list` that are what `check` asks
/// for: the place of the first text that is not, where there is one.
pub open spec fn leading(list: Seq<Seq<char>>, check: Check) -> int
    decreases list.len(),
{
    if list.len() == 0 || !passes(check, list[0]) {
        0
    } else {
        1 + leading(list.skip(1), check)
    }
}

/// The URLs that the first `n` texts of `list` are.
pub open spec fn urls_of(list: Seq<Seq<char>>, n: int) -> Seq<Seq<char>> {
    Seq::new(n as nat, |i: int| absolute(list[i]).unwrap())
}

/// The place of the first text that fails the check is what `leading` counts.
pub proof fn lemma_leading_is(list: Seq<Seq<char>>, check: Check, n: int)
    requires
        0 <= n <= list.len(),
        forall|i: int| 0 <= i < n ==> passes(check, #[trigger] list[i]),
        n < list.len() ==> !passes(check, list[n]),
    ensures
        leading(list, check) == n,
    decreases list.len(),
{
    if n > 0 {
        assert(passes(check, list[0]));
        assert forall|i: int| 0 <= i < n - 1 implies passes(
            check,
            #[trigger] list.skip(1)[i],
        ) by {
            assert(list.skip(1)[i] == list[i + 1]);
        }
        lemma_leading_is(list.skip(1), check, n - 1);
    }
}

/// Whether the texts stand in strictly ascending order.
pub open spec fn ascending(s: Seq<Seq<char>>) -> bool {
    forall|i: int, j: int| 0 <= i < j < s.len() ==> precedes(#[trigger] s[i], #[trigger] s[j])
}

/// Reads the texts of `strings` as URLs and adds them to `urls`, up to the
/// first text that is no absolute URL, which is the error.
pub fn parse_urls(strings: &Vec<String>, urls: &mut Vec<Url>) -> (r: Result<(), UrlError>)
    ensures
        url_texts(final(urls)@) == url_texts(old(urls)@) + urls_of(
            texts(strings@),
            leading(texts(strings@), Check::Url),
        ),
        r.is_ok() == (leading(texts(strings@), Check::Url) == strings.len()),
        r.is_err() ==> url_parse(first_failing(texts(strings@), Check::Url)) == Parsed::Failed(
            r.unwrap_err(),
        ),
{
    let ghost list = texts(strings@);
    let ghost before = url_texts(urls@);
    let mut i: usize = 0;
    assert(before + urls_of(list, 0) =~= before);
    while i < strings.len()
        invariant
            i <= strings.len(),
            list == texts(strings@),
            before == url_texts(old(urls)@),
            forall|k: int| 0 <= k < i ==> absolute(#[trigger] list[k]).is_some(),
            url_texts(urls@) == before + urls_of(list, i as int),
        decreases strings.len() - i,
    {
        assert(list[i as int] == strings@[i as int]@);
        match Url::parse(strings[i].as_str()) {
            Ok(url) => {
                let ghost so_far = url_texts(urls@);
                urls.push(url);
                proof {
                    assert(url_texts(urls@) =~= so_far.push(url@));
                    assert(before + urls_of(list, i + 1) =~= (before + urls_of(
                        list,
                        i as int,
                    )).push(absolute(list[i as int]).unwrap()));
                }
            },
            Err(e) => {
                proof {
                    lemma_leading_is(list, Check::Url, i as int);
                }
                return Err(e);
            },
        }
        i += 1;
    }
    proof {
        lemma_leading_is(list, Check::Url, i as int);
    }
    Ok(())
}

/// Puts `url` at its place among the ascending `sorted`, unless it stands
/// there already.
fn insert_sorted(sorted: &mut Vec<Url>, url: Url)
    requires
        ascending(url_texts(old(sorted)@)),
    ensures
        ascending(url_texts(final(sorted)@)),
        forall|u: Seq<char>| #[trigger]
            url_texts(final(sorted)@).contains(u) <==> url_texts(old(sorted)@).contains(u) || u
                == url@,
{
    let ghost done = url_texts(sorted@);
    let x = chars_of(url.as_str());
    let mut p: usize = 0;
    while p < sorted.len() && comes_before(&chars_of(sorted[p].as_str()), &x)
        invariant
            p <= sorted.len(),
            x@ == url@,
            forall|k: int| 0 <= k < p ==> precedes(#[trigger] url_texts(sorted@)[k], x@),
        decreases sorted.len() - p,
    {
        p += 1;
    }
    if p < sorted.len() && sorted[p] == url {
        assert(done[p as int] == url@);
        assert(done.contains(url@));
        return ;
    }
    sorted.insert(p, url);
    proof {
        let after = url_texts(sorted@);
        assert(after =~= done.insert(p as int, url@));
        lemma_insert_contains(done, p as int, url@);
        if p < done.len() {
            lemma_precedes_total(done[p as int], url@);
        }
        assert forall|a: int, b: int| 0 <= a < b < after.len() implies precedes(
            #[trigger] after[a],
            #[trigger] after[b],
        ) by {
            if b == p {
                assert(after[a] == done[a]);
            } else if a == p {
                assert(after[b] == done[b - 1]);
                if b - 1 > p {
                    lemma_precedes_trans(url@, done[p as int], done[b - 1]);
                }
            } else {
                let a0 = if a < p { a } else { a - 1 };
                let b0 = if b < p { b } else { b - 1 };
                assert(after[a] == done[a0]);
                assert(after[b] == done[b0]);
            }
        }
    }
}

/// Puts the URLs in ascending order, drops those that occur twice, and drops
/// those that one of `filters` excludes.
pub fn clean_urls(urls: &mut Vec<Url>, filters: &Vec<Filter>)
    ensures
        ascending(url_texts(final(urls)@)),
        forall|u: Seq<char>|
            #[trigger] url_texts(final(urls)@).contains(u) <==> url_texts(old(urls)@).contains(u)
                && !chain_ignores(filter_views(filters@), u),
{
    let ghost given = url_texts(urls@);
    let ghost rules = filter_views(filters@);
    let mut sorted: Vec<Url> = Vec::new();
    let mut i: usize = 0;
    while i < urls.len()
        invariant
            i <= urls.len(),
            given == url_texts(urls@),
            rules == filter_views(filters@),
            ascending(url_texts(sorted@)),
            forall|u: Seq<char>|
                #[trigger] url_texts(sorted@).contains(u) <==> given.take(i as int).contains(u)
                    && !chain_ignores(rules, u),
        decreases urls.len() - i,
    {
        let ghost done = url_texts(sorted@);
        let url = urls[i].clone();
        if !is_ignored_by_any(filters, &url) {
            insert_sorted(&mut sorted, url);
        }
        proof {
            assert(given.take(i + 1) =~= given.take(i as int).push(url@));
            lemma_push_contains(given.take(i as int), url@);
            assert forall|u: Seq<char>| #[trigger]
                url_texts(sorted@).contains(u) <==> given.take(i + 1).contains(u)
                    && !chain_ignores(rules, u) by {
                assert(done.contains(u) <==> given.take(i as int).contains(u) && !chain_ignores(
                    rules,
                    u,
                ));
            }
        }
        i += 1;
    }
    assert(given.take(urls.len() as int) =~= given);
    *urls = sorted;
}

impl Cfg {
    /// The filters of the ignore list; see [`ignore_filters`].
    pub fn ignore_list(&self) -> (r: Result<Vec<Filter>, ConfigError>)
        ensures
            match ignore_filters(texts_of(self.ignore)) {
                Some(filters) => r.is_ok() && filter_views(r.unwrap()@) == filters,
                None => r.is_err() && r.unwrap_err().says(
                    ConfigFault::IgnoreList,
                    first_failing(texts_of(self.ignore).unwrap(), Check::Pattern),
                ),
            },
    {
        match &self.ignore {
            Some(ignore_list) => {
                let ghost patterns = texts(ignore_list@);
                let mut v: Vec<Filter> = Vec::new();
                let mut i: usize = 0;
                while i < ignore_list.len()
                    invariant
                        i <= ignore_list.len(),
                        patterns == texts(ignore_list@),
                        texts_of(self.ignore) == Some(patterns),
                        v.len() == i,
                        forall|k: int| 0 <= k < i ==> regex_compiles(#[trigger] patterns[k]),
                        forall|k: int|
                            0 <= k < i ==> (#[trigger] v@[k])@ == FilterView::Regex(patterns[k]),
                    decreases ignore_list.len() - i,
                {
                    assert(patterns[i as int] == ignore_list@[i as int]@);
                    match Filter::regex(ignore_list[i].as_str()) {
                        Some(filter) => {
                            v.push(filter);
                        },
                        None => {
                            assert(!regex_compiles(patterns[i as int]));
                            proof {
                                lemma_leading_is(patterns, Check::Pattern, i as int);
                            }
                            return Err(
                                ConfigError {
                                    fault: ConfigFault::IgnoreList,
                                    message: wrap_err(
                                        "Failed to parse regexes in an ignore list",
                                        ignore_list[i].as_str(),
                                    ),
                                },
                            );
                        },
                    }
                    i += 1;
                }
                assert(filter_views(v@) =~= regex_filters(patterns));
                Ok(v)
            },
            None => {
                let v: Vec<Filter> = Vec::new();
                assert(filter_views(v@) =~= Seq::<FilterView>::empty());
                Ok(v)
            },
        }
    }

    /// The filters of the list of filters; see [`domain_filters`].
    pub fn _filters(&self) -> (r: Result<Vec<Filter>, ConfigError>)
        ensures
            match domain_filters(texts_of(self.filter)) {
                Some(filters) => r.is_ok() && filter_views(r.unwrap()@) == filters,
                None => r.is_err() && r.unwrap_err().says(
                    ConfigFault::Filter,
                    first_failing(texts_of(self.filter).unwrap(), Check::Filter),
                ),
            },
    {
        match &self.filter {
            Some(filters) => {
                let ghost list = texts(filters@);
                let mut domains: Vec<String> = Vec::new();
                let mut i: usize = 0;
                while i < filters.len()
                    invariant
                        i <= filters.len(),
                        list == texts(filters@),
                        texts_of(self.filter) == Some(list),
                        domains.len() == i,
                        forall|k: int| 0 <= k < i ==> filter_of(#[trigger] list[k]).is_some(),
                        forall|k: int|
                            0 <= k < i ==> (#[trigger] domains@[k])@ == filter_of(list[k]).unwrap(),
                    decreases filters.len() - i,
                {
                    assert(list[i as int] == filters@[i as int]@);
                    let found = match parse_filter(filters[i].as_str()) {
                        Some(Filter::Domain(found)) => Some(found),
                        _ => None,
                    };
                    match found {
                        Some(mut found) => {
                            assert(texts(found@) == seq![filter_of(list[i as int]).unwrap()]);
                            assert(texts(found@).len() == 1);
                            assert(texts(found@)[0] == found@[0]@);
                            let domain = found.remove(0);
                            domains.push(domain);
                        },
                        None => {
                            proof {
                                lemma_leading_is(list, Check::Filter, i as int);
                            }
                            return Err(
                                ConfigError {
                                    fault: ConfigFault::Filter,
                                    message: wrap_err(
                                        "Failed to parse a filter",
                                        filters[i].as_str(),
                                    ),
                                },
                            );
                        },
                    }
                    i += 1;
                }
                let mut v: Vec<Filter> = Vec::new();
                assert(texts(domains@) =~= filter_domains(list));
                v.push(Filter::Domain(domains));
                assert(filter_views(v@) =~= seq![FilterView::Domain(filter_domains(list))]);
                Ok(v)
            },
            None => {
                let v: Vec<Filter> = Vec::new();
                assert(filter_views(v@) =~= Seq::<FilterView>::empty());
                Ok(v)
            },
        }
    }

    /// All the filters of the settings: those of the ignore list, then those
    /// of the list of filters.  The ignore list is read first.
    pub fn filters(&self) -> (r: Result<Vec<Filter>, ConfigError>)
        ensures
            match (ignore_filters(texts_of(self.ignore)), domain_filters(texts_of(self.filter))) {
                (Some(a), Some(b)) => r.is_ok() && filter_views(r.unwrap()@) == a + b,
                (None, _) => r.is_err() && r.unwrap_err().says(
                    ConfigFault::IgnoreList,
                    first_failing(texts_of(self.ignore).unwrap(), Check::Pattern),
                ),
                (Some(_), None) => r.is_err() && r.unwrap_err().says(
                    ConfigFault::Filter,
                    first_failing(texts_of(self.filter).unwrap(), Check::Filter),
                ),
            },
    {
        let mut filters = match self.ignore_list() {
            Ok(list) => list,
            Err(e) => {
                return Err(e);
            },
        };
        let mut more = match self._filters() {
            Ok(list) => list,
            Err(e) => {
                return Err(e);
            },
        };
        let ghost a = filter_views(filters@);
        let ghost b = filter_views(more@);
        filters.append(&mut more);
        assert(filter_views(filters@) =~= a + b);
        Ok(filters)
    }

    /// Adds the URLs to start from that the settings name.
    pub fn urls_from_cfg(&self, urls: &mut Vec<Url>) -> (r: Result<(), ConfigError>)
        ensures
            url_texts(final(urls)@) == url_texts(old(urls)@) + urls_of(
                texts(self.urls@),
                leading(texts(self.urls@), Check::Url),
            ),
            r.is_ok() == (leading(texts(self.urls@), Check::Url) == self.urls.len()),
            r.is_err() ==> r.unwrap_err().says(
                ConfigFault::Urls,
                url_fault_text(first_failing(texts(self.urls@), Check::Url)),
            ),
    {
        match parse_urls(&self.urls, urls) {
            Ok(()) => Ok(()),
            Err(e) => Err(
                ConfigError {
                    fault: ConfigFault::Urls,
                    message: wrap_err("Failed to get urls from Config", e.message()),
                },
            ),
        }
    }

    /// Adds the URLs to start from that the seed file holds, one on each line.
    /// `seed` is the text of the file, if the settings name one.
    pub fn urls_from_seed_file(&self, seed: Option<&str>, urls: &mut Vec<Url>) -> (r: Result<
        (),
        ConfigError,
    >)
        ensures
            match seed {
                Some(file) => {
                    &&& url_texts(final(urls)@) == url_texts(old(urls)@) + urls_of(
                        lines(file@),
                        leading(lines(file@), Check::Url),
                    )
                    &&& r.is_ok() == (leading(lines(file@), Check::Url) == lines(file@).len())
                },
                None => r.is_ok() && url_texts(final(urls)@) == url_texts(old(urls)@),
            },
            r.is_err() ==> seed.is_some() && r.unwrap_err().says(
                ConfigFault::SeedFile,
                url_fault_text(first_failing(lines(seed.unwrap()@), Check::Url)),
            ),
    {
        match seed {
            Some(file) => {
                let found = read_lines(file);
                match parse_urls(&found, urls) {
                    Ok(()) => Ok(()),
                    Err(e) => Err(
                        ConfigError {
                            fault: ConfigFault::SeedFile,
                            message: wrap_err("Failed to get urls from a seed file", e.message()),
                        },
                    ),
                }
            },
            None => Ok(()),
        }
    }

    /// The URLs to start from: those that the settings name, then those of
    /// the seed file.
    pub fn get_urls(&self, seed: Option<&str>) -> (r: Result<Vec<Url>, ConfigError>)
        ensures
            match seed_urls(texts(self.urls@), text_view(seed)) {
                Ok(urls) => r.is_ok() && url_texts(r.unwrap()@) == urls,
                Err(fault) => r.is_err() && r.unwrap_err().says(
                    fault,
                    seed_fault_detail(texts(self.urls@), text_view(seed)),
                ),
            },
    {
        let mut urls: Vec<Url> = Vec::new();
        assert(url_texts(urls@) =~= Seq::<Seq<char>>::empty());
        match self.urls_from_cfg(&mut urls) {
            Ok(()) => {},
            Err(e) => {
                return Err(e);
            },
        }
        match self.urls_from_seed_file(seed, &mut urls) {
            Ok(()) => {},
            Err(e) => {
                return Err(e);
            },
        }
        proof {
            let named = texts(self.urls@);
            assert(Seq::<Seq<char>>::empty() + urls_of(named, leading(named, Check::Url)) =~= urls_of(
                named,
                leading(named, Check::Url),
            ));
            if seed.is_none() {
                assert(urls_of(named, named.len() as int) + Seq::<Seq<char>>::empty() =~= urls_of(
                    named,
                    named.len() as int,
                ));
            }
        }
        Ok(urls)
    }
}

/// The text of `s`, if there is one.
pub open spec fn text_view(s: Option<&str>) -> Option<Seq<char>> {
    match s {
        Some(t) => Some(t@),
        None => None,
    }
}

/// The URLs to start from: those that the texts `named` are, then those that
/// the lines of the seed file are; or what is wrong, where one of them is no
/// absolute URL.
pub open spec fn seed_urls(named: Seq<Seq<char>>, seed: Option<Seq<char>>) -> Result<
    Seq<Seq<char>>,
    ConfigFault,
> {
    if leading(named, Check::Url) != named.len() {
        Err(ConfigFault::Urls)
    } else {
        match seed {
            Some(file) => if leading(lines(file), Check::Url) != lines(file).len() {
                Err(ConfigFault::SeedFile)
            } else {
                Ok(
                    urls_of(named, named.len() as int) + urls_of(
                        lines(file),
                        lines(file).len() as int,
                    ),
                )
            },
            None => Ok(urls_of(named, named.len() as int)),
        }
    }
}

/// What is wrong with the settings `cfg`, read with the check file `check`
/// and the seed file `seed`: the first of the faults in the order in which
/// the settings are read.  The address of the driver comes first, then the
/// check file, the proxy, the ignore list, the filters, the URLs that the
/// settings name, and last the seed file.
pub open spec fn config_fault(cfg: Cfg, check: FileView, seed: FileView) -> Option<ConfigFault> {
    if absolute(cfg.webdriver_url@).is_none() {
        Some(ConfigFault::WebDriverAddress)
    } else if check is Unreadable {
        Some(ConfigFault::CheckFile)
    } else if cfg.proxy.is_some() && proxy_of(cfg.proxy.unwrap()@).is_none() {
        Some(ConfigFault::Proxy)
    } else if ignore_filters(texts_of(cfg.ignore)).is_none() {
        Some(ConfigFault::IgnoreList)
    } else if domain_filters(texts_of(cfg.filter)).is_none() {
        Some(ConfigFault::Filter)
    } else if leading(texts(cfg.urls@), Check::Url) != cfg.urls@.len() {
        Some(ConfigFault::Urls)
    } else if seed is Unreadable {
        Some(ConfigFault::SeedFile)
    } else {
        match seed_urls(texts(cfg.urls@), seed.text()) {
            Err(fault) => Some(fault),
            Ok(_) => None,
        }
    }
}

/// Whether `config` is what the settings `cfg` say, read with the script
/// `check_code` and the seed file `seed`, where they were read.
pub open spec fn config_reads(
    config: CrawlConfig,
    cfg: Cfg,
    check_code: Option<Seq<char>>,
    seed: Option<Seq<char>>,
) -> bool {
    let rules = ignore_filters(texts_of(cfg.ignore)).unwrap() + domain_filters(
        texts_of(cfg.filter),
    ).unwrap();
    &&& config.count_engines == match cfg.count_searchers {
        Some(n) => n,
        None => DEFAULT_AMOUNT_OF_ENGINES,
    }
    &&& config.url_limit == cfg.limit
    &&& config.retry_count == cfg.retry_count
    &&& config.retry_policy == cfg.retry_policy
    &&& config.retry_threshold == cfg.retry_threshold_milis
    &&& config.robot_name@ == cfg.robot_name@
    &&& config.use_robots_txt == cfg.use_robots_txt
    &&& config.code.code_type == CodeType::Js
    &&& config.code.text@ == match check_code {
        Some(text) => text,
        None => "return window.location.href"@,
    }
    &&& config.wb_config.webdriver_address@ == absolute(cfg.webdriver_url@).unwrap()
    &&& config.wb_config.browser == cfg.browser
    &&& config.wb_config.load_timeout == match cfg.page_load_timeout {
        Some(t) => t,
        None => DEFAULT_LOAD_TIME,
    }
    &&& proxy_view(config.wb_config.proxy) == match cfg.proxy {
        Some(text) => proxy_of(text@),
        None => None,
    }
    &&& filter_views(config.filters@) == rules
    &&& ascending(url_texts(config.urls@))
    &&& forall|u: Seq<char>| #[trigger]
        url_texts(config.urls@).contains(u) <==> seed_urls(
            texts(cfg.urls@),
            seed,
        ).unwrap().contains(u) && !chain_ignores(rules, u)
}

/// Reads the settings of a crawl.  `check_code` is what came of reading the
/// check file and `seed` what came of reading the seed file.  A file that
/// could not be read is reported at its place among the faults, not before:
/// a bad driver address is told before an unreadable check file, and a bad
/// proxy, filter or URL of the settings before an unreadable seed file.
///
/// The URLs to start from come out in ascending order, each once, without
/// those that a filter excludes.
pub fn parse_cfg(cfg: Cfg, check_code: FileText, seed: FileText) -> (r: Result<
    CrawlConfig,
    ConfigError,
>)
    ensures
        match config_fault(cfg, check_code@, seed@) {
            Some(fault) => r.is_err() && r.unwrap_err().says(
                fault,
                config_fault_detail(cfg, check_code@, seed@),
            ),
            None => r.is_ok() && config_reads(
                r.unwrap(),
                cfg,
                check_code@.text(),
                seed@.text(),
            ),
        },
{
    let wb_address = match Url::parse(cfg.webdriver_url.as_str()) {
        Ok(url) => url,
        Err(e) => {
            return Err(
                ConfigError {
                    fault: ConfigFault::WebDriverAddress,
                    message: wrap_err("Failed to parse a webdriver address", e.message()),
                },
            );
        },
    };
    let page_load_timeout = match cfg.page_load_timeout {
        Some(t) => t,
        None => DEFAULT_LOAD_TIME,
    };
    let amount_searchers = match cfg.count_searchers {
        Some(n) => n,
        None => DEFAULT_AMOUNT_OF_ENGINES,
    };
    let check_code = match check_code {
        FileText::Text(text) => text,
        FileText::Absent => default_code_file().to_owned(),
        FileText::Unreadable(why) => {
            return Err(
                ConfigError {
                    fault: ConfigFault::CheckFile,
                    message: wrap_err("Failed to read an check file", why.as_str()),
                },
            );
        },
    };
    let proxy = match &cfg.proxy {
        Some(text) => match parse_proxy(text.as_str()) {
            Some(p) => Some(p),
            None => {
                return Err(
                    ConfigError {
                        fault: ConfigFault::Proxy,
                        message: wrap_err("Failed to parse proxy setting", ""),
                    },
                );
            },
        },
        None => None,
    };
    let filters = match cfg.filters() {
        Ok(filters) => filters,
        Err(e) => {
            return Err(e);
        },
    };
    let mut urls: Vec<Url> = Vec::new();
    assert(url_texts(urls@) =~= Seq::<Seq<char>>::empty());
    match cfg.urls_from_cfg(&mut urls) {
        Ok(()) => {},
        Err(e) => {
            return Err(e);
        },
    }
    let seed_text = match &seed {
        FileText::Text(text) => Some(text.as_str()),
        FileText::Absent => None,
        FileText::Unreadable(why) => {
            return Err(
                ConfigError {
                    fault: ConfigFault::SeedFile,
                    message: wrap_err("Failed to get urls from a seed file", why.as_str()),
                },
            );
        },
    };
    match cfg.urls_from_seed_file(seed_text, &mut urls) {
        Ok(()) => {},
        Err(e) => {
            return Err(e);
        },
    }
    proof {
        let named = texts(cfg.urls@);
        assert(Seq::<Seq<char>>::empty() + urls_of(named, leading(named, Check::Url)) =~= urls_of(
            named,
            leading(named, Check::Url),
        ));
        if seed_text.is_none() {
            assert(urls_of(named, named.len() as int) + Seq::<Seq<char>>::empty() =~= urls_of(
                named,
                named.len() as int,
            ));
        }
    }
    clean_urls(&mut urls, &filters);
    Ok(
        CrawlConfig {
            count_engines: amount_searchers,
            filters,
            url_limit: cfg.limit,
            urls,
            retry_count: cfg.retry_count,
            retry_policy: cfg.retry_policy,
            retry_threshold: cfg.retry_threshold_milis,
            robot_name: cfg.robot_name,
            use_robots_txt: cfg.use_robots_txt,
            code: Code { text: check_code, code_type: CodeType::Js },
            wb_config: WebDriverConfig {
                webdriver_address: wb_address,
                browser: cfg.browser,
                load_timeout: page_load_timeout,
                proxy,
            },
        },
    )
}

/// The first text of `list` that is not what `check` asks for.
pub open spec fn first_failing(list: Seq<Seq<char>>, check: Check) -> Seq<char> {
    list[leading(list, check)]
}

/// Why the URLs to start from cannot be read: what is wrong with the first
/// text that is no absolute URL.
pub open spec fn seed_fault_detail(named: Seq<Seq<char>>, seed: Option<Seq<char>>) -> Seq<char> {
    if leading(named, Check::Url) != named.len() {
        url_fault_text(first_failing(named, Check::Url))
    } else {
        match seed {
            Some(file) => url_fault_text(first_failing(lines(file), Check::Url)),
            None => Seq::empty(),
        }
    }
}

/// The detail of the fault of the settings `cfg`, read with the check file
/// `check` and the seed file `seed`: the text that cannot be read, or why it
/// cannot.
pub open spec fn config_fault_detail(cfg: Cfg, check: FileView, seed: FileView) -> Seq<char> {
    match config_fault(cfg, check, seed) {
        Some(ConfigFault::WebDriverAddress) => url_fault_text(cfg.webdriver_url@),
        Some(ConfigFault::CheckFile) => match check {
            FileView::Unreadable(why) => why,
            _ => Seq::empty(),
        },
        Some(ConfigFault::Proxy) => ""@,
        Some(ConfigFault::IgnoreList) => first_failing(
            texts_of(cfg.ignore).unwrap(),
            Check::Pattern,
        ),
        Some(ConfigFault::Filter) => first_failing(texts_of(cfg.filter).unwrap(), Check::Filter),
        _ => match seed {
            FileView::Unreadable(why) => if leading(texts(cfg.urls@), Check::Url)
                != cfg.urls@.len() {
                url_fault_text(first_failing(texts(cfg.urls@), Check::Url))
            } else {
                why
            },
            _ => seed_fault_detail(texts(cfg.urls@), seed.text()),
        },
    }
}

/// The lines of `file`; see [`lines`].
pub fn read_lines(file: &str) -> (r: Vec<String>)
    ensures
        texts(r@) == lines(file@),
{
    let v = chars_of(file);
    let ranges = line_ranges(&v);
    let mut r: Vec<String> = Vec::new();
    let mut i: usize = 0;
    while i < ranges.len()
        invariant
            i <= ranges.len(),
            v@ == file@,
            in_bounds(ranges@, v.len() as int),
            r.len() == i,
            forall|k: int| 0 <= k < i ==> (#[trigger] r@[k])@ == pieces(v@, ranges@)[k],
        decreases ranges.len() - i,
    {
        let (from, to) = ranges[i];
        r.push(copy_range(file, from, to));
        i += 1;
    }
    assert(texts(r@) =~= pieces(v@, ranges@));
    r
}

} // verus!
