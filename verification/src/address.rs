// This Source Code Form is subject to the terms of the Mozilla Public
// License, v. 2.0. If a copy of the MPL was not distributed with this
// file, You can obtain one at https://mozilla.org/MPL/2.0/.

//! Absolute URLs as the crawler sees them.
//!
//! A [`Url`] is the text of an absolute URL.  Everything that depends on the
//! grammar of URLs (parsing, resolving a reference, naming the host, changing a
//! component) is computed by the `url` crate; this module names those results
//! and carries them as text, which the `url` crate reads anew for each
//! question.  Two URLs are equal when their texts are.

use url::ParseError;
use vstd::prelude::*;
use vstd::std_specs::cmp::PartialEqSpecImpl;

verus! {

/// What parsing a piece of text as an absolute URL gives.
pub enum Parsed {
    /// The text is an absolute URL with this serialization.
    Absolute(Seq<char>),
    /// The text is no absolute URL, and why.
    Failed(UrlError),
}

/// The outcome of `url::Url::parse` on `text`.
pub uninterp spec fn url_parse(text: Seq<char>) -> Parsed;

/// The serialization of `url::Url::join` of the URL `base` with `link`, or
/// `None` where `base` is no absolute URL or the reference cannot be resolved.
pub uninterp spec fn url_join(base: Seq<char>, link: Seq<char>) -> Option<Seq<char>>;

/// What `url::Url::domain` returns for the URL `text`; `None` where `text` is
/// no absolute URL too.
pub uninterp spec fn url_domain(text: Seq<char>) -> Option<Seq<char>>;

/// What `url::Url::path` returns for the URL `text`; empty where `text` is no
/// absolute URL.
pub uninterp spec fn url_path(text: Seq<char>) -> Seq<char>;

/// The serialization of the URL `text` after `url::Url::set_fragment`; `text`
/// itself where it is no absolute URL.
pub uninterp spec fn url_set_fragment(text: Seq<char>, fragment: Option<Seq<char>>) -> Seq<char>;

/// The serialization of the URL `text` after `url::Url::set_path`; `text`
/// itself where it is no absolute URL.
pub uninterp spec fn url_set_path(text: Seq<char>, path: Seq<char>) -> Seq<char>;

/// The serialization of the URL `text` after `url::Url::set_query`; `text`
/// itself where it is no absolute URL.
pub uninterp spec fn url_set_query(text: Seq<char>, query: Option<Seq<char>>) -> Seq<char>;

/// Why a piece of text was not accepted as an absolute URL: the errors of
/// the `url` crate, one for one.
#[derive(Debug, Clone, Copy, PartialEq, Eq, Structural)]
pub enum UrlError {
    EmptyHost,
    IdnaError,
    InvalidPort,
    InvalidIpv4Address,
    InvalidIpv6Address,
    InvalidDomainCharacter,
    /// The text is a relative reference, which needs a base.
    RelativeUrlWithoutBase,
    RelativeUrlWithCannotBeABaseBase,
    SetHostOnCannotBeABaseUrl,
    Overflow,
    /// An error that the `url` crate has come to know since.
    Other,
}

impl UrlError {
    /// What this error says, in the words of the `url` crate.
    pub open spec fn words(self) -> Seq<char> {
        match self {
            UrlError::EmptyHost => "empty host"@,
            UrlError::IdnaError => "invalid international domain name"@,
            UrlError::InvalidPort => "invalid port number"@,
            UrlError::InvalidIpv4Address => "invalid IPv4 address"@,
            UrlError::InvalidIpv6Address => "invalid IPv6 address"@,
            UrlError::InvalidDomainCharacter => "invalid domain character"@,
            UrlError::RelativeUrlWithoutBase => "relative URL without a base"@,
            UrlError::RelativeUrlWithCannotBeABaseBase => "relative URL with a cannot-be-a-base base"@,
            UrlError::SetHostOnCannotBeABaseUrl => "a cannot-be-a-base URL doesn\u{2019}t have a host to set"@,
            UrlError::Overflow => "URLs more than 4 GB are not supported"@,
            UrlError::Other => "invalid URL"@,
        }
    }

    /// What this error says, in words.
    pub fn message(&self) -> (r: &'static str)
        ensures
            r@ == self.words(),
    {
        match self {
            UrlError::EmptyHost => "empty host",
            UrlError::IdnaError => "invalid international domain name",
            UrlError::InvalidPort => "invalid port number",
            UrlError::InvalidIpv4Address => "invalid IPv4 address",
            UrlError::InvalidIpv6Address => "invalid IPv6 address",
            UrlError::InvalidDomainCharacter => "invalid domain character",
            UrlError::RelativeUrlWithoutBase => "relative URL without a base",
            UrlError::RelativeUrlWithCannotBeABaseBase => "relative URL with a cannot-be-a-base base",
            UrlError::SetHostOnCannotBeABaseUrl => "a cannot-be-a-base URL doesn\u{2019}t have a host to set",
            UrlError::Overflow => "URLs more than 4 GB are not supported",
            UrlError::Other => "invalid URL",
        }
    }
}

/// The text of an absolute URL.  URLs are ordered, and hashed, as their texts
/// are.
#[derive(Debug, Hash, PartialOrd, Ord)]
pub struct Url {
    text: String,
}

impl View for Url {
    type V = Seq<char>;

    closed spec fn view(&self) -> Seq<char> {
        self.text@
    }
}

impl Clone for Url {
    fn clone(&self) -> (r: Self)
        ensures
            r@ == self@,
    {
        Url { text: self.text.clone() }
    }
}

impl PartialEq for Url {
    fn eq(&self, other: &Self) -> (r: bool) {
        self.text == other.text
    }
}

impl Eq for Url {

}

impl PartialEqSpecImpl for Url {
    open spec fn obeys_eq_spec() -> bool {
        true
    }

    open spec fn eq_spec(&self, other: &Self) -> bool {
        self@ == other@
    }
}

/// What the wrapper of `url::Url::parse` hands back, as a mathematical
/// value.
spec fn parsed(r: Result<String, UrlError>) -> Parsed {
    match r {
        Ok(text) => Parsed::Absolute(text@),
        Err(e) => Parsed::Failed(e),
    }
}

/// `url::Url::parse`: the result is the one named [`url_parse`], with the
/// crate's error told one for one.
#[verifier::external_body]
fn parse_text(text: &str) -> (r: Result<String, UrlError>)
    ensures
        parsed(r) == url_parse(text@),
{
    match url::Url::parse(text) {
        Ok(u) => Ok(u.into()),
        Err(ParseError::EmptyHost) => Err(UrlError::EmptyHost),
        Err(ParseError::IdnaError) => Err(UrlError::IdnaError),
        Err(ParseError::InvalidPort) => Err(UrlError::InvalidPort),
        Err(ParseError::InvalidIpv4Address) => Err(UrlError::InvalidIpv4Address),
        Err(ParseError::InvalidIpv6Address) => Err(UrlError::InvalidIpv6Address),
        Err(ParseError::InvalidDomainCharacter) => Err(UrlError::InvalidDomainCharacter),
        Err(ParseError::RelativeUrlWithoutBase) => Err(UrlError::RelativeUrlWithoutBase),
        Err(ParseError::RelativeUrlWithCannotBeABaseBase) => Err(UrlError::RelativeUrlWithCannotBeABaseBase),
        Err(ParseError::SetHostOnCannotBeABaseUrl) => Err(UrlError::SetHostOnCannotBeABaseUrl),
        Err(ParseError::Overflow) => Err(UrlError::Overflow),
        Err(_) => Err(UrlError::Other),
    }
}

/// `url::Url::join` on the URL that `base` parses to: the result is the one
/// named [`url_join`].
#[verifier::external_body]
fn join_text(base: &str, link: &str) -> (r: Option<String>)
    ensures
        r.is_some() == url_join(base@, link@).is_some(),
        r.is_some() ==> r.unwrap()@ == url_join(base@, link@).unwrap(),
{
    match url::Url::parse(base) {
        Ok(b) => b.join(link).ok().map(String::from),
        Err(_) => None,
    }
}

/// `url::Url::domain` on the URL that `text` parses to: the result is the one
/// named [`url_domain`].
#[verifier::external_body]
fn domain_text(text: &str) -> (r: Option<String>)
    ensures
        r.is_some() == url_domain(text@).is_some(),
        r.is_some() ==> r.unwrap()@ == url_domain(text@).unwrap(),
{
    match url::Url::parse(text) {
        Ok(u) => u.domain().map(String::from),
        Err(_) => None,
    }
}

/// `url::Url::path` on the URL that `text` parses to: the result is the one
/// named [`url_path`].
#[verifier::external_body]
fn path_text(text: &str) -> (r: String)
    ensures
        r@ == url_path(text@),
{
    match url::Url::parse(text) {
        Ok(u) => String::from(u.path()),
        Err(_) => String::new(),
    }
}

/// `url::Url::set_fragment` on the URL that `text` parses to: the result is the
/// one named [`url_set_fragment`].
#[verifier::external_body]
fn set_fragment_text(text: &str, fragment: Option<&str>) -> (r: String)
    ensures
        r@ == url_set_fragment(
            text@,
            match fragment {
                Some(f) => Some(f@),
                None => None,
            },
        ),
{
    match url::Url::parse(text) {
        Ok(mut u) => {
            u.set_fragment(fragment);
            u.into()
        },
        Err(_) => String::from(text),
    }
}

/// `url::Url::set_path` on the URL that `text` parses to: the result is the one
/// named [`url_set_path`].
#[verifier::external_body]
fn set_path_text(text: &str, path: &str) -> (r: String)
    ensures
        r@ == url_set_path(text@, path@),
{
    match url::Url::parse(text) {
        Ok(mut u) => {
            u.set_path(path);
            u.into()
        },
        Err(_) => String::from(text),
    }
}

/// `url::Url::set_query` on the URL that `text` parses to: the result is the
/// one named [`url_set_query`].
#[verifier::external_body]
fn set_query_text(text: &str, query: Option<&str>) -> (r: String)
    ensures
        r@ == url_set_query(
            text@,
            match query {
                Some(q) => Some(q@),
                None => None,
            },
        ),
{
    match url::Url::parse(text) {
        Ok(mut u) => {
            u.set_query(query);
            u.into()
        },
        Err(_) => String::from(text),
    }
}

/// The texts of the URLs of `v`.
pub open spec fn url_texts(v: Seq<Url>) -> Seq<Seq<char>> {
    Seq::new(v.len(), |i: int| v[i]@)
}

/// The URL `text` with its fragment removed.
pub open spec fn without_fragment(text: Seq<char>) -> Seq<char> {
    url_set_fragment(text, None)
}

/// The URLs `urls`, each with its fragment removed.
pub open spec fn bare_texts(urls: Seq<Seq<char>>) -> Seq<Seq<char>> {
    Seq::new(urls.len(), |i: int| without_fragment(urls[i]))
}

/// The root of the site of the URL `text`: fragment, path and query removed,
/// in this order.
pub open spec fn site_root(text: Seq<char>) -> Seq<char> {
    url_set_query(url_set_path(url_set_fragment(text, None), Seq::empty()), None)
}

/// Where the robots rules of the site of the URL `text` are found.
pub open spec fn robots_location(text: Seq<char>) -> Option<Seq<char>> {
    url_join(site_root(text), "/robots.txt"@)
}

/// The URLs `urls`, each with its fragment removed.
pub fn strip_fragments(urls: &Vec<Url>) -> (r: Vec<Url>)
    ensures
        url_texts(r@) == bare_texts(url_texts(urls@)),
{
    let mut r: Vec<Url> = Vec::new();
    let mut i: usize = 0;
    while i < urls.len()
        invariant
            i <= urls.len(),
            r.len() == i,
            forall|k: int| 0 <= k < i ==> (#[trigger] r@[k])@ == without_fragment(urls@[k]@),
        decreases urls.len() - i,
    {
        r.push(urls[i].without_fragment());
        i += 1;
    }
    assert(url_texts(r@) =~= bare_texts(url_texts(urls@)));
    r
}

impl Url {
    /// Reads `text` as an absolute URL.
    pub fn parse(text: &str) -> (r: Result<Url, UrlError>)
        ensures
            match url_parse(text@) {
                Parsed::Absolute(s) => r.is_ok() && r.unwrap()@ == s,
                Parsed::Failed(e) => r == Err::<Url, UrlError>(e),
            },
    {
        match parse_text(text) {
            Ok(s) => Ok(Url { text: s }),
            Err(e) => Err(e),
        }
    }

    /// Resolves `link` against this URL.
    pub fn join(&self, link: &str) -> (r: Option<Url>)
        ensures
            r.is_some() == url_join(self@, link@).is_some(),
            r.is_some() ==> r.unwrap()@ == url_join(self@, link@).unwrap(),
    {
        match join_text(self.text.as_str(), link) {
            Some(s) => Some(Url { text: s }),
            None => None,
        }
    }

    /// The text of this URL.
    pub fn as_str(&self) -> (r: &str)
        ensures
            r@ == self@,
    {
        self.text.as_str()
    }

    /// The registered name of the host, where the host is one.
    pub fn domain(&self) -> (r: Option<String>)
        ensures
            r.is_some() == url_domain(self@).is_some(),
            r.is_some() ==> r.unwrap()@ == url_domain(self@).unwrap(),
    {
        domain_text(self.text.as_str())
    }

    /// The path of this URL.
    pub fn path(&self) -> (r: String)
        ensures
            r@ == url_path(self@),
    {
        path_text(self.text.as_str())
    }

    /// This URL with its fragment removed.
    pub fn without_fragment(&self) -> (r: Url)
        ensures
            r@ == without_fragment(self@),
    {
        Url { text: set_fragment_text(self.text.as_str(), None) }
    }

    /// The root of this URL's site: this URL without fragment, path and
    /// query.
    pub fn site_root(&self) -> (r: Url)
        ensures
            r@ == site_root(self@),
    {
        let bare = set_fragment_text(self.text.as_str(), None);
        let no_path = set_path_text(bare.as_str(), "");
        let root = set_query_text(no_path.as_str(), None);
        proof {
            reveal_strlit("");
            assert(""@ =~= Seq::<char>::empty());
        }
        Url { text: root }
    }

    /// Where the robots rules of this URL's site are found, if that can be
    /// written as a URL.
    pub fn robots_url(&self) -> (r: Option<Url>)
        ensures
            r.is_some() == robots_location(self@).is_some(),
            r.is_some() ==> r.unwrap()@ == robots_location(self@).unwrap(),
    {
        self.site_root().join("/robots.txt")
    }
}

} // verus!
