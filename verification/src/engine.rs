// This Source Code Form is subject to the terms of the Mozilla Public
// License, v. 2.0. If a copy of the MPL was not distributed with this
// file, You can obtain one at https://mozilla.org/MPL/2.0/.

//! The unit that performs one fetch: a backend session with the filters of the
//! crawl, and the treatment of what the backend found on a page.

use crate::address::{url_join, url_parse, url_texts, without_fragment, Parsed, Url, UrlError};
use crate::filters::{chain_ignores, clone_filters, filter_views, is_ignored_by_any, texts, Filter, FilterView};
use vstd::prelude::*;

verus! {

/// The number of a slot of the engine ring.
pub type EngineId = usize;

/// What a backend found on one page: the links as written on the page, and the
/// extracted value, `None` where the page produced no artifact.
#[derive(Debug)]
pub struct SearchResult<V> {
    pub urls: Vec<String>,
    pub data: Option<V>,
}

impl<V> SearchResult<V> {
    pub fn new(urls: Vec<String>, data: Option<V>) -> (r: Self)
        ensures
            r.urls == urls,
            r.data == data,
    {
        SearchResult { urls, data }
    }
}

/// What the crawl reads of a failure of the browser driver.
#[derive(Debug)]
pub struct DriverError {
    /// Whether the driver gave up waiting.
    pub timeout: bool,
    /// The driver's own words.
    pub message: String,
}

/// Why a fetch failed.
#[derive(Debug)]
pub enum BackendError {
    /// The page could not be opened.
    OpenAddress { source: DriverError, address: Url },
    /// The extraction script failed on the page.
    RunningScript { source: DriverError, address: Url },
    /// The links of the page could not be collected.
    CollectLinks { source: DriverError, address: Url },
    /// Anything else.
    Other { msg: String },
}

impl BackendError {
    /// Whether this failure is a timeout, as a mathematical value.
    pub open spec fn timed_out(&self) -> bool {
        match self.cause() {
            Some(source) => source.timeout,
            None => false,
        }
    }

    /// The URL that the failed fetch was for, as a mathematical value.
    pub open spec fn failed_url(&self) -> Option<Seq<char>> {
        match self {
            BackendError::OpenAddress { address, .. } => Some(address@),
            BackendError::RunningScript { address, .. } => Some(address@),
            BackendError::CollectLinks { address, .. } => Some(address@),
            BackendError::Other { .. } => None,
        }
    }

    /// The driver's failure behind this error, as a mathematical value.
    pub open spec fn cause(&self) -> Option<DriverError> {
        match self {
            BackendError::OpenAddress { source, .. } => Some(*source),
            BackendError::RunningScript { source, .. } => Some(*source),
            BackendError::CollectLinks { source, .. } => Some(*source),
            BackendError::Other { .. } => None,
        }
    }

    /// The driver's failure behind this error, if the driver caused it.
    pub fn wb_error(&self) -> (r: Option<&DriverError>)
        ensures
            r.is_some() == self.cause().is_some(),
            r.is_some() ==> *r.unwrap() == self.cause().unwrap(),
    {
        match self {
            BackendError::RunningScript { source, .. } => Some(source),
            BackendError::OpenAddress { source, .. } => Some(source),
            BackendError::CollectLinks { source, .. } => Some(source),
            BackendError::Other { .. } => None,
        }
    }

    /// Whether the fetch ran out of time, which is the one failure worth a
    /// retry.
    pub fn is_timeout(&self) -> (r: bool)
        ensures
            r == self.timed_out(),
    {
        match self.wb_error() {
            Some(source) => source.timeout,
            None => false,
        }
    }

    /// The URL that the failed fetch was for.
    pub fn address(&self) -> (r: Option<&Url>)
        ensures
            r.is_some() == self.failed_url().is_some(),
            r.is_some() ==> r.unwrap()@ == self.failed_url().unwrap(),
    {
        match self {
            BackendError::RunningScript { address, .. } => Some(address),
            BackendError::OpenAddress { address, .. } => Some(address),
            BackendError::CollectLinks { address, .. } => Some(address),
            BackendError::Other { .. } => None,
        }
    }
}

/// The absolute URL that `link`, found on the page `base`, stands for.
pub open spec fn absolute_link(base: Seq<char>, link: Seq<char>) -> Option<Seq<char>> {
    match url_parse(link) {
        Parsed::Absolute(s) => Some(s),
        Parsed::Failed(UrlError::RelativeUrlWithoutBase) => url_join(base, link),
        Parsed::Failed(_) => None,
    }
}

/// The URL that the crawl keeps for `link`, found on the page `base`: the
/// absolute URL it stands for, without its fragment, unless it cannot be
/// resolved or one of `filters` excludes it.
pub open spec fn kept_link(base: Seq<char>, link: Seq<char>, filters: Seq<FilterView>) -> Option<
    Seq<char>,
> {
    match absolute_link(base, link) {
        Some(u) => if chain_ignores(filters, u) {
            None
        } else {
            Some(without_fragment(u))
        },
        None => None,
    }
}

/// The URLs that the crawl keeps of `links`, found on the page `base`, in the
/// order of the page.
pub open spec fn kept_links(base: Seq<char>, links: Seq<Seq<char>>, filters: Seq<FilterView>) -> Seq<
    Seq<char>,
>
    decreases links.len(),
{
    if links.len() == 0 {
        Seq::empty()
    } else {
        let before = kept_links(base, links.drop_last(), filters);
        match kept_link(base, links.last(), filters) {
            Some(u) => before.push(u),
            None => before,
        }
    }
}

/// Reads `link`, found on the page `base`, as an absolute URL.
pub fn make_absolute_url(base: &Url, link: &str) -> (r: Option<Url>)
    ensures
        r.is_some() == absolute_link(base@, link@).is_some(),
        r.is_some() ==> r.unwrap()@ == absolute_link(base@, link@).unwrap(),
{
    match Url::parse(link) {
        Ok(url) => Some(url),
        Err(UrlError::RelativeUrlWithoutBase) => base.join(link),
        Err(_) => None,
    }
}

/// Resolves the links found on the page `base`, drops those that cannot be
/// resolved and those that a filter excludes, and removes the fragment of each
/// that is left.
pub fn validate_links(base: &Url, links: &Vec<String>, filters: &Vec<Filter>) -> (r: Vec<Url>)
    ensures
        url_texts(r@) == kept_links(base@, texts(links@), filter_views(filters@)),
{
    let mut kept: Vec<Url> = Vec::new();
    let mut i: usize = 0;
    assert(texts(links@).take(0) =~= Seq::<Seq<char>>::empty());
    assert(url_texts(kept@) =~= Seq::<Seq<char>>::empty());
    while i < links.len()
        invariant
            i <= links.len(),
            url_texts(kept@) == kept_links(
                base@,
                texts(links@).take(i as int),
                filter_views(filters@),
            ),
        decreases links.len() - i,
    {
        let ghost before = url_texts(kept@);
        proof {
            let next = texts(links@).take(i + 1);
            assert(next.drop_last() =~= texts(links@).take(i as int));
            assert(next.last() == links@[i as int]@);
        }
        match make_absolute_url(base, links[i].as_str()) {
            Some(url) => {
                if !is_ignored_by_any(filters, &url) {
                    kept.push(url.without_fragment());
                    assert(url_texts(kept@) =~= before.push(without_fragment(url@)));
                }
            },
            None => {},
        }
        i += 1;
    }
    assert(texts(links@).take(links.len() as int) =~= texts(links@));
    kept
}

/// A pooled worker: a backend with the number of its slot and the filters of
/// the crawl.
#[derive(Debug)]
pub struct Engine<B> {
    id: EngineId,
    filters: Vec<Filter>,
    backend: B,
}

impl<B> Engine<B> {
    /// The number of this engine's slot, as a mathematical value.
    pub closed spec fn slot(&self) -> EngineId {
        self.id
    }

    /// This engine's backend, as a mathematical value.
    pub closed spec fn session(&self) -> B {
        self.backend
    }

    /// This engine's filters, as mathematical values.
    pub closed spec fn rules(&self) -> Seq<FilterView> {
        filter_views(self.filters@)
    }

    pub fn new(id: EngineId, backend: B, filters: &Vec<Filter>) -> (r: Self)
        ensures
            r.slot() == id,
            r.session() == backend,
            r.rules() == filter_views(filters@),
    {
        Engine { id, backend, filters: clone_filters(filters) }
    }

    /// The number of this engine's slot.
    pub fn id(&self) -> (r: EngineId)
        ensures
            r == self.slot(),
    {
        self.id
    }

    /// This engine in the slot `id`.
    pub(crate) fn with_id(self, id: EngineId) -> (r: Self)
        ensures
            r.slot() == id,
            r.session() == self.session(),
            r.rules() == self.rules(),
    {
        Engine { id, filters: self.filters, backend: self.backend }
    }

    /// The backend, to run a fetch on.
    pub fn backend_mut(&mut self) -> (r: &mut B)
        ensures
            *r == old(self).session(),
            final(self).session() == *final(r),
            final(self).slot() == old(self).slot(),
            final(self).rules() == old(self).rules(),
    {
        &mut self.backend
    }

    /// Gives up the engine for its backend, to close it.
    pub fn into_backend(self) -> (r: B)
        ensures
            r == self.session(),
    {
        self.backend
    }

    /// Turns what the backend answered for the page `url` into the outcome of
    /// the fetch: the links that the crawl keeps and the extracted value, or
    /// the backend's failure as it is.
    pub fn run<V>(&self, url: &Url, found: Result<SearchResult<V>, BackendError>) -> (r: Result<
        (Vec<Url>, Option<V>),
        BackendError,
    >)
        ensures
            match found {
                Ok(result) => r.is_ok() && r.unwrap().1 == result.data && url_texts(r.unwrap().0@)
                    == kept_links(url@, texts(result.urls@), self.rules()),
                Err(e) => r == Err::<(Vec<Url>, Option<V>), BackendError>(e),
            },
    {
        match found {
            Ok(result) => {
                let urls = self.filter_result(&result.urls, url);
                Ok((urls, result.data))
            },
            Err(e) => Err(e),
        }
    }

    /// The links of `urls`, found on the page `url`, that the crawl keeps.
    pub fn filter_result(&self, urls: &Vec<String>, url: &Url) -> (r: Vec<Url>)
        ensures
            url_texts(r@) == kept_links(url@, texts(urls@), self.rules()),
    {
        validate_links(url, urls, &self.filters)
    }
}

} // verus!
