// This Source Code Form is subject to the terms of the Mozilla Public
// License, v. 2.0. If a copy of the MPL was not distributed with this
// file, You can obtain one at https://mozilla.org/MPL/2.0/.

//! What it takes to build an engine: the settings of the browser driver, and
//! the builders that number the engines they make.
//!
//! Opening a browser session is the caller's part; a builder of this module
//! turns the session into an engine.

use crate::address::Url;
use crate::engine::{Engine, EngineId};
use crate::filters::{filter_views, Filter, FilterView};
use vstd::prelude::*;

verus! {

/// The browser that a driver steers.
#[derive(Debug, Clone, Copy, PartialEq, Eq, Structural)]
pub enum Browser {
    Firefox,
    Chrome,
}

/// How the browser reaches the network.
#[derive(Debug, Clone, PartialEq, Eq)]
pub enum Proxy {
    Direct,
    Manual(ManualProxy),
    AutoConfig(String),
    AutoDetect,
    System,
}

/// A proxy that is given by its address.
#[derive(Debug, Clone, PartialEq, Eq)]
pub enum ManualProxy {
    Http(String),
    Sock { address: String, version: u8, username: Option<String>, password: Option<String> },
}

/// A manual proxy as a mathematical value.
pub enum ManualProxyView {
    Http(Seq<char>),
    Sock {
        address: Seq<char>,
        version: u8,
        username: Option<Seq<char>>,
        password: Option<Seq<char>>,
    },
}

/// A proxy as a mathematical value.
pub enum ProxyView {
    Direct,
    Manual(ManualProxyView),
    AutoConfig(Seq<char>),
    AutoDetect,
    System,
}

/// The text of `s`, if there is one.
pub open spec fn text_of(s: Option<String>) -> Option<Seq<char>> {
    match s {
        Some(t) => Some(t@),
        None => None,
    }
}

impl View for ManualProxy {
    type V = ManualProxyView;

    open spec fn view(&self) -> ManualProxyView {
        match self {
            ManualProxy::Http(address) => ManualProxyView::Http(address@),
            ManualProxy::Sock { address, version, username, password } => ManualProxyView::Sock {
                address: address@,
                version: *version,
                username: text_of(*username),
                password: text_of(*password),
            },
        }
    }
}

impl View for Proxy {
    type V = ProxyView;

    open spec fn view(&self) -> ProxyView {
        match self {
            Proxy::Direct => ProxyView::Direct,
            Proxy::Manual(manual) => ProxyView::Manual(manual@),
            Proxy::AutoConfig(url) => ProxyView::AutoConfig(url@),
            Proxy::AutoDetect => ProxyView::AutoDetect,
            Proxy::System => ProxyView::System,
        }
    }
}

/// The settings of a browser driver.
#[derive(Debug, Clone)]
pub struct WebDriverConfig {
    /// How long a page may take to load, in milliseconds.
    pub load_timeout: u64,
    pub browser: Browser,
    pub webdriver_address: Url,
    pub proxy: Option<Proxy>,
}

/// `msg` and `e` with a blank between them: the text of an error that says
/// what failed and why.
pub fn wrap_err(msg: &str, e: &str) -> (r: String)
    ensures
        r@ == msg@ + seq![' '] + e@,
{
    let mut r = msg.to_owned();
    proof {
        reveal_strlit(" ");
        assert(" "@ =~= seq![' ']);
    }
    r.append(" ");
    r.append(e);
    r
}

/// `n` and one more, as far as a number of engines goes.
pub open spec fn next_id(n: EngineId) -> EngineId {
    if n < usize::MAX {
        (n + 1) as usize
    } else {
        n
    }
}

/// The builder of the engines that run a script on each page.
#[derive(Debug)]
pub struct WebDriverEngineBuilder {
    config: WebDriverConfig,
    code: String,
    filters: Vec<Filter>,
    id: usize,
}

impl WebDriverEngineBuilder {
    /// The number that the next engine gets, as a mathematical value.
    pub closed spec fn made(&self) -> EngineId {
        self.id
    }

    /// The filters that the engines get, as mathematical values.
    pub closed spec fn rules(&self) -> Seq<FilterView> {
        filter_views(self.filters@)
    }

    /// The script that the engines run, as a mathematical value.
    pub closed spec fn script(&self) -> Seq<char> {
        self.code@
    }

    /// The settings of the driver, as a mathematical value.
    pub closed spec fn settings(&self) -> WebDriverConfig {
        self.config
    }

    pub fn new(config: WebDriverConfig, code: String, filters: Vec<Filter>) -> (r: Self)
        ensures
            r.made() == 0,
            r.rules() == filter_views(filters@),
            r.script() == code@,
            r.settings() == config,
    {
        WebDriverEngineBuilder { config, code, filters, id: 0 }
    }

    /// The settings of the driver.
    pub fn config(&self) -> (r: &WebDriverConfig)
        ensures
            *r == self.settings(),
    {
        &self.config
    }

    /// The script that the engines run.
    pub fn code(&self) -> (r: &str)
        ensures
            r@ == self.script(),
    {
        self.code.as_str()
    }

    /// Makes an engine of a session that was opened with this builder's
    /// settings: the engine gets the builder's filters and the next number.
    pub fn build<B>(&mut self, backend: B) -> (r: Engine<B>)
        ensures
            r.slot() == old(self).made(),
            r.session() == backend,
            r.rules() == old(self).rules(),
            final(self).made() == next_id(old(self).made()),
            final(self).rules() == old(self).rules(),
            final(self).script() == old(self).script(),
            final(self).settings() == old(self).settings(),
    {
        let id = self.id;
        if self.id < usize::MAX {
            self.id = self.id + 1;
        }
        Engine::new(id, backend, &self.filters)
    }
}

/// The builder of the engines that run a recorded browser script on each page.
#[derive(Debug)]
pub struct SideRunnerEngineBuilder {
    config: WebDriverConfig,
    code: String,
    filters: Vec<Filter>,
    id: usize,
}

impl SideRunnerEngineBuilder {
    /// The number that the next engine gets, as a mathematical value.
    pub closed spec fn made(&self) -> EngineId {
        self.id
    }

    /// The filters that the engines get, as mathematical values.
    pub closed spec fn rules(&self) -> Seq<FilterView> {
        filter_views(self.filters@)
    }

    /// The recorded script, as a mathematical value.
    pub closed spec fn script(&self) -> Seq<char> {
        self.code@
    }

    /// The settings of the driver, as a mathematical value.
    pub closed spec fn settings(&self) -> WebDriverConfig {
        self.config
    }

    pub fn new(config: WebDriverConfig, code: String, filters: Vec<Filter>) -> (r: Self)
        ensures
            r.made() == 0,
            r.rules() == filter_views(filters@),
            r.script() == code@,
            r.settings() == config,
    {
        SideRunnerEngineBuilder { config, code, filters, id: 0 }
    }

    /// The settings of the driver.
    pub fn config(&self) -> (r: &WebDriverConfig)
        ensures
            *r == self.settings(),
    {
        &self.config
    }

    /// The recorded script.
    pub fn code(&self) -> (r: &str)
        ensures
            r@ == self.script(),
    {
        self.code.as_str()
    }

    /// Makes an engine of a session that was opened with this builder's
    /// settings: the engine gets the builder's filters and the next number.
    pub fn build<B>(&mut self, backend: B) -> (r: Engine<B>)
        ensures
            r.slot() == old(self).made(),
            r.session() == backend,
            r.rules() == old(self).rules(),
            final(self).made() == next_id(old(self).made()),
            final(self).rules() == old(self).rules(),
            final(self).script() == old(self).script(),
            final(self).settings() == old(self).settings(),
    {
        let id = self.id;
        if self.id < usize::MAX {
            self.id = self.id + 1;
        }
        Engine::new(id, backend, &self.filters)
    }
}

} // verus!
