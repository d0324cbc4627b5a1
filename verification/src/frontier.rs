// This Source Code Form is subject to the terms of the Mozilla Public
// License, v. 2.0. If a copy of the MPL was not distributed with this
// file, You can obtain one at https://mozilla.org/MPL/2.0/.

//! The work frontier: the URLs that were discovered and not yet handed out.
//!
//! Every URL that enters is remembered for good, so a URL enters once.  A new
//! URL either goes on the stack at once or waits for a clearance first; from
//! the stack the URL that came last is handed out first.

use crate::address::{url_texts, Url};
use crate::seen::SeenSet;
use crate::text::lemma_push_contains;
use vstd::prelude::*;

verus! {

/// A frontier as a mathematical value.
pub struct FrontierView {
    /// The URLs that are ready to be handed out; the last one goes first.
    pub stack: Seq<Seq<char>>,
    /// The URLs that wait for a clearance; the first one is cleared first.
    pub waiting: Seq<Seq<char>>,
    /// Every URL that ever entered, or was marked as visited.
    pub seen: Set<Seq<char>>,
    /// The URLs that were handed out, in the order in which they left.
    pub handed: Seq<Seq<char>>,
}

impl FrontierView {
    /// The invariant of a frontier: a URL stands at one place at most, be it
    /// on the stack, among the waiting or among those handed out, and every
    /// URL that stands at one of these places is remembered.
    pub open spec fn wf(self) -> bool {
        &&& self.stack.no_duplicates()
        &&& self.waiting.no_duplicates()
        &&& self.handed.no_duplicates()
        &&& forall|u: Seq<char>| !(self.stack.contains(u) && #[trigger] self.waiting.contains(u))
        &&& forall|u: Seq<char>| !(self.stack.contains(u) && #[trigger] self.handed.contains(u))
        &&& forall|u: Seq<char>| !(self.waiting.contains(u) && #[trigger] self.handed.contains(u))
        &&& forall|u: Seq<char>| #[trigger] self.stack.contains(u) ==> self.seen.contains(u)
        &&& forall|u: Seq<char>| #[trigger] self.waiting.contains(u) ==> self.seen.contains(u)
        &&& forall|u: Seq<char>| #[trigger] self.handed.contains(u) ==> self.seen.contains(u)
    }

    /// The frontier after `url` was offered to it: a URL that is remembered
    /// already changes nothing; a new one is remembered and, as `hold` says,
    /// waits for a clearance or goes on the stack.
    pub open spec fn keep(self, url: Seq<char>, hold: bool) -> FrontierView {
        if self.seen.contains(url) {
            self
        } else if hold {
            FrontierView { seen: self.seen.insert(url), waiting: self.waiting.push(url), ..self }
        } else {
            FrontierView { seen: self.seen.insert(url), stack: self.stack.push(url), ..self }
        }
    }

    /// The frontier after `urls` were offered to it, in this order.
    pub open spec fn keep_all(self, urls: Seq<Seq<char>>, hold: bool) -> FrontierView
        decreases urls.len(),
    {
        if urls.len() == 0 {
            self
        } else {
            self.keep_all(urls.drop_last(), hold).keep(urls.last(), hold)
        }
    }

    /// The frontier after the URL that waited longest was cleared or refused.
    pub open spec fn release(self, allowed: bool) -> FrontierView {
        if self.waiting.len() == 0 {
            self
        } else if allowed {
            FrontierView {
                waiting: self.waiting.drop_first(),
                stack: self.stack.push(self.waiting.first()),
                ..self
            }
        } else {
            FrontierView { waiting: self.waiting.drop_first(), ..self }
        }
    }

    /// The frontier after the top of its stack was handed out.
    pub open spec fn pop(self) -> FrontierView {
        if self.stack.len() == 0 {
            self
        } else {
            FrontierView {
                stack: self.stack.drop_last(),
                handed: self.handed.push(self.stack.last()),
                ..self
            }
        }
    }

    /// The frontier after `url` was marked as visited.
    pub open spec fn mark(self, url: Seq<char>) -> FrontierView {
        FrontierView { seen: self.seen.insert(url), ..self }
    }
}

/// The frontier that no URL has entered.
pub open spec fn empty_frontier() -> FrontierView {
    FrontierView {
        stack: Seq::empty(),
        waiting: Seq::empty(),
        seen: Set::empty(),
        handed: Seq::empty(),
    }
}

/// Offering a URL keeps the invariant.
pub proof fn lemma_keep_wf(f: FrontierView, url: Seq<char>, hold: bool)
    requires
        f.wf(),
    ensures
        f.keep(url, hold).wf(),
        f.keep(url, hold).handed == f.handed,
{
    let g = f.keep(url, hold);
    if !f.seen.contains(url) {
        if hold {
            lemma_push_fresh(f.waiting, url);
        } else {
            lemma_push_fresh(f.stack, url);
        }
    }
}

/// Offering URLs keeps the invariant and hands nothing out.
pub proof fn lemma_keep_all_wf(f: FrontierView, urls: Seq<Seq<char>>, hold: bool)
    requires
        f.wf(),
    ensures
        f.keep_all(urls, hold).wf(),
        f.keep_all(urls, hold).handed == f.handed,
    decreases urls.len(),
{
    if urls.len() > 0 {
        lemma_keep_all_wf(f, urls.drop_last(), hold);
        lemma_keep_wf(f.keep_all(urls.drop_last(), hold), urls.last(), hold);
    }
}

/// URLs that are offered without a hold leave the waiting as they are.
pub proof fn lemma_keep_all_unheld(f: FrontierView, urls: Seq<Seq<char>>)
    ensures
        f.keep_all(urls, false).waiting == f.waiting,
    decreases urls.len(),
{
    if urls.len() > 0 {
        lemma_keep_all_unheld(f, urls.drop_last());
    }
}

/// Whatever is offered, what the frontier has seen stays seen.
pub proof fn lemma_keep_all_seen(f: FrontierView, urls: Seq<Seq<char>>, hold: bool)
    ensures
        f.seen.subset_of(f.keep_all(urls, hold).seen),
    decreases urls.len(),
{
    if urls.len() > 0 {
        lemma_keep_all_seen(f, urls.drop_last(), hold);
    }
}

/// A clearance keeps the invariant.
pub proof fn lemma_release_wf(f: FrontierView, allowed: bool)
    requires
        f.wf(),
    ensures
        f.release(allowed).wf(),
{
    if f.waiting.len() > 0 {
        let u = f.waiting.first();
        lemma_drop_first(f.waiting);
        assert(f.waiting.contains(u)) by {
            assert(f.waiting[0] == u);
        }
        if allowed {
            lemma_push_fresh(f.stack, u);
        }
    }
}

/// Handing a URL out keeps the invariant.
pub proof fn lemma_pop_wf(f: FrontierView)
    requires
        f.wf(),
    ensures
        f.pop().wf(),
{
    if f.stack.len() > 0 {
        let u = f.stack.last();
        lemma_drop_last(f.stack);
        assert(f.stack.contains(u)) by {
            assert(f.stack[f.stack.len() - 1] == u);
        }
        lemma_push_fresh(f.handed, u);
    }
}

/// Deduplication: a frontier hands no URL out twice.  Whatever was offered to
/// it and however often, the URLs that have left are pairwise different, and
/// none of them stands on the stack or waits, so none can leave again.
pub proof fn lemma_handed_once(f: FrontierView, i: int, j: int)
    requires
        f.wf(),
        0 <= i < j < f.handed.len(),
    ensures
        f.handed[i] != f.handed[j],
        !f.stack.contains(f.handed[i]),
        !f.waiting.contains(f.handed[i]),
        f.seen.contains(f.handed[i]),
{
    assert(f.handed.contains(f.handed[i]));
}

/// A sequence without duplicates stays so when a new element is pushed.
proof fn lemma_push_fresh(s: Seq<Seq<char>>, u: Seq<char>)
    requires
        s.no_duplicates(),
        !s.contains(u),
    ensures
        s.push(u).no_duplicates(),
        forall|w: Seq<char>| #[trigger] s.push(u).contains(w) <==> s.contains(w) || w == u,
{
    lemma_push_contains(s, u);
    let t = s.push(u);
    assert forall|i: int, j: int| 0 <= i < t.len() && 0 <= j < t.len() && i != j implies t[i]
        != t[j] by {
        if i < s.len() {
            assert(s.contains(s[i]));
        }
        if j < s.len() {
            assert(s.contains(s[j]));
        }
    }
}

/// What a sequence without duplicates holds once its last element is dropped.
proof fn lemma_drop_last(s: Seq<Seq<char>>)
    requires
        s.no_duplicates(),
        s.len() > 0,
    ensures
        s.drop_last().no_duplicates(),
        !s.drop_last().contains(s.last()),
        forall|w: Seq<char>| #[trigger] s.drop_last().contains(w) ==> s.contains(w),
        forall|w: Seq<char>| #[trigger] s.contains(w) ==> s.drop_last().contains(w) || w == s.last(),
{
    let t = s.drop_last();
    assert forall|w: Seq<char>| #[trigger] t.contains(w) implies s.contains(w) by {
        let k = choose|k: int| 0 <= k < t.len() && t[k] == w;
        assert(s[k] == w);
    }
    assert forall|w: Seq<char>| #[trigger] s.contains(w) implies t.contains(w) || w
        == s.last() by {
        let k = choose|k: int| 0 <= k < s.len() && s[k] == w;
        if k < t.len() {
            assert(t[k] == w);
        }
    }
    if t.contains(s.last()) {
        let k = choose|k: int| 0 <= k < t.len() && t[k] == s.last();
        assert(s[k] == s[s.len() - 1]);
    }
}

/// What a sequence without duplicates holds once its first element is dropped.
proof fn lemma_drop_first(s: Seq<Seq<char>>)
    requires
        s.no_duplicates(),
        s.len() > 0,
    ensures
        s.drop_first().no_duplicates(),
        !s.drop_first().contains(s.first()),
        forall|w: Seq<char>| #[trigger] s.drop_first().contains(w) ==> s.contains(w),
        forall|w: Seq<char>| #[trigger]
            s.contains(w) ==> s.drop_first().contains(w) || w == s.first(),
{
    let t = s.drop_first();
    assert forall|w: Seq<char>| #[trigger] t.contains(w) implies s.contains(w) by {
        let k = choose|k: int| 0 <= k < t.len() && t[k] == w;
        assert(s[k + 1] == w);
    }
    assert forall|w: Seq<char>| #[trigger] s.contains(w) implies t.contains(w) || w
        == s.first() by {
        let k = choose|k: int| 0 <= k < s.len() && s[k] == w;
        if k > 0 {
            assert(t[k - 1] == w);
        }
    }
    if t.contains(s.first()) {
        let k = choose|k: int| 0 <= k < t.len() && t[k] == s.first();
        assert(s[k + 1] == s[0]);
    }
}

/// The work frontier.
pub struct Frontier {
    urls_pool: Vec<Url>,
    waiting: Vec<Url>,
    seen_list: SeenSet,
    handed: Ghost<Seq<Seq<char>>>,
}

impl View for Frontier {
    type V = FrontierView;

    closed spec fn view(&self) -> FrontierView {
        FrontierView {
            stack: url_texts(self.urls_pool@),
            waiting: url_texts(self.waiting@),
            seen: self.seen_list@,
            handed: self.handed@,
        }
    }
}

impl Frontier {
    /// The invariant of a frontier.
    pub closed spec fn wf(&self) -> bool {
        self@.wf()
    }

    /// What the invariant says of the frontier as a mathematical value.
    pub proof fn lemma_wf(&self)
        requires
            self.wf(),
        ensures
            self@.wf(),
    {
    }

    /// A frontier that no URL has entered.
    pub fn new() -> (r: Self)
        ensures
            r.wf(),
            r@ == empty_frontier(),
    {
        let r = Frontier {
            urls_pool: Vec::new(),
            waiting: Vec::new(),
            seen_list: SeenSet::new(),
            handed: Ghost(Seq::empty()),
        };
        assert(r@.stack =~= Seq::<Seq<char>>::empty());
        assert(r@.waiting =~= Seq::<Seq<char>>::empty());
        assert(r@.seen =~= Set::<Seq<char>>::empty());
        r
    }

    /// Whether `url` is remembered.
    pub fn is_seen(&self, url: &Url) -> (r: bool)
        ensures
            r == self@.seen.contains(url@),
    {
        self.seen_list.contains(url)
    }

    /// Remembers `url`.
    fn remember(&mut self, url: &Url)
        ensures
            final(self)@ == old(self)@.mark(url@),
    {
        self.seen_list.insert(url.clone());
    }

    /// Offers `url` to the frontier; see [`FrontierView::keep`].
    pub fn keep(&mut self, url: Url, hold: bool)
        requires
            old(self).wf(),
        ensures
            final(self).wf(),
            final(self)@ == old(self)@.keep(url@, hold),
    {
        proof {
            lemma_keep_wf(self@, url@, hold);
        }
        if self.is_seen(&url) {
            return ;
        }
        self.remember(&url);
        let ghost marked = self@;
        if hold {
            self.waiting.push(url);
            assert(self@.waiting =~= marked.waiting.push(url@));
            assert(self@.stack == marked.stack);
        } else {
            self.urls_pool.push(url);
            assert(self@.stack =~= marked.stack.push(url@));
            assert(self@.waiting == marked.waiting);
        }
    }

    /// Offers `urls` to the frontier, in their order.
    pub fn keep_urls(&mut self, urls: Vec<Url>, hold: bool)
        requires
            old(self).wf(),
        ensures
            final(self).wf(),
            final(self)@ == old(self)@.keep_all(url_texts(urls@), hold),
    {
        let ghost all = url_texts(urls@);
        let mut urls = urls;
        let mut rest: Vec<Url> = Vec::new();
        // The URLs are taken from the end, so they are turned round first.
        while urls.len() > 0
            invariant
                url_texts(urls@) + url_texts(rest@).reverse() == all,
            decreases urls.len(),
        {
            let ghost u = url_texts(urls@);
            let ghost r = url_texts(rest@);
            let url = urls.pop().unwrap();
            rest.push(url);
            proof {
                assert(url_texts(urls@) =~= u.drop_last());
                assert(url_texts(rest@) =~= r.push(u.last()));
                assert(r.push(u.last()).reverse() =~= seq![u.last()] + r.reverse());
                assert(u.drop_last() + (seq![u.last()] + r.reverse()) =~= u + r.reverse());
            }
        }
        assert(url_texts(rest@).reverse() =~= all);
        let ghost given = Seq::<Seq<char>>::empty();
        while rest.len() > 0
            invariant
                self.wf(),
                given + url_texts(rest@).reverse() == all,
                self@ == old(self)@.keep_all(given, hold),
            decreases rest.len(),
        {
            let ghost r = url_texts(rest@);
            let url = rest.pop().unwrap();
            proof {
                assert(url_texts(rest@) =~= r.drop_last());
                assert(r.reverse() =~= seq![r.last()] + r.drop_last().reverse());
                assert(given.push(url@) + r.drop_last().reverse() =~= given + r.reverse());
                assert(given.push(url@).drop_last() =~= given);
            }
            self.keep(url, hold);
            proof {
                given = given.push(url@);
            }
        }
        assert(given =~= all);
    }

    /// The URL that is cleared next, if one waits.
    pub fn next_waiting(&self) -> (r: Option<&Url>)
        ensures
            r.is_some() == (self@.waiting.len() > 0),
            r.is_some() ==> r.unwrap()@ == self@.waiting.first(),
    {
        if self.waiting.len() == 0 {
            None
        } else {
            Some(&self.waiting[0])
        }
    }

    /// Clears or refuses the URL that waited longest; see
    /// [`FrontierView::release`].
    pub fn release(&mut self, allowed: bool)
        requires
            old(self).wf(),
        ensures
            final(self).wf(),
            final(self)@ == old(self)@.release(allowed),
    {
        proof {
            lemma_release_wf(self@, allowed);
        }
        let ghost before = self@;
        if self.waiting.len() > 0 {
            let url = self.waiting.remove(0);
            assert(self@.waiting =~= before.waiting.drop_first());
            if allowed {
                self.urls_pool.push(url);
                assert(self@.stack =~= before.stack.push(url@));
            }
        }
    }

    /// Hands out the URL that went on the stack last.
    pub fn pop(&mut self) -> (r: Option<Url>)
        requires
            old(self).wf(),
        ensures
            final(self).wf(),
            final(self)@ == old(self)@.pop(),
            r.is_some() == (old(self)@.stack.len() > 0),
            r.is_some() ==> r.unwrap()@ == old(self)@.stack.last(),
    {
        proof {
            lemma_pop_wf(self@);
        }
        let ghost before = self@;
        match self.urls_pool.pop() {
            Some(url) => {
                self.handed = Ghost(self.handed@.push(url@));
                assert(self@.stack =~= before.stack.drop_last());
                Some(url)
            },
            None => None,
        }
    }

    /// Marks `url` as visited, so that it never enters again.
    pub fn mark_visited(&mut self, url: &Url)
        requires
            old(self).wf(),
        ensures
            final(self).wf(),
            final(self)@ == old(self)@.mark(url@),
    {
        if self.is_seen(url) {
            assert(self@.seen.insert(url@) =~= self@.seen);
        } else {
            self.remember(url);
        }
    }

    /// Whether no URL is ready to be handed out.
    pub fn is_empty(&self) -> (r: bool)
        ensures
            r == (self@.stack.len() == 0),
    {
        self.urls_pool.len() == 0
    }
}

} // verus!
