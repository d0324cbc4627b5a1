// This Source Code Form is subject to the terms of the Mozilla Public
// License, v. 2.0. If a copy of the MPL was not distributed with this
// file, You can obtain one at https://mozilla.org/MPL/2.0/.

//! The holding area for URLs whose fetch timed out.
//!
//! A URL that is kept for a retry waits in the batch of the moment it was
//! kept.  Batches come out oldest first, and only once they have waited longer
//! than the pool's threshold, unless the caller forces one out.  Each URL has a
//! counter of attempts; the attempt that brings the counter to the cap is
//! refused, and so is every later one.
//!
//! Moments are nanoseconds on a clock that the caller chooses; the methods
//! without an explicit moment read the system clock.

use crate::address::{url_texts, Url};
use vstd::prelude::*;

verus! {

/// The URLs kept at one moment, as mathematical values, oldest first.
pub struct Batch {
    pub time: nat,
    pub urls: Seq<Seq<char>>,
}

/// A retry pool as a mathematical value.
pub struct PoolView {
    /// How long a batch waits before it is ready.
    pub fire_time: nat,
    /// The number of attempts at which a URL is given up.
    pub cap: nat,
    /// The waiting batches, oldest first.
    pub batches: Seq<Batch>,
    /// The attempts counted for each URL.
    pub attempts: Map<Seq<char>, nat>,
}

/// Whether the batches are ordered by strictly increasing moments.
pub open spec fn increasing(batches: Seq<Batch>) -> bool {
    forall|i: int, j: int| 0 <= i < j < batches.len() ==> batches[i].time < batches[j].time
}

/// The number of batches of `batches` that are older than `now`.
pub open spec fn older(batches: Seq<Batch>, now: nat) -> int
    decreases batches.len(),
{
    if batches.len() == 0 {
        0
    } else if batches.last().time < now {
        batches.len() as int
    } else {
        older(batches.drop_last(), now)
    }
}

/// `batches` with `url` added to the batch of the moment `now`.
pub open spec fn put(batches: Seq<Batch>, now: nat, url: Seq<char>) -> Seq<Batch> {
    let at = older(batches, now);
    if at < batches.len() && batches[at].time == now {
        batches.update(at, Batch { time: now, urls: batches[at].urls.push(url) })
    } else {
        batches.insert(at, Batch { time: now, urls: seq![url] })
    }
}

impl PoolView {
    /// The invariant of a pool: the batches are in order and none is empty.
    pub open spec fn wf(self) -> bool {
        &&& increasing(self.batches)
        &&& forall|i: int| 0 <= i < self.batches.len() ==> (#[trigger] self.batches[i]).urls.len() > 0
        &&& self.attempts.dom() == Set::<Seq<char>>::full()
        &&& self.cap <= usize::MAX
    }

    /// The counter of `url` after one more attempt.
    pub open spec fn bumped(self, url: Seq<char>) -> nat {
        if self.attempts[url] < usize::MAX {
            self.attempts[url] + 1
        } else {
            self.attempts[url]
        }
    }

    /// Whether one more attempt for `url` is granted.
    pub open spec fn grants(self, url: Seq<char>) -> bool {
        self.bumped(url) < self.cap
    }

    /// The pool after an attempt for `url` was asked for at the moment `now`.
    pub open spec fn keep(self, url: Seq<char>, now: nat) -> PoolView {
        PoolView {
            attempts: self.attempts.insert(url, self.bumped(url)),
            batches: if self.grants(url) {
                put(self.batches, now, url)
            } else {
                self.batches
            },
            ..self
        }
    }

    /// Whether the oldest batch may be taken from at the moment `now`.
    pub open spec fn ready(self, force: bool, now: nat) -> bool {
        self.batches.len() > 0 && (force || now - self.batches[0].time > self.fire_time)
    }

    /// The URL that comes out at the moment `now`: the newest of the oldest
    /// batch, if that batch is ready.
    pub open spec fn next(self, force: bool, now: nat) -> Option<Seq<char>> {
        if self.ready(force, now) {
            Some(self.batches[0].urls.last())
        } else {
            None
        }
    }

    /// The pool after a URL was asked for at the moment `now`.
    pub open spec fn take(self, force: bool, now: nat) -> PoolView {
        if self.ready(force, now) {
            let oldest = self.batches[0];
            PoolView {
                batches: if oldest.urls.len() == 1 {
                    self.batches.drop_first()
                } else {
                    self.batches.update(
                        0,
                        Batch { time: oldest.time, urls: oldest.urls.drop_last() },
                    )
                },
                ..self
            }
        } else {
            self
        }
    }
}

/// One call on a pool.
pub enum PoolCall {
    /// An attempt for `url` is asked for at the moment `now`.
    Keep { url: Seq<char>, now: nat },
    /// A URL is asked for at the moment `now`.
    Get { force: bool, now: nat },
}

impl PoolView {
    /// The pool after `call`.
    pub open spec fn after(self, call: PoolCall) -> PoolView {
        match call {
            PoolCall::Keep { url, now } => self.keep(url, now),
            PoolCall::Get { force, now } => self.take(force, now),
        }
    }

    /// The pool after `calls`, made in this order.
    pub open spec fn after_all(self, calls: Seq<PoolCall>) -> PoolView
        decreases calls.len(),
    {
        if calls.len() == 0 {
            self
        } else {
            self.after_all(calls.drop_last()).after(calls.last())
        }
    }

    /// How many of `calls`, made in this order, were attempts for `url` that
    /// the pool granted.
    pub open spec fn granted(self, calls: Seq<PoolCall>, url: Seq<char>) -> nat
        decreases calls.len(),
    {
        if calls.len() == 0 {
            0
        } else {
            let before = self.granted(calls.drop_last(), url);
            match calls.last() {
                PoolCall::Keep { url: asked, .. } => if asked == url && self.after_all(
                    calls.drop_last(),
                ).grants(url) {
                    before + 1
                } else {
                    before
                },
                PoolCall::Get { .. } => before,
            }
        }
    }
}

/// Every call keeps the invariant of a pool.
pub proof fn lemma_calls_keep_wf(pool: PoolView, calls: Seq<PoolCall>)
    requires
        pool.wf(),
    ensures
        pool.after_all(calls).wf(),
        pool.after_all(calls).cap == pool.cap,
        pool.after_all(calls).fire_time == pool.fire_time,
    decreases calls.len(),
{
    if calls.len() > 0 {
        lemma_calls_keep_wf(pool, calls.drop_last());
        let before = pool.after_all(calls.drop_last());
        match calls.last() {
            PoolCall::Keep { url, now } => {
                lemma_put(before.batches, now, url);
                assert(before.keep(url, now).attempts.dom() =~= Set::<Seq<char>>::full());
            },
            PoolCall::Get { force, now } => {
                let after = before.take(force, now);
                if before.ready(force, now) {
                    if before.batches[0].urls.len() == 1 {
                        assert forall|i: int| 0 <= i < after.batches.len() implies (
                        #[trigger] after.batches[i]).urls.len() > 0 by {
                            assert(after.batches[i] == before.batches[i + 1]);
                        }
                        assert forall|i: int, j: int|
                            0 <= i < j < after.batches.len() implies after.batches[i].time
                            < after.batches[j].time by {
                            assert(after.batches[i] == before.batches[i + 1]);
                            assert(after.batches[j] == before.batches[j + 1]);
                        }
                    } else {
                        assert forall|i: int| 0 <= i < after.batches.len() implies (
                        #[trigger] after.batches[i]).urls.len() > 0 by {
                            if i > 0 {
                                assert(after.batches[i] == before.batches[i]);
                            }
                        }
                        assert forall|i: int, j: int|
                            0 <= i < j < after.batches.len() implies after.batches[i].time
                            < after.batches[j].time by {
                            assert(after.batches[i].time == before.batches[i].time);
                            assert(after.batches[j].time == before.batches[j].time);
                        }
                    }
                }
            },
        }
    }
}

/// The retry cap: however the calls on a pool follow one another, the attempts
/// that it grants for one URL, together with the attempts that it had counted
/// for that URL before, stay below the cap.  A URL that the pool has not seen
/// is therefore kept fewer times than the cap says.
pub proof fn lemma_retry_cap(pool: PoolView, calls: Seq<PoolCall>, url: Seq<char>)
    requires
        pool.wf(),
    ensures
        pool.granted(calls, url) > 0 ==> pool.granted(calls, url) + pool.attempts[url] < pool.cap,
        pool.granted(calls, url) + pool.attempts[url] <= pool.after_all(calls).attempts[url],
    decreases calls.len(),
{
    if calls.len() > 0 {
        lemma_retry_cap(pool, calls.drop_last(), url);
        lemma_calls_keep_wf(pool, calls.drop_last());
    }
}

/// `older` splits ordered batches at the moment `now`.
pub proof fn lemma_older(batches: Seq<Batch>, now: nat)
    requires
        increasing(batches),
    ensures
        0 <= older(batches, now) <= batches.len(),
        forall|i: int| 0 <= i < older(batches, now) ==> (#[trigger] batches[i]).time < now,
        forall|i: int| older(batches, now) <= i < batches.len() ==> (#[trigger] batches[i]).time >= now,
    decreases batches.len(),
{
    if batches.len() > 0 && batches.last().time >= now {
        let rest = batches.drop_last();
        lemma_older(rest, now);
        assert forall|i: int| 0 <= i < older(batches, now) implies (#[trigger] batches[i]).time
            < now by {
            assert(batches[i] == rest[i]);
        }
        assert forall|i: int| older(batches, now) <= i < batches.len() implies (
        #[trigger] batches[i]).time >= now by {
            if i < rest.len() {
                assert(batches[i] == rest[i]);
            }
        }
    }
}

/// Adding a URL keeps the batches in order and none of them empty.
pub proof fn lemma_put(batches: Seq<Batch>, now: nat, url: Seq<char>)
    requires
        increasing(batches),
        forall|i: int| 0 <= i < batches.len() ==> (#[trigger] batches[i]).urls.len() > 0,
    ensures
        increasing(put(batches, now, url)),
        forall|i: int|
            0 <= i < put(batches, now, url).len() ==> (#[trigger] put(
                batches,
                now,
                url,
            )[i]).urls.len() > 0,
{
    lemma_older(batches, now);
    let at = older(batches, now);
    let after = put(batches, now, url);
    if at < batches.len() && batches[at].time == now {
        assert forall|i: int, j: int| 0 <= i < j < after.len() implies after[i].time
            < after[j].time by {
            assert(after[i].time == batches[i].time);
            assert(after[j].time == batches[j].time);
        }
    } else {
        assert forall|i: int, j: int| 0 <= i < j < after.len() implies after[i].time
            < after[j].time by {
            let a = if i < at { batches[i] } else if i == at { after[at] } else { batches[i - 1] };
            let b = if j < at { batches[j] } else if j == at { after[at] } else { batches[j - 1] };
            assert(after[i] == a);
            assert(after[j] == b);
        }
        assert forall|i: int| 0 <= i < after.len() implies (#[trigger] after[i]).urls.len()
            > 0 by {
            if i < at {
                assert(after[i] == batches[i]);
            } else if i > at {
                assert(after[i] == batches[i - 1]);
            }
        }
    }
}

/// 1 where the condition holds, else 0.
pub open spec fn one_if(condition: bool) -> nat {
    if condition {
        1
    } else {
        0
    }
}

/// Whether `url` is counted where `who` is counted: every URL where `who`
/// names none, else the one that it names.
pub open spec fn is_counted(who: Option<Seq<char>>, url: Seq<char>) -> bool {
    match who {
        Some(u) => u == url,
        None => true,
    }
}

/// How many of `urls` are counted for `who`.
pub open spec fn count_of(urls: Seq<Seq<char>>, who: Option<Seq<char>>) -> nat
    decreases urls.len(),
{
    if urls.len() == 0 {
        0
    } else {
        count_of(urls.drop_last(), who) + one_if(is_counted(who, urls.last()))
    }
}

/// How many URLs wait in `batches`, counted for `who`: all of them where
/// `who` names none, else the occurrences of the URL that it names.
pub open spec fn waiting(batches: Seq<Batch>, who: Option<Seq<char>>) -> nat
    decreases batches.len(),
{
    if batches.len() == 0 {
        0
    } else {
        waiting(batches.drop_last(), who) + count_of(batches.last().urls, who)
    }
}

proof fn lemma_waiting_joined(a: Seq<Batch>, b: Seq<Batch>, who: Option<Seq<char>>)
    ensures
        waiting(a + b, who) == waiting(a, who) + waiting(b, who),
    decreases b.len(),
{
    if b.len() == 0 {
        assert(a + b =~= a);
    } else {
        lemma_waiting_joined(a, b.drop_last(), who);
        assert((a + b).drop_last() =~= a + b.drop_last());
    }
}

/// What waits in batches that are made of a head, one batch and a tail.
proof fn lemma_waiting_split(head: Seq<Batch>, batch: Batch, tail: Seq<Batch>, who: Option<Seq<char>>)
    ensures
        waiting(head + seq![batch] + tail, who) == waiting(head, who) + count_of(batch.urls, who)
            + waiting(tail, who),
{
    lemma_waiting_joined(head + seq![batch], tail, who);
    lemma_waiting_joined(head, seq![batch], who);
    assert(seq![batch].drop_last() =~= Seq::<Batch>::empty());
    assert(waiting(Seq::<Batch>::empty(), who) == 0);
    assert(seq![batch].last() == batch);
}

/// A URL that is put into the pool waits once more, and no other does.
pub proof fn lemma_waiting_put(batches: Seq<Batch>, now: nat, url: Seq<char>, who: Option<Seq<char>>)
    requires
        increasing(batches),
    ensures
        waiting(put(batches, now, url), who) == waiting(batches, who) + one_if(
            is_counted(who, url),
        ),
{
    lemma_older(batches, now);
    let at = older(batches, now);
    let head = batches.take(at);
    if at < batches.len() && batches[at].time == now {
        let tail = batches.skip(at + 1);
        let grown = Batch { time: now, urls: batches[at].urls.push(url) };
        assert(batches =~= head + seq![batches[at]] + tail);
        assert(put(batches, now, url) =~= head + seq![grown] + tail);
        lemma_waiting_split(head, batches[at], tail, who);
        lemma_waiting_split(head, grown, tail, who);
        assert(grown.urls.drop_last() =~= batches[at].urls);
    } else {
        let tail = batches.skip(at);
        let fresh = Batch { time: now, urls: seq![url] };
        assert(batches =~= head + tail);
        assert(put(batches, now, url) =~= head + seq![fresh] + tail);
        lemma_waiting_joined(head, tail, who);
        lemma_waiting_split(head, fresh, tail, who);
        assert(fresh.urls.drop_last() =~= Seq::<Seq<char>>::empty());
        assert(count_of(Seq::<Seq<char>>::empty(), who) == 0);
    }
}

/// The URL that is taken from the pool waits once less, and no other does.
pub proof fn lemma_waiting_take(pool: PoolView, force: bool, now: nat, who: Option<Seq<char>>)
    requires
        pool.wf(),
        pool.ready(force, now),
    ensures
        waiting(pool.take(force, now).batches, who) + one_if(
            is_counted(who, pool.next(force, now).unwrap()),
        ) == waiting(pool.batches, who),
        pool.take(force, now).attempts == pool.attempts,
        pool.take(force, now).cap == pool.cap,
{
    let oldest = pool.batches[0];
    let tail = pool.batches.skip(1);
    let none = Seq::<Batch>::empty();
    let shorter = Batch { time: oldest.time, urls: oldest.urls.drop_last() };
    assert(pool.batches =~= none + seq![oldest] + tail);
    lemma_waiting_split(none, oldest, tail, who);
    if oldest.urls.len() == 1 {
        assert(pool.take(force, now).batches =~= tail);
        assert(oldest.urls.drop_last() =~= Seq::<Seq<char>>::empty());
        assert(count_of(Seq::<Seq<char>>::empty(), who) == 0);
    } else {
        assert(pool.take(force, now).batches =~= none + seq![shorter] + tail);
        lemma_waiting_split(none, shorter, tail, who);
    }
}

/// The URLs kept at one moment.
#[derive(Debug)]
struct Bucket {
    time: u64,
    urls: Vec<Url>,
}

/// The attempts counted for one URL.
#[derive(Debug)]
struct Attempt {
    url: Url,
    count: usize,
}

/// The counter that `entries` hold for `url`: that of the last entry for it,
/// and 0 where there is none.
spec fn counted(entries: Seq<Attempt>, url: Seq<char>) -> nat
    decreases entries.len(),
{
    if entries.len() == 0 {
        0
    } else if entries.last().url@ == url {
        entries.last().count as nat
    } else {
        counted(entries.drop_last(), url)
    }
}

spec fn batch_of(bucket: Bucket) -> Batch {
    Batch { time: bucket.time as nat, urls: url_texts(bucket.urls@) }
}

spec fn batches_of(pool: Seq<Bucket>) -> Seq<Batch> {
    Seq::new(pool.len(), |i: int| batch_of(pool[i]))
}

/// A change of the last entry for `url` changes the counter of `url` alone.
proof fn lemma_counted_update(entries: Seq<Attempt>, at: int, entry: Attempt, url: Seq<char>)
    requires
        0 <= at < entries.len(),
        entries[at].url@ == entry.url@,
        forall|k: int| at < k < entries.len() ==> entries[k].url@ != entry.url@,
    ensures
        counted(entries.update(at, entry), url) == if url == entry.url@ {
            entry.count as nat
        } else {
            counted(entries, url)
        },
    decreases entries.len(),
{
    let after = entries.update(at, entry);
    if at == entries.len() - 1 {
        assert(after.drop_last() =~= entries.drop_last());
    } else {
        assert(after.drop_last() =~= entries.drop_last().update(at, entry));
        lemma_counted_update(entries.drop_last(), at, entry, url);
    }
}

/// Entries that do not mention `url` count nothing for it.
proof fn lemma_counted_absent(entries: Seq<Attempt>, url: Seq<char>)
    requires
        forall|k: int| 0 <= k < entries.len() ==> entries[k].url@ != url,
    ensures
        counted(entries, url) == 0,
    decreases entries.len(),
{
    if entries.len() > 0 {
        lemma_counted_absent(entries.drop_last(), url);
    }
}

/// The counter of `url` is that of the last entry for it.
proof fn lemma_counted_last(entries: Seq<Attempt>, at: int, url: Seq<char>)
    requires
        0 <= at < entries.len(),
        entries[at].url@ == url,
        forall|k: int| at < k < entries.len() ==> entries[k].url@ != url,
    ensures
        counted(entries, url) == entries[at].count,
    decreases entries.len(),
{
    if at < entries.len() - 1 {
        lemma_counted_last(entries.drop_last(), at, url);
    }
}

/// `std::time::SystemTime::elapsed` on the Unix epoch: the system clock, in
/// nanoseconds.  Nothing is promised of the moment that it gives.
#[verifier::external_body]
fn clock() -> u64 {
    match std::time::UNIX_EPOCH.elapsed() {
        Ok(d) => d.as_nanos() as u64,
        Err(_) => 0,
    }
}

/// The nanoseconds that `millis` milliseconds last, as far as a number holds
/// them.
pub open spec fn nanos_of_millis(millis: u64) -> u64 {
    if millis * 1000000 <= u64::MAX {
        (millis * 1000000) as u64
    } else {
        u64::MAX
    }
}

/// The nanoseconds that `millis` milliseconds last; the largest number where
/// they are more than a number holds.
pub fn millis_to_nanos(millis: u64) -> (r: u64)
    ensures
        r == nanos_of_millis(millis),
{
    if millis <= u64::MAX / 1000000 {
        millis * 1000000
    } else {
        u64::MAX
    }
}

/// The URLs that wait for another attempt.
#[derive(Debug)]
pub struct RetryPool {
    fire_time: u64,
    count_retries: usize,
    pool: Vec<Bucket>,
    retry_count: Vec<Attempt>,
}

impl View for RetryPool {
    type V = PoolView;

    closed spec fn view(&self) -> PoolView {
        PoolView {
            fire_time: self.fire_time as nat,
            cap: self.count_retries as nat,
            batches: batches_of(self.pool@),
            attempts: Map::total(|url: Seq<char>| counted(self.retry_count@, url)),
        }
    }
}

impl RetryPool {
    /// The invariant of a pool.
    pub closed spec fn wf(&self) -> bool {
        self@.wf()
    }

    /// What the invariant says of the pool as a mathematical value.
    pub proof fn lemma_wf(&self)
        requires
            self.wf(),
        ensures
            self@.wf(),
    {
    }

    /// An empty pool whose batches wait `fire_time` nanoseconds and whose URLs
    /// are given up at the attempt number `count_retries`.
    pub fn new(fire_time: u64, count_retries: usize) -> (r: Self)
        ensures
            r.wf(),
            r@.fire_time == fire_time,
            r@.cap == count_retries,
            r@.batches == Seq::<Batch>::empty(),
            forall|url: Seq<char>| r@.attempts[url] == 0,
    {
        let r = RetryPool { fire_time, count_retries, pool: Vec::new(), retry_count: Vec::new() };
        assert(r@.batches =~= Seq::<Batch>::empty());
        assert(r@.attempts.dom() =~= Set::<Seq<char>>::full());
        r
    }

    /// Counts one more attempt for `url`.
    fn bump(&mut self, url: &Url) -> (count: usize)
        ensures
            count == old(self)@.bumped(url@),
            final(self)@.attempts == old(self)@.attempts.insert(url@, count as nat),
            final(self).pool == old(self).pool,
            final(self).fire_time == old(self).fire_time,
            final(self).count_retries == old(self).count_retries,
    {
        let ghost before = self.retry_count@;
        let mut i: usize = self.retry_count.len();
        while i > 0 && self.retry_count[i - 1] .url != *url
            invariant
                i <= self.retry_count.len(),
                self.retry_count@ == before,
                forall|k: int| i <= k < before.len() ==> before[k].url@ != url@,
            decreases i,
        {
            i -= 1;
        }
        let count: usize;
        if i > 0 {
            let old_count = self.retry_count[i - 1].count;
            count = if old_count < usize::MAX { old_count + 1 } else { old_count };
            let entry = Attempt { url: url.clone(), count };
            proof {
                lemma_counted_last(before, i - 1, url@);
                assert forall|w: Seq<char>| counted(before.update(i - 1, entry), w) == (if w == url@ {
                    count as nat
                } else {
                    counted(before, w)
                }) by {
                    lemma_counted_update(before, i - 1, entry, w);
                }
            }
            self.retry_count.set(i - 1, entry);
        } else {
            count = 1;
            proof {
                lemma_counted_absent(before, url@);
                let entry = Attempt { url: *url, count };
                assert(before.push(entry).drop_last() =~= before);
            }
            self.retry_count.push(Attempt { url: url.clone(), count });
            assert forall|w: Seq<char>| counted(self.retry_count@, w) == (if w == url@ {
                count as nat
            } else {
                counted(before, w)
            }) by {
                assert(self.retry_count@.drop_last() =~= before);
            }
        }
        assert(self@.attempts =~= old(self)@.attempts.insert(url@, count as nat));
        count
    }

    /// Counts one more attempt for `url` and, unless that brings its counter
    /// to the cap, keeps it in the batch of the moment `now`.  The answer tells
    /// whether the URL was kept; where it was not, the caller has to give the
    /// URL up for good.
    pub fn keep_retry_at(&mut self, url: Url, now: u64) -> (r: bool)
        requires
            old(self).wf(),
        ensures
            final(self).wf(),
            r == old(self)@.grants(url@),
            final(self)@ == old(self)@.keep(url@, now as nat),
    {
        let count = self.bump(&url);
        if count >= self.count_retries {
            return false;
        }
        let ghost before = self.pool@;
        let ghost batches = batches_of(before);
        let mut at: usize = self.pool.len();
        assert(batches.take(at as int) =~= batches);
        while at > 0 && self.pool[at - 1].time >= now
            invariant
                at <= self.pool.len(),
                self.pool@ == before,
                batches == batches_of(before),
                older(batches, now as nat) == older(batches.take(at as int), now as nat),
            decreases at,
        {
            assert(batches.take(at as int).drop_last() =~= batches.take(at - 1));
            at -= 1;
        }
        proof {
            lemma_put(batches, now as nat, url@);
            if at > 0 {
                assert(batches.take(at as int).last() == batches[at - 1]);
            }
            assert(older(batches, now as nat) == at);
        }
        if at < self.pool.len() && self.pool[at].time == now {
            let mut bucket = self.pool.remove(at);
            bucket.urls.push(url);
            assert(url_texts(bucket.urls@) =~= batches[at as int].urls.push(url@));
            self.pool.insert(at, bucket);
            assert(batches_of(self.pool@) =~= put(batches, now as nat, url@));
        } else {
            let mut urls: Vec<Url> = Vec::new();
            urls.push(url);
            assert(url_texts(urls@) =~= seq![url@]);
            self.pool.insert(at, Bucket { time: now, urls });
            assert(batches_of(self.pool@) =~= put(batches, now as nat, url@));
        }
        true
    }

    /// [`Self::keep_retry_at`] at the moment that the system clock shows.
    pub fn keep_retry(&mut self, url: Url) -> (r: bool)
        requires
            old(self).wf(),
        ensures
            final(self).wf(),
            r == old(self)@.grants(url@),
            exists|now: nat| final(self)@ == #[trigger] old(self)@.keep(url@, now),
    {
        let now = clock();
        self.keep_retry_at(url, now)
    }

    /// Hands out the newest URL of the oldest batch, if that batch has waited
    /// longer than the threshold at the moment `now`, or if `force` is set.  A
    /// batch that is used up leaves the pool.
    pub fn get_url_at(&mut self, force: bool, now: u64) -> (r: Option<Url>)
        requires
            old(self).wf(),
        ensures
            final(self).wf(),
            r.is_some() == old(self)@.next(force, now as nat).is_some(),
            r.is_some() ==> r.unwrap()@ == old(self)@.next(force, now as nat).unwrap(),
            final(self)@ == old(self)@.take(force, now as nat),
    {
        if self.pool.len() == 0 {
            return None;
        }
        let time = self.pool[0].time;
        if !(force || (now > time && now - time > self.fire_time)) {
            return None;
        }
        let ghost batches = batches_of(self.pool@);
        let mut bucket = self.pool.remove(0);
        let url = bucket.urls.pop().unwrap();
        if bucket.urls.len() > 0 {
            assert(url_texts(bucket.urls@) =~= batches[0].urls.drop_last());
            self.pool.insert(0, bucket);
            assert(batches_of(self.pool@) =~= batches.update(
                0,
                Batch { time: batches[0].time, urls: batches[0].urls.drop_last() },
            ));
        } else {
            assert(batches_of(self.pool@) =~= batches.drop_first());
        }
        Some(url)
    }

    /// [`Self::get_url_at`] at the moment that the system clock shows.
    pub fn get_url(&mut self, force: bool) -> (r: Option<Url>)
        requires
            old(self).wf(),
        ensures
            final(self).wf(),
            exists|now: nat|
                {
                    &&& r.is_some() == (#[trigger] old(self)@.next(force, now)).is_some()
                    &&& r.is_some() ==> r.unwrap()@ == old(self)@.next(force, now).unwrap()
                    &&& final(self)@ == old(self)@.take(force, now)
                },
    {
        let now = clock();
        self.get_url_at(force, now)
    }

    /// Whether no URL waits.
    pub fn is_empty(&self) -> (r: bool)
        ensures
            r == (self@.batches.len() == 0),
    {
        self.pool.len() == 0
    }
}

} // verus!
