// This Source Code Form is subject to the terms of the Mozilla Public
// License, v. 2.0. If a copy of the MPL was not distributed with this
// file, You can obtain one at https://mozilla.org/MPL/2.0/.

//! The bounded pool of engines.
//!
//! The ring grows lazily: it holds the builder of its engines and takes in a new
//! engine only while fewer engines than its capacity exist.  An engine is
//! either idle in the ring or lent out, never both, and the engines of a ring
//! bear the slot numbers `0`, `1`, ... in the order in which they came.

use crate::engine::{Engine, EngineId};
use vstd::prelude::*;

verus! {

/// An engine ring as a mathematical value.
pub struct RingView<B> {
    /// The number of engines that the ring may hold at most.
    pub cap: nat,
    /// The idle engines; the last one is lent out first.
    pub idle: Seq<Engine<B>>,
    /// The slots of the engines that are lent out.
    pub in_use: Set<EngineId>,
}

impl<B> RingView<B> {
    /// The number of engines that exist.
    pub open spec fn built(self) -> nat {
        self.idle.len() + self.in_use.len()
    }

    /// Whether an idle engine has the slot `id`.
    pub open spec fn is_idle(self, id: EngineId) -> bool {
        exists|i: int| 0 <= i < self.idle.len() && (#[trigger] self.idle[i]).slot() == id
    }

    /// The ring after its last idle engine went out.
    pub open spec fn out(self) -> Self {
        RingView {
            idle: self.idle.drop_last(),
            in_use: self.in_use.insert(self.idle.last().slot()),
            ..self
        }
    }

    /// The ring after `engine`, which was out, came back.
    pub open spec fn back(self, engine: Engine<B>) -> Self {
        RingView {
            idle: self.idle.push(engine),
            in_use: self.in_use.remove(engine.slot()),
            ..self
        }
    }

    /// The ring after the new engine `engine` became idle in it.
    pub open spec fn grown(self, engine: Engine<B>) -> Self {
        RingView { idle: self.idle.push(engine), ..self }
    }

    /// The ring after a new engine with the slot `id` went out at once.
    pub open spec fn taken_in(self, id: EngineId) -> Self {
        RingView { in_use: self.in_use.insert(id), ..self }
    }

    /// The invariant of a ring: no more engines exist than the capacity
    /// allows, their slots are `0` up to their number, and no slot is held
    /// twice, be it by two idle engines or by an idle one and one lent out.
    pub open spec fn wf(self) -> bool {
        &&& self.in_use.finite()
        &&& self.built() <= self.cap
        &&& forall|i: int, j: int|
            0 <= i < j < self.idle.len() ==> (#[trigger] self.idle[i]).slot() != (
            #[trigger] self.idle[j]).slot()
        &&& forall|i: int|
            0 <= i < self.idle.len() ==> !self.in_use.contains((#[trigger] self.idle[i]).slot())
        &&& forall|id: EngineId|
            id < self.built() <==> (#[trigger] self.in_use.contains(id)) || self.is_idle(id)
    }
}

/// What is idle in `after`, whose idle engines are those of `ring` and then
/// `engine`: the slots that were idle and that of `engine`, each once.
proof fn lemma_idle_pushed<B>(ring: RingView<B>, after: RingView<B>, engine: Engine<B>)
    requires
        ring.wf(),
        after.idle == ring.idle.push(engine),
        !ring.is_idle(engine.slot()),
    ensures
        forall|x: EngineId| after.is_idle(x) <==> ring.is_idle(x) || x == engine.slot(),
        forall|a: int, b: int|
            0 <= a < b < after.idle.len() ==> (#[trigger] after.idle[a]).slot() != (
            #[trigger] after.idle[b]).slot(),
        forall|a: int|
            0 <= a < after.idle.len() ==> (#[trigger] after.idle[a]).slot() == engine.slot()
                || ring.is_idle(after.idle[a].slot()),
{
    let id = engine.slot();
    assert forall|x: EngineId| after.is_idle(x) <==> ring.is_idle(x) || x == id by {
        if ring.is_idle(x) {
            let k = choose|k: int| 0 <= k < ring.idle.len() && (#[trigger] ring.idle[k]).slot() == x;
            assert(after.idle[k].slot() == x);
        }
        if after.is_idle(x) && x != id {
            let k = choose|k: int|
                0 <= k < after.idle.len() && (#[trigger] after.idle[k]).slot() == x;
            assert(ring.idle[k].slot() == x);
        }
        if x == id {
            assert(after.idle[ring.idle.len() as int].slot() == id);
        }
    }
    assert forall|a: int, b: int| 0 <= a < b < after.idle.len() implies (
    #[trigger] after.idle[a]).slot() != (#[trigger] after.idle[b]).slot() by {
        assert(after.idle[a] == ring.idle[a]);
        if b < ring.idle.len() {
            assert(after.idle[b] == ring.idle[b]);
        }
    }
    assert forall|a: int| 0 <= a < after.idle.len() implies (#[trigger] after.idle[a]).slot()
        == id || ring.is_idle(after.idle[a].slot()) by {
        if a < ring.idle.len() {
            assert(after.idle[a] == ring.idle[a]);
        }
    }
}

/// A ring stays well-formed when an engine that is out comes back.
pub proof fn lemma_ring_back<B>(ring: RingView<B>, engine: Engine<B>)
    requires
        ring.wf(),
        ring.in_use.contains(engine.slot()),
    ensures
        ring.back(engine).wf(),
{
    let after = ring.back(engine);
    lemma_idle_pushed(ring, after, engine);
    assert forall|a: int| 0 <= a < after.idle.len() implies !after.in_use.contains(
        (#[trigger] after.idle[a]).slot(),
    ) by {
        if a < ring.idle.len() {
            assert(after.idle[a] == ring.idle[a]);
        }
    }
}

/// A ring stays well-formed when its last idle engine goes out.
pub proof fn lemma_ring_out<B>(ring: RingView<B>)
    requires
        ring.wf(),
        ring.idle.len() > 0,
    ensures
        ring.out().wf(),
{
    let id = ring.idle.last().slot();
    let after = ring.out();
    assert(ring.idle[ring.idle.len() - 1].slot() == id);
    assert forall|a: int| 0 <= a < after.idle.len() implies !after.in_use.contains(
        (#[trigger] after.idle[a]).slot(),
    ) by {
        assert(after.idle[a] == ring.idle[a]);
    }
    assert forall|x: usize|
        x < after.built() <==> (#[trigger] after.in_use.contains(x)) || after.is_idle(x) by {
        if ring.is_idle(x) && x != id {
            let k = choose|k: int| 0 <= k < ring.idle.len() && (#[trigger] ring.idle[k]).slot() == x;
            assert(after.idle[k].slot() == x);
        }
        if after.is_idle(x) {
            let k = choose|k: int|
                0 <= k < after.idle.len() && (#[trigger] after.idle[k]).slot() == x;
            assert(ring.idle[k].slot() == x);
        }
        if x == id {
            assert(ring.is_idle(id));
        }
    }
}

/// A ring stays well-formed when a new engine with the next slot becomes idle.
pub proof fn lemma_ring_grows<B>(ring: RingView<B>, engine: Engine<B>)
    requires
        ring.wf(),
        ring.built() < ring.cap,
        engine.slot() == ring.built(),
    ensures
        ring.grown(engine).wf(),
{
    let after = ring.grown(engine);
    assert(!ring.in_use.contains(engine.slot()));
    lemma_idle_pushed(ring, after, engine);
    assert forall|a: int| 0 <= a < after.idle.len() implies !after.in_use.contains(
        (#[trigger] after.idle[a]).slot(),
    ) by {
        if a < ring.idle.len() {
            assert(after.idle[a] == ring.idle[a]);
        }
    }
}

/// A ring stays well-formed when a new engine with the next slot goes out at
/// once.
pub proof fn lemma_ring_takes_in<B>(ring: RingView<B>, id: EngineId)
    requires
        ring.wf(),
        ring.built() < ring.cap,
        id == ring.built(),
    ensures
        ring.taken_in(id).wf(),
        !ring.in_use.contains(id),
{
    let after = ring.taken_in(id);
    assert(!ring.in_use.contains(id));
    assert(!ring.is_idle(id));
    assert forall|x: EngineId|
        x < after.built() <==> (#[trigger] after.in_use.contains(x)) || after.is_idle(x) by {
        assert(after.idle == ring.idle);
        assert(after.is_idle(x) == ring.is_idle(x));
    }
}

/// Slots without duplicates stay so when a new one is added, and are then
/// the set of before with the new one.
proof fn lemma_slot_added(ids: Seq<EngineId>, id: EngineId)
    requires
        ids.no_duplicates(),
        !ids.to_set().contains(id),
    ensures
        ids.push(id).no_duplicates(),
        ids.push(id).to_set() == ids.to_set().insert(id),
{
    let now = ids.push(id);
    assert forall|i: int, j: int| 0 <= i < now.len() && 0 <= j < now.len() && i != j implies now[i]
        != now[j] by {
        if i < ids.len() {
            assert(ids.contains(ids[i]));
        }
        if j < ids.len() {
            assert(ids.contains(ids[j]));
        }
    }
    assert forall|x: EngineId| now.to_set().contains(x) == ids.to_set().insert(id).contains(
        x,
    ) by {
        if now.contains(x) {
            let k = choose|k: int| 0 <= k < now.len() && now[k] == x;
            if k < ids.len() {
                assert(ids[k] == x);
            }
        }
        if ids.contains(x) {
            let k = choose|k: int| 0 <= k < ids.len() && ids[k] == x;
            assert(now[k] == x);
        }
        if x == id {
            assert(now[ids.len() as int] == x);
        }
    }
    assert(now.to_set() =~= ids.to_set().insert(id));
}

/// Slots without duplicates stay so when one is taken away, and are then the
/// set of before without it.
proof fn lemma_slot_removed(ids: Seq<EngineId>, at: int)
    requires
        ids.no_duplicates(),
        0 <= at < ids.len(),
    ensures
        ids.remove(at).no_duplicates(),
        ids.remove(at).to_set() == ids.to_set().remove(ids[at]),
{
    let now = ids.remove(at);
    let id = ids[at];
    assert forall|a: int, b: int| 0 <= a < now.len() && 0 <= b < now.len() && a != b implies now[a]
        != now[b] by {
        let a0 = if a < at { a } else { a + 1 };
        let b0 = if b < at { b } else { b + 1 };
        assert(now[a] == ids[a0]);
        assert(now[b] == ids[b0]);
    }
    assert forall|x: EngineId| now.to_set().contains(x) == ids.to_set().remove(id).contains(
        x,
    ) by {
        if now.contains(x) {
            let k = choose|k: int| 0 <= k < now.len() && now[k] == x;
            if k < at {
                assert(ids[k] == x);
            } else {
                assert(ids[k + 1] == x);
            }
        }
        if ids.contains(x) && x != id {
            let k = choose|k: int| 0 <= k < ids.len() && ids[k] == x;
            if k < at {
                assert(now[k] == x);
            } else {
                assert(now[k - 1] == x);
            }
        }
    }
    assert(now.to_set() =~= ids.to_set().remove(id));
}

/// The bounded pool of engines, with the builder that makes them.
#[derive(Debug)]
pub struct EngineRing<B, EB> {
    free_list: Vec<Engine<B>>,
    usage_list: Vec<EngineId>,
    cap: usize,
    builder: EB,
}

impl<B, EB> View for EngineRing<B, EB> {
    type V = RingView<B>;

    closed spec fn view(&self) -> RingView<B> {
        RingView { cap: self.cap as nat, idle: self.free_list@, in_use: self.usage_list@.to_set() }
    }
}

impl<B, EB> EngineRing<B, EB> {
    /// The invariant of a ring.
    pub closed spec fn wf(&self) -> bool {
        &&& self@.wf()
        &&& self.usage_list@.no_duplicates()
    }

    /// What the invariant says of the ring as a mathematical value.
    pub proof fn lemma_wf(&self)
        requires
            self.wf(),
        ensures
            self@.wf(),
    {
    }

    /// The builder of the ring's engines, as a mathematical value.
    pub closed spec fn maker(&self) -> EB {
        self.builder
    }

    /// A ring without engines that may hold `cap` of them.
    pub fn new(builder: EB, cap: usize) -> (r: Self)
        ensures
            r.wf(),
            r@.cap == cap,
            r@.idle == Seq::<Engine<B>>::empty(),
            r@.in_use == Set::<EngineId>::empty(),
            r.maker() == builder,
    {
        let r = EngineRing { cap, builder, free_list: Vec::new(), usage_list: Vec::new() };
        assert(r@.in_use =~= Set::<EngineId>::empty());
        r
    }

    /// Lends out the idle engine that came back last, if an engine is idle.
    pub fn obtain(&mut self) -> (r: Option<Engine<B>>)
        requires
            old(self).wf(),
        ensures
            final(self).wf(),
            final(self).maker() == old(self).maker(),
            match r {
                Some(engine) => {
                    &&& old(self)@.idle.len() > 0
                    &&& engine == old(self)@.idle.last()
                    &&& final(self)@ == old(self)@.out()
                },
                None => old(self)@.idle.len() == 0 && final(self)@ == old(self)@,
            },
    {
        match self.free_list.pop() {
            Some(engine) => {
                proof {
                    lemma_ring_out(old(self)@);
                    assert(old(self)@.idle[old(self)@.idle.len() - 1] == engine);
                    lemma_slot_added(self.usage_list@, engine.slot());
                }
                self.usage_list.push(engine.id());
                assert(self@.idle =~= old(self)@.idle.drop_last());
                Some(engine)
            },
            None => None,
        }
    }

    /// Takes in an engine that the builder has just made: gives it the next free
    /// slot and lends it out at once.  The ring must have room for it.
    pub fn enroll(&mut self, engine: Engine<B>) -> (r: Engine<B>)
        requires
            old(self).wf(),
            old(self)@.built() < old(self)@.cap,
        ensures
            final(self).wf(),
            final(self).maker() == old(self).maker(),
            final(self)@ == old(self)@.taken_in(r.slot()),
            r.slot() == old(self)@.built(),
            r.session() == engine.session(),
            r.rules() == engine.rules(),
    {
        proof {
            self.usage_list@.unique_seq_to_set();
        }
        let id = self.free_list.len() + self.usage_list.len();
        let engine = engine.with_id(id);
        proof {
            lemma_ring_takes_in(self@, id);
            lemma_slot_added(self.usage_list@, id);
        }
        self.usage_list.push(id);
        engine
    }

    /// Takes back an engine that was lent out and makes it idle.
    pub fn return_back(&mut self, engine: Engine<B>)
        requires
            old(self).wf(),
            old(self)@.in_use.contains(engine.slot()),
        ensures
            final(self).wf(),
            final(self).maker() == old(self).maker(),
            final(self)@ == old(self)@.back(engine),
    {
        let id = engine.id();
        let mut i: usize = 0;
        while self.usage_list[i] != id
            invariant
                self.usage_list@ == old(self).usage_list@,
                self.usage_list@.contains(id),
                i < self.usage_list.len(),
                forall|k: int| 0 <= k < i ==> self.usage_list@[k] != id,
            decreases self.usage_list.len() - i,
        {
            proof {
                let k = choose|k: int|
                    0 <= k < self.usage_list@.len() && self.usage_list@[k] == id;
                assert(k > i);
            }
            i += 1;
        }
        proof {
            lemma_ring_back(old(self)@, engine);
            lemma_slot_removed(self.usage_list@, i as int);
        }
        self.usage_list.remove(i);
        self.free_list.push(engine);
    }

    /// Whether the engine of the slot `id` is lent out.
    pub fn is_in_use(&self, id: EngineId) -> (r: bool)
        ensures
            r == self@.in_use.contains(id),
    {
        let mut i: usize = 0;
        while i < self.usage_list.len()
            invariant
                i <= self.usage_list.len(),
                forall|k: int| 0 <= k < i ==> self.usage_list@[k] != id,
            decreases self.usage_list.len() - i,
        {
            if self.usage_list[i] == id {
                return true;
            }
            i += 1;
        }
        false
    }

    /// The number of engines that are lent out.
    pub fn count_engines_in_use(&self) -> (r: usize)
        requires
            self.wf(),
        ensures
            r == self@.in_use.len(),
    {
        proof {
            self.usage_list@.unique_seq_to_set();
        }
        self.usage_list.len()
    }

    /// The number of idle engines.
    pub fn count_idle(&self) -> (r: usize)
        ensures
            r == self@.idle.len(),
    {
        self.free_list.len()
    }

    /// The number of engines that the ring may hold at most.
    pub fn capacity(&self) -> (r: usize)
        ensures
            r == self@.cap,
    {
        self.cap
    }

    /// The builder, to make the next engine with.
    pub fn builder(&mut self) -> (r: &mut EB)
        ensures
            *r == old(self).maker(),
            final(self).maker() == *final(r),
            final(self)@ == old(self)@,
            old(self).wf() ==> final(self).wf(),
    {
        &mut self.builder
    }
}

} // verus!
