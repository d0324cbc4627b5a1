// This Source Code Form is subject to the terms of the Mozilla Public
// License, v. 2.0. If a copy of the MPL was not distributed with this
// file, You can obtain one at https://mozilla.org/MPL/2.0/.

use doonop::engine::Engine;
use doonop::engine_ring::EngineRing;

struct MockBuilder {
    backends: Vec<()>,
    id: usize,
}

impl MockBuilder {
    fn new(backends: Vec<()>) -> Self {
        Self { backends, id: 0 }
    }

    fn build(&mut self) -> Engine<()> {
        if self.backends.is_empty() {
            panic!("Build call wasn't expected");
        }

        let backend = self.backends.remove(0);
        let id = self.id;
        self.id += 1;

        Engine::new(id, backend, &vec![])
    }
}

/// What a caller does to obtain an engine: take an idle one, or build one
/// while the ring has room.
fn obtain(ring: &mut EngineRing<(), MockBuilder>) -> Engine<()> {
    if let Some(engine) = ring.obtain() {
        return engine;
    }
    if ring.count_engines_in_use() >= ring.capacity() {
        panic!("WBRing cap is reached; mustn't never happen as we spawn N engines for N drivers");
    }
    let engine = ring.builder().build();
    ring.enroll(engine)
}

#[test]
fn ring() {
    let n = 3;
    let builder = MockBuilder::new(vec![(); n]);
    let mut ring = EngineRing::new(builder, n);

    for i in 0..n {
        assert!(obtain(&mut ring).id() == i)
    }
}

#[test]
fn ring_reuse_engine() {
    let n = 3;
    let builder = MockBuilder::new(vec![(); n]);
    let mut ring = EngineRing::new(builder, n);

    obtain(&mut ring);
    let engine = obtain(&mut ring);
    let id = engine.id();
    ring.return_back(engine);
    let engine = obtain(&mut ring);
    assert_eq!(id, engine.id());
}

#[test]
#[should_panic(expected = "WBRing cap is reached")]
fn panic_on_exceeding_cap() {
    let n = 3;
    let builder = MockBuilder::new(vec![(); n]);
    let mut ring = EngineRing::new(builder, n);

    for i in 0..n {
        assert!(obtain(&mut ring).id() == i)
    }

    // The ring has no engine to lend, and all that it may hold are out: a
    // failure of these would not be the panic that is expected.
    assert!(ring.obtain().is_none(), "the ring lent an engine beyond its capacity");
    assert_eq!(ring.count_engines_in_use(), ring.capacity());
    assert_eq!(ring.count_idle(), 0);

    // panic here
    obtain(&mut ring);
}

#[test]
fn the_ring_counts_what_is_out() {
    let builder = MockBuilder::new(vec![(); 2]);
    let mut ring = EngineRing::new(builder, 2);
    assert_eq!(ring.capacity(), 2);
    assert_eq!(ring.count_engines_in_use(), 0);
    assert_eq!(ring.count_idle(), 0);
    assert!(ring.obtain().is_none());

    let first = obtain(&mut ring);
    let second = obtain(&mut ring);
    assert_eq!(ring.count_engines_in_use(), 2);
    assert!(ring.is_in_use(0) && ring.is_in_use(1) && !ring.is_in_use(2));
    assert!(ring.obtain().is_none());

    ring.return_back(first);
    assert_eq!(ring.count_engines_in_use(), 1);
    assert_eq!(ring.count_idle(), 1);
    assert!(!ring.is_in_use(0) && ring.is_in_use(1));

    ring.return_back(second);
    assert_eq!(ring.count_engines_in_use(), 0);
    // The engine that came back last goes out first.
    assert_eq!(ring.obtain().unwrap().id(), 1);
    assert_eq!(ring.obtain().unwrap().id(), 0);
    assert_eq!(ring.count_engines_in_use(), 2);
}

#[test]
fn the_ring_numbers_its_engines_itself() {
    // A builder that numbers every engine 7.
    let mut ring: EngineRing<(), ()> = EngineRing::new((), 3);
    let a = ring.enroll(Engine::new(7, (), &vec![]));
    let b = ring.enroll(Engine::new(7, (), &vec![]));
    assert_eq!((a.id(), b.id()), (0, 1));
    ring.return_back(a);
    let c = ring.enroll(Engine::new(7, (), &vec![]));
    assert_eq!(c.id(), 2);
    assert_eq!(ring.count_engines_in_use(), 2);
    assert_eq!(ring.count_idle(), 1);
}
