// This Source Code Form is subject to the terms of the Mozilla Public
// License, v. 2.0. If a copy of the MPL was not distributed with this
// file, You can obtain one at https://mozilla.org/MPL/2.0/.

//! The set of the URLs that a crawl has seen.
//!
//! The URLs are kept in buckets by a hash of their text, so that asking for a
//! URL looks at the few URLs of one bucket.

use crate::address::{url_texts, Url};
use crate::text::lemma_push_contains;
use std::collections::HashMap;
use vstd::prelude::*;
use vstd::string::StringSliceAdditionalSpecFns;
use vstd::utf8::encode_utf8;

verus! {

/// The hash of the bytes `bytes`.
pub open spec fn bytes_hash(bytes: Seq<u8>) -> u64
    decreases bytes.len(),
{
    if bytes.len() == 0 {
        5381
    } else {
        ((bytes_hash(bytes.drop_last()) * 33 + bytes.last()) % 0x1_0000_0000_0000_0000) as u64
    }
}

/// The hash of the text `text`: that of its bytes in UTF-8.
pub open spec fn text_hash(text: Seq<char>) -> u64 {
    bytes_hash(encode_utf8(text))
}

/// The hash of the text of `url`.
fn hash_of(url: &Url) -> (h: u64)
    ensures
        h == text_hash(url@),
{
    let bytes = url.as_str().as_bytes();
    let mut h: u64 = 5381;
    let mut i: usize = 0;
    assert(bytes@.take(0) =~= Seq::<u8>::empty());
    while i < bytes.len()
        invariant
            i <= bytes.len(),
            h == bytes_hash(bytes@.take(i as int)),
        decreases bytes.len() - i,
    {
        assert(bytes@.take(i + 1).drop_last() =~= bytes@.take(i as int));
        let wide: u128 = (h as u128 * 33 + bytes[i] as u128) % 0x1_0000_0000_0000_0000;
        h = wide as u64;
        i += 1;
    }
    assert(bytes@.take(bytes.len() as int) =~= bytes@);
    h
}

/// Whether the buckets `buckets` hold the text `u`.
pub open spec fn holds(buckets: Map<u64, Vec<Url>>, u: Seq<char>) -> bool {
    buckets.dom().contains(text_hash(u)) && url_texts(buckets[text_hash(u)]@).contains(u)
}

/// A set of URLs.
pub struct SeenSet {
    buckets: HashMap<u64, Vec<Url>>,
}

impl View for SeenSet {
    type V = Set<Seq<char>>;

    closed spec fn view(&self) -> Set<Seq<char>> {
        Set::new(|u: Seq<char>| holds(self.buckets@, u))
    }
}

impl SeenSet {
    /// The empty set.
    pub fn new() -> (r: Self)
        ensures
            r@ == Set::<Seq<char>>::empty(),
    {
        let r = SeenSet { buckets: HashMap::new() };
        assert(r@ =~= Set::<Seq<char>>::empty());
        r
    }

    /// Whether `url` is in the set.
    pub fn contains(&self, url: &Url) -> (r: bool)
        ensures
            r == self@.contains(url@),
    {
        let h = hash_of(url);
        match self.buckets.get(&h) {
            Some(bucket) => {
                let mut i: usize = 0;
                while i < bucket.len()
                    invariant
                        i <= bucket.len(),
                        h == text_hash(url@),
                        self.buckets@.dom().contains(h),
                        *bucket == self.buckets@[h],
                        forall|k: int| 0 <= k < i ==> url_texts(bucket@)[k] != url@,
                    decreases bucket.len() - i,
                {
                    if bucket[i] == *url {
                        assert(url_texts(bucket@)[i as int] == url@);
                        return true;
                    }
                    i += 1;
                }
                false
            },
            None => false,
        }
    }

    /// Puts `url` into the set.
    pub fn insert(&mut self, url: Url)
        ensures
            final(self)@ == old(self)@.insert(url@),
    {
        let h = hash_of(&url);
        let ghost before = self.buckets@;
        let mut bucket = match self.buckets.remove(&h) {
            Some(bucket) => bucket,
            None => Vec::new(),
        };
        let ghost had = url_texts(bucket@);
        bucket.push(url);
        proof {
            assert(url_texts(bucket@) =~= had.push(url@));
            lemma_push_contains(had, url@);
            if !before.dom().contains(h) {
                assert(had =~= Seq::<Seq<char>>::empty());
            }
        }
        let ghost filled = url_texts(bucket@);
        self.buckets.insert(h, bucket);
        proof {
            assert forall|w: Seq<char>| holds(self.buckets@, w) <==> holds(before, w) || w
                == url@ by {
                if text_hash(w) == h {
                    assert(url_texts(self.buckets@[h]@) == filled);
                    assert(filled.contains(w) <==> had.contains(w) || w == url@);
                }
            }
            assert(self@ =~= old(self)@.insert(url@));
        }
    }
}

} // verus!
