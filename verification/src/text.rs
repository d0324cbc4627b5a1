// This Source Code Form is subject to the terms of the Mozilla Public
// License, v. 2.0. If a copy of the MPL was not distributed with this
// file, You can obtain one at https://mozilla.org/MPL/2.0/.

//! Small verified helpers on text.

use vstd::prelude::*;
use vstd::std_specs::iter::IteratorSpec;

verus! {

/// The characters of `s`, in order.
pub fn chars_of(s: &str) -> (v: Vec<char>)
    ensures
        v@ == s@,
{
    let mut v: Vec<char> = Vec::new();
    let mut it = s.chars();
    loop
        invariant
            v@ + it.remaining() == s@,
            it.decrease() is Some,
        ensures
            v@ == s@,
        decreases it.decrease().unwrap(),
    {
        match it.next() {
            Some(c) => {
                v.push(c);
            },
            None => {
                assert(v@ + it.remaining() =~= v@);
                break ;
            },
        }
    }
    v
}

/// Whether the two texts are the same.
pub fn same_text(a: &str, b: &str) -> (r: bool)
    ensures
        r == (a@ == b@),
{
    let x = chars_of(a);
    let y = chars_of(b);
    assert(x@.skip(0) =~= x@ && y@.skip(0) =~= y@);
    same_tail(&x, 0, &y, 0)
}

/// Whether `a` from position `i` on reads as `b` from position `j` on.
pub fn same_tail(a: &Vec<char>, i: usize, b: &Vec<char>, j: usize) -> (r: bool)
    requires
        i <= a.len(),
        j <= b.len(),
    ensures
        r == (a@.skip(i as int) == b@.skip(j as int)),
{
    if a.len() - i != b.len() - j {
        assert(a@.skip(i as int).len() != b@.skip(j as int).len());
        return false;
    }
    let n = a.len() - i;
    let mut k: usize = 0;
    while k < n
        invariant
            i <= a.len(),
            j <= b.len(),
            n == a.len() - i,
            n == b.len() - j,
            k <= n,
            forall|m: int| 0 <= m < k ==> a@.skip(i as int)[m] == b@.skip(j as int)[m],
        decreases n - k,
    {
        if a[i + k] != b[j + k] {
            assert(a@.skip(i as int)[k as int] != b@.skip(j as int)[k as int]);
            return false;
        }
        k += 1;
    }
    assert(a@.skip(i as int) =~= b@.skip(j as int));
    true
}

/// Whether `s` reads `p` at position `at`.
pub open spec fn reads_at(s: Seq<char>, at: int, p: Seq<char>) -> bool {
    &&& 0 <= at
    &&& at + p.len() <= s.len()
    &&& s.subrange(at, at + p.len()) == p
}

/// Whether `v` reads `p` at position `at`.
pub fn has_at(v: &Vec<char>, at: usize, p: &Vec<char>) -> (r: bool)
    requires
        at <= v.len(),
    ensures
        r == reads_at(v@, at as int, p@),
{
    if v.len() - at < p.len() {
        return false;
    }
    let mut k: usize = 0;
    while k < p.len()
        invariant
            at + p.len() <= v.len(),
            k <= p.len(),
            forall|m: int| 0 <= m < k ==> v@.subrange(at as int, at + p.len())[m] == p@[m],
        decreases p.len() - k,
    {
        if v[at + k] != p[k] {
            assert(v@.subrange(at as int, at + p.len())[k as int] != p@[k as int]);
            return false;
        }
        k += 1;
    }
    assert(v@.subrange(at as int, at + p.len()) =~= p@);
    true
}

/// What a sequence of texts holds once a text is pushed onto it.
pub proof fn lemma_push_contains(s: Seq<Seq<char>>, x: Seq<char>)
    ensures
        forall|w: Seq<char>| #[trigger] s.push(x).contains(w) <==> s.contains(w) || w == x,
{
    lemma_insert_contains(s, s.len() as int, x);
    assert(s.insert(s.len() as int, x) =~= s.push(x));
}

/// What a sequence of texts holds once a text is put into it.
pub proof fn lemma_insert_contains(s: Seq<Seq<char>>, at: int, x: Seq<char>)
    requires
        0 <= at <= s.len(),
    ensures
        forall|w: Seq<char>| #[trigger] s.insert(at, x).contains(w) <==> s.contains(w) || w == x,
{
    let t = s.insert(at, x);
    assert forall|w: Seq<char>| #[trigger] t.contains(w) <==> s.contains(w) || w == x by {
        if t.contains(w) {
            let k = choose|k: int| 0 <= k < t.len() && t[k] == w;
            if k < at {
                assert(s[k] == w);
            } else if k > at {
                assert(s[k - 1] == w);
            }
        }
        if s.contains(w) {
            let k = choose|k: int| 0 <= k < s.len() && s[k] == w;
            if k < at {
                assert(t[k] == w);
            } else {
                assert(t[k + 1] == w);
            }
        }
        if w == x {
            assert(t[at] == w);
        }
    }
}

/// The number of characters of `s` before the first `c`; the length of `s`
/// where `c` does not occur.
pub open spec fn lead(s: Seq<char>, c: char) -> int
    decreases s.len(),
{
    if s.len() == 0 || s[0] == c {
        0
    } else {
        1 + lead(s.skip(1), c)
    }
}

/// The position that splits off characters other than `c` is the lead.
pub proof fn lemma_lead_is(s: Seq<char>, c: char, n: int)
    requires
        0 <= n <= s.len(),
        forall|k: int| 0 <= k < n ==> s[k] != c,
        n < s.len() ==> s[n] == c,
    ensures
        lead(s, c) == n,
    decreases s.len(),
{
    if s.len() > 0 && s[0] != c {
        assert forall|k: int| 0 <= k < n - 1 implies s.skip(1)[k] != c by {
            assert(s.skip(1)[k] == s[k + 1]);
        }
        lemma_lead_is(s.skip(1), c, n - 1);
    }
}

/// The pieces of `s` between the occurrences of `sep`, where an empty piece
/// after the last `sep` does not count.
pub open spec fn split_terminator(s: Seq<char>, sep: char) -> Seq<Seq<char>>
    decreases s.len(),
{
    if s.len() == 0 {
        Seq::empty()
    } else {
        let n = lead(s, sep);
        if 0 <= n < s.len() {
            seq![s.take(n)] + split_terminator(s.skip(n + 1), sep)
        } else {
            seq![s]
        }
    }
}

/// `s` split at its first `sep`, if it has one.
pub open spec fn split_once(s: Seq<char>, sep: char) -> Option<(Seq<char>, Seq<char>)> {
    let n = lead(s, sep);
    if 0 <= n < s.len() {
        Some((s.take(n), s.skip(n + 1)))
    } else {
        None
    }
}

/// The position of the first `c` in `v` from `from` on and before `to`; `to`
/// where there is none.
pub fn find(v: &Vec<char>, from: usize, to: usize, c: char) -> (r: usize)
    requires
        from <= to <= v.len(),
    ensures
        from <= r <= to,
        r - from == lead(v@.subrange(from as int, to as int), c),
{
    let mut i: usize = from;
    while i < to && v[i] != c
        invariant
            from <= i <= to,
            to <= v.len(),
            forall|k: int| from <= k < i ==> v@[k] != c,
        decreases to - i,
    {
        i += 1;
    }
    proof {
        let part = v@.subrange(from as int, to as int);
        lemma_lead_is(part, c, i - from);
    }
    i
}

/// The parts of `s` that `ranges` mark.
pub open spec fn pieces(s: Seq<char>, ranges: Seq<(usize, usize)>) -> Seq<Seq<char>> {
    Seq::new(ranges.len(), |i: int| s.subrange(ranges[i].0 as int, ranges[i].1 as int))
}

/// Whether every range of `ranges` lies in a text of the length `len`.
pub open spec fn in_bounds(ranges: Seq<(usize, usize)>, len: int) -> bool {
    forall|i: int| 0 <= i < ranges.len() ==> (#[trigger] ranges[i]).0 <= ranges[i].1 <= len
}

/// The ranges of the pieces of `v` from `from` to `to`, split at `sep`; see
/// [`split_terminator`].
pub fn split_ranges(v: &Vec<char>, from: usize, to: usize, sep: char) -> (r: Vec<(usize, usize)>)
    requires
        from <= to <= v.len(),
    ensures
        in_bounds(r@, to as int),
        forall|i: int| 0 <= i < r.len() ==> from <= (#[trigger] r@[i]).0,
        pieces(v@, r@) == split_terminator(v@.subrange(from as int, to as int), sep),
{
    let mut r: Vec<(usize, usize)> = Vec::new();
    let mut pos: usize = from;
    let ghost all = v@.subrange(from as int, to as int);
    assert(pieces(v@, r@) =~= Seq::<Seq<char>>::empty());
    assert(v@.subrange(pos as int, to as int) =~= all);
    while pos < to
        invariant
            from <= pos <= to,
            to <= v.len(),
            all == v@.subrange(from as int, to as int),
            in_bounds(r@, to as int),
            forall|i: int| 0 <= i < r.len() ==> from <= (#[trigger] r@[i]).0,
            split_terminator(all, sep) == pieces(v@, r@) + split_terminator(
                v@.subrange(pos as int, to as int),
                sep,
            ),
        decreases to - pos,
    {
        let end = find(v, pos, to, sep);
        let ghost rest = v@.subrange(pos as int, to as int);
        let ghost before = pieces(v@, r@);
        r.push((pos, end));
        proof {
            assert(pieces(v@, r@) =~= before.push(v@.subrange(pos as int, end as int)));
            if end < to {
                assert(rest.take(end - pos) =~= v@.subrange(pos as int, end as int));
                assert(rest.skip(end - pos + 1) =~= v@.subrange(end + 1, to as int));
                assert(before + (seq![rest.take(end - pos)] + split_terminator(
                    rest.skip(end - pos + 1),
                    sep,
                )) =~= before.push(v@.subrange(pos as int, end as int)) + split_terminator(
                    v@.subrange(end + 1, to as int),
                    sep,
                ));
            } else {
                assert(rest =~= v@.subrange(pos as int, end as int));
                assert(v@.subrange(to as int, to as int) =~= Seq::<char>::empty());
                assert(before + seq![rest] =~= before.push(rest) + Seq::<Seq<char>>::empty());
            }
        }
        if end < to {
            pos = end + 1;
        } else {
            pos = to;
        }
    }
    proof {
        assert(v@.subrange(pos as int, to as int) =~= Seq::<char>::empty());
        assert(pieces(v@, r@) + Seq::<Seq<char>>::empty() =~= pieces(v@, r@));
    }
    r
}

/// `s` without a carriage return at its end.
pub open spec fn strip_cr(s: Seq<char>) -> Seq<char> {
    if s.len() > 0 && s.last() == '\r' {
        s.drop_last()
    } else {
        s
    }
}

/// The lines of `s`: the pieces that end at a line feed, each without the
/// line feed and without a carriage return before it, and what follows the
/// last line feed, if anything does.
pub open spec fn lines(s: Seq<char>) -> Seq<Seq<char>>
    decreases s.len(),
{
    if s.len() == 0 {
        Seq::empty()
    } else {
        let n = lead(s, '\n');
        if 0 <= n < s.len() {
            seq![strip_cr(s.take(n))] + lines(s.skip(n + 1))
        } else {
            seq![s]
        }
    }
}

/// The ranges of the lines of `v`; see [`lines`].
pub fn line_ranges(v: &Vec<char>) -> (r: Vec<(usize, usize)>)
    ensures
        in_bounds(r@, v.len() as int),
        pieces(v@, r@) == lines(v@),
{
    let mut r: Vec<(usize, usize)> = Vec::new();
    let mut pos: usize = 0;
    let to = v.len();
    assert(pieces(v@, r@) =~= Seq::<Seq<char>>::empty());
    assert(v@.subrange(0, to as int) =~= v@);
    while pos < to
        invariant
            pos <= to,
            to == v.len(),
            in_bounds(r@, to as int),
            lines(v@) == pieces(v@, r@) + lines(v@.subrange(pos as int, to as int)),
        decreases to - pos,
    {
        let end = find(v, pos, to, '\n');
        let ghost rest = v@.subrange(pos as int, to as int);
        let ghost before = pieces(v@, r@);
        if end < to {
            let stop = if end > pos && v[end - 1] == '\r' {
                end - 1
            } else {
                end
            };
            r.push((pos, stop));
            proof {
                let line = rest.take(end - pos);
                assert(line =~= v@.subrange(pos as int, end as int));
                assert(strip_cr(line) =~= v@.subrange(pos as int, stop as int));
                assert(rest.skip(end - pos + 1) =~= v@.subrange(end + 1, to as int));
                assert(pieces(v@, r@) =~= before.push(v@.subrange(pos as int, stop as int)));
                assert(before + (seq![strip_cr(line)] + lines(rest.skip(end - pos + 1)))
                    =~= before.push(v@.subrange(pos as int, stop as int)) + lines(
                    v@.subrange(end + 1, to as int),
                ));
            }
            pos = end + 1;
        } else {
            r.push((pos, end));
            proof {
                assert(rest =~= v@.subrange(pos as int, end as int));
                assert(pieces(v@, r@) =~= before.push(rest));
                assert(v@.subrange(to as int, to as int) =~= Seq::<char>::empty());
                assert(before + seq![rest] =~= before.push(rest) + Seq::<Seq<char>>::empty());
            }
            pos = to;
        }
    }
    proof {
        assert(v@.subrange(pos as int, to as int) =~= Seq::<char>::empty());
        assert(pieces(v@, r@) + Seq::<Seq<char>>::empty() =~= pieces(v@, r@));
    }
    r
}

/// Whether `a` comes before `b` in the order of dictionaries, where
/// characters go by their code.
pub open spec fn precedes(a: Seq<char>, b: Seq<char>) -> bool
    decreases a.len(),
{
    if b.len() == 0 {
        false
    } else if a.len() == 0 {
        true
    } else if a[0] != b[0] {
        a[0] < b[0]
    } else {
        precedes(a.skip(1), b.skip(1))
    }
}

/// Of two different texts, exactly one comes before the other.
pub proof fn lemma_precedes_total(a: Seq<char>, b: Seq<char>)
    ensures
        a == b || precedes(a, b) || precedes(b, a),
        !(precedes(a, b) && precedes(b, a)),
        a == b ==> !precedes(a, b),
    decreases a.len(),
{
    if a.len() > 0 && b.len() > 0 && a[0] == b[0] {
        lemma_precedes_total(a.skip(1), b.skip(1));
        if a.skip(1) == b.skip(1) {
            assert(a =~= seq![a[0]] + a.skip(1));
            assert(b =~= seq![b[0]] + b.skip(1));
        }
    } else if a.len() == 0 && b.len() == 0 {
        assert(a =~= b);
    }
}

/// What comes before a text comes before all that the text comes before.
pub proof fn lemma_precedes_trans(a: Seq<char>, b: Seq<char>, c: Seq<char>)
    requires
        precedes(a, b),
        precedes(b, c),
    ensures
        precedes(a, c),
    decreases a.len(),
{
    if a.len() > 0 && a[0] == b[0] && b[0] == c[0] {
        lemma_precedes_trans(a.skip(1), b.skip(1), c.skip(1));
    }
}

/// Whether `a` comes before `b` in the order of dictionaries.
pub fn comes_before(a: &Vec<char>, b: &Vec<char>) -> (r: bool)
    ensures
        r == precedes(a@, b@),
{
    let mut i: usize = 0;
    assert(a@.skip(0) =~= a@ && b@.skip(0) =~= b@);
    while i < a.len() && i < b.len() && a[i] == b[i]
        invariant
            i <= a.len(),
            i <= b.len(),
            precedes(a@, b@) == precedes(a@.skip(i as int), b@.skip(i as int)),
        decreases a.len() - i,
    {
        assert(a@.skip(i as int).skip(1) =~= a@.skip(i + 1));
        assert(b@.skip(i as int).skip(1) =~= b@.skip(i + 1));
        i += 1;
    }
    if i == b.len() {
        false
    } else if i == a.len() {
        true
    } else {
        a[i] < b[i]
    }
}

/// Whether `v` from `from` to `to` reads as `word`.
pub fn range_is(v: &Vec<char>, from: usize, to: usize, word: &str) -> (r: bool)
    requires
        from <= to <= v.len(),
    ensures
        r == (v@.subrange(from as int, to as int) == word@),
{
    let w = chars_of(word);
    if to - from != w.len() {
        return false;
    }
    let r = has_at(v, from, &w);
    assert(from + w.len() == to);
    r
}

/// The text of `src` from the character `from` to the character `to`.
pub fn copy_range(src: &str, from: usize, to: usize) -> (r: String)
    requires
        from <= to <= src@.len(),
    ensures
        r@ == src@.subrange(from as int, to as int),
{
    src.substring_char(from, to).to_owned()
}

/// The value of the decimal digit `c`.
pub open spec fn digit(c: char) -> Option<int> {
    if '0' <= c && c <= '9' {
        Some(c as int - '0' as int)
    } else {
        None
    }
}

/// The number that the decimal digits `s` write; `None` where a character is
/// no digit.
pub open spec fn digits_value(s: Seq<char>) -> Option<int>
    decreases s.len(),
{
    if s.len() == 0 {
        Some(0)
    } else {
        match (digits_value(s.drop_last()), digit(s.last())) {
            (Some(high), Some(low)) => Some(high * 10 + low),
            _ => None,
        }
    }
}

/// The number below 256 that `s` writes in decimal digits, with or without a
/// plus sign in front of them.
pub open spec fn u8_value(s: Seq<char>) -> Option<u8> {
    let body = if s.len() > 0 && s[0] == '+' {
        s.skip(1)
    } else {
        s
    };
    if body.len() == 0 {
        None
    } else {
        match digits_value(body) {
            Some(n) => if n <= 255 {
                Some(n as u8)
            } else {
                None
            },
            None => None,
        }
    }
}

/// More digits never write a smaller number.
proof fn lemma_digits_grow(s: Seq<char>, n: int)
    requires
        0 <= n <= s.len(),
        digits_value(s).is_some(),
    ensures
        digits_value(s.take(n)).is_some(),
        0 <= digits_value(s.take(n)).unwrap() <= digits_value(s).unwrap(),
    decreases s.len(),
{
    if n == s.len() {
        assert(s.take(n) =~= s);
        lemma_digits_positive(s);
    } else {
        lemma_digits_grow(s.drop_last(), n);
        assert(s.drop_last().take(n) =~= s.take(n));
    }
}

proof fn lemma_digits_positive(s: Seq<char>)
    requires
        digits_value(s).is_some(),
    ensures
        digits_value(s).unwrap() >= 0,
    decreases s.len(),
{
    if s.len() > 0 {
        lemma_digits_positive(s.drop_last());
    }
}

/// Reads `v` from `from` to `to` as a number below 256; see [`u8_value`].
pub fn parse_u8(v: &Vec<char>, from: usize, to: usize) -> (r: Option<u8>)
    requires
        from <= to <= v.len(),
    ensures
        r == u8_value(v@.subrange(from as int, to as int)),
{
    let ghost s = v@.subrange(from as int, to as int);
    let start = if from < to && v[from] == '+' {
        from + 1
    } else {
        from
    };
    let ghost body = v@.subrange(start as int, to as int);
    proof {
        if from < to && v[from as int] == '+' {
            assert(s[0] == '+');
            assert(s.skip(1) =~= body);
        } else {
            assert(s =~= body);
            if s.len() > 0 {
                assert(s[0] == v@[from as int]);
            }
        }
    }
    if start == to {
        return None;
    }
    let mut n: u32 = 0;
    let mut i: usize = start;
    assert(body.take(0) =~= Seq::<char>::empty());
    while i < to
        invariant
            start <= i <= to,
            to <= v.len(),
            body == v@.subrange(start as int, to as int),
            digits_value(body.take(i - start)) == Some(n as int),
            n <= 255,
            u8_value(v@.subrange(from as int, to as int)) == match digits_value(body) {
                Some(n) => if n <= 255 {
                    Some(n as u8)
                } else {
                    None
                },
                None => None,
            },
        decreases to - i,
    {
        let c = v[i];
        proof {
            assert(body.take(i - start + 1).drop_last() =~= body.take(i - start));
            assert(body.take(i - start + 1).last() == c);
        }
        if !('0' <= c && c <= '9') {
            proof {
                assert(digit(c).is_none());
                assert(digits_value(body.take(i - start + 1)).is_none());
                if digits_value(body).is_some() {
                    lemma_digits_grow(body, i - start + 1);
                }
            }
            return None;
        }
        let d: u32 = c as u32 - '0' as u32;
        n = n * 10 + d;
        assert(digits_value(body.take(i - start + 1)) == Some(n as int));
        if n > 255 {
            proof {
                if digits_value(body).is_some() {
                    lemma_digits_grow(body, i - start + 1);
                }
            }
            return None;
        }
        i += 1;
    }
    assert(body.take(to - start) =~= body);
    Some(n as u8)
}

} // verus!
