//! Forward-only cursors over a sequence of elements, a string, or a list of lines.
use vstd::prelude::*;
use crate::seq_search::{find_pattern, find_value, lemma_find_pattern_is, lemma_find_value_is, pattern_at};
use crate::text::{string_of, to_chars};

verus! {

/// An element a scanner can compare for equality.
pub trait ScanItem: Copy + Sized {
    fn same(&self, other: &Self) -> (r: bool)
        ensures
            r == (*self == *other),
    ;
}

impl ScanItem for u8 {
    fn same(&self, other: &u8) -> (r: bool) {
        *self == *other
    }
}

impl ScanItem for char {
    fn same(&self, other: &char) -> (r: bool) {
        *self == *other
    }
}

pub open spec fn clamp_add(a: int, n: int, len: int) -> int {
    if a + n < len { a + n } else { len }
}

/// A scanner's cursor is never negative.
pub broadcast proof fn lemma_position_nonneg<T: ScanItem>(s: &VecScanner<T>)
    ensures
        #[trigger] s.position() >= 0,
{
}

/// A cursor over a vector; it only moves forward.
pub struct VecScanner<T> {
    index: usize,
    input: Vec<T>,
}

impl<T: ScanItem> VecScanner<T> {
    /// The scanned sequence.
    pub closed spec fn input(&self) -> Seq<T> {
        self.input@
    }

    /// The cursor: the index of the next element to be consumed.
    pub closed spec fn position(&self) -> int {
        self.index as int
    }

    pub fn new(input: Vec<T>) -> (r: Self)
        ensures
            r.input() == input@,
            r.position() == 0,
    {
        VecScanner { index: 0, input }
    }

    /// The next `n` elements, fewer at the end of the input; the cursor moves past them.
    pub fn consume_exact(&mut self, n: usize) -> (r: Vec<T>)
        requires
            old(self).position() <= old(self).input().len(),
        ensures
            final(self).input() == old(self).input(),
            final(self).position() == clamp_add(old(self).position(), n as int, old(self).input().len() as int),
            r@ == old(self).input().subrange(old(self).position(), final(self).position()),
    {
        let r = self.peek(n);
        let end = if n < self.input.len() - self.index { self.index + n } else { self.input.len() };
        self.index = end;
        r
    }

    /// The next `n` elements, fewer at the end of the input; the cursor stays.
    pub fn peek(&self, n: usize) -> (r: Vec<T>)
        requires
            self.position() <= self.input().len(),
        ensures
            r@ == self.input().subrange(self.position(), clamp_add(self.position(), n as int, self.input().len() as int)),
    {
        let end = if n < self.input.len() - self.index { self.index + n } else { self.input.len() };
        self.slice(self.index, end)
    }

    fn slice(&self, from: usize, to: usize) -> (r: Vec<T>)
        requires
            from <= to <= self.input@.len(),
        ensures
            r@ == self.input@.subrange(from as int, to as int),
    {
        let mut r: Vec<T> = Vec::new();
        let mut i = from;
        while i < to
            invariant
                from <= i <= to <= self.input@.len(),
                r@ == self.input@.subrange(from as int, i as int),
            decreases to - i,
        {
            r.push(self.input[i]);
            assert(self.input@.subrange(from as int, i + 1) =~= self.input@.subrange(from as int, i as int).push(self.input@[i as int]));
            i = i + 1;
        }
        r
    }

    /// The longest run from the cursor of elements on which `predicate` (given the
    /// element and its index) is false; the cursor stops at the first element on which
    /// it is true, or at the end.
    pub fn consume_until(&mut self, predicate: impl Fn(T, usize) -> bool) -> (r: Vec<T>)
        requires
            old(self).position() <= old(self).input().len(),
            forall|x: T, i: usize| predicate.requires((x, i)),
        ensures
            final(self).input() == old(self).input(),
            old(self).position() <= final(self).position() <= old(self).input().len(),
            r@ == old(self).input().subrange(old(self).position(), final(self).position()),
            forall|k: int| old(self).position() <= k < final(self).position() ==>
                predicate.ensures((old(self).input()[k], k as usize), false),
            final(self).position() < old(self).input().len() ==>
                predicate.ensures((old(self).input()[final(self).position()], final(self).position() as usize), true),
    {
        let mut end = self.index;
        while end < self.input.len() && !predicate(self.input[end], end)
            invariant
                self.index <= end <= self.input@.len(),
                forall|x: T, i: usize| predicate.requires((x, i)),
                forall|k: int| self.index <= k < end ==> predicate.ensures((self.input@[k], k as usize), false),
            decreases self.input@.len() - end,
        {
            end = end + 1;
        }
        let r = self.slice(self.index, end);
        self.index = end;
        r
    }

    /// The run from the cursor up to the first element equal to `target`, which stays
    /// unconsumed; the rest of the input when there is none.
    pub fn consume_until_value(&mut self, target: T) -> (r: Vec<T>)
        requires
            old(self).position() <= old(self).input().len(),
        ensures
            final(self).input() == old(self).input(),
            final(self).position() == old(self).position()
                + find_value(old(self).input().skip(old(self).position()), target),
            final(self).position() <= old(self).input().len(),
            r@ == old(self).input().subrange(old(self).position(), final(self).position()),
    {
        let start = self.index;
        let mut end = self.index;
        while end < self.input.len() && !self.input[end].same(&target)
            invariant
                start == self.index <= end <= self.input@.len(),
                forall|k: int| start <= k < end ==> self.input@[k] != target,
            decreases self.input@.len() - end,
        {
            end = end + 1;
        }
        proof {
            let t = self.input@.skip(start as int);
            assert forall|k: int| 0 <= k < end - start implies t[k] != target by {
                assert(t[k] == self.input@[start + k]);
            }
            lemma_find_value_is(t, target, end - start);
        }
        let r = self.slice(start, end);
        self.index = end;
        r
    }

    fn pattern_here(&self, at: usize, pattern: &Vec<T>) -> (r: bool)
        requires
            at <= self.input@.len(),
        ensures
            r == pattern_at(self.input@, at as int, pattern@),
    {
        if pattern.len() > self.input.len() - at {
            return false;
        }
        let n = self.input.len();
        let mut k: usize = 0;
        while k < pattern.len()
            invariant
                n == self.input@.len(),
                at <= self.input@.len(),
                at + pattern@.len() <= self.input@.len(),
                k <= pattern@.len(),
                forall|j: int| 0 <= j < k ==> self.input@[at + j] == pattern@[j],
            decreases pattern@.len() - k,
        {
            if !self.input[at + k].same(&pattern[k]) {
                assert(self.input@.subrange(at as int, at + pattern@.len())[k as int] != pattern@[k as int]);
                return false;
            }
            k = k + 1;
        }
        assert(self.input@.subrange(at as int, at + pattern@.len()) =~= pattern@);
        true
    }

    /// The run from the cursor up to the first place where the next elements equal
    /// `pattern`, which stays unconsumed; the rest of the input when it never occurs.
    pub fn consume_until_pattern(&mut self, pattern: &Vec<T>) -> (r: Vec<T>)
        requires
            old(self).position() <= old(self).input().len(),
        ensures
            final(self).input() == old(self).input(),
            final(self).position() == old(self).position()
                + find_pattern(old(self).input().skip(old(self).position()), pattern@),
            final(self).position() <= old(self).input().len(),
            r@ == old(self).input().subrange(old(self).position(), final(self).position()),
    {
        let start = self.index;
        let mut end = self.index;
        while end < self.input.len() && !self.pattern_here(end, pattern)
            invariant
                start == self.index <= end <= self.input@.len(),
                forall|k: int| start <= k < end ==> !pattern_at(self.input@, k, pattern@),
            decreases self.input@.len() - end,
        {
            end = end + 1;
        }
        proof {
            let s = self.input@;
            let t = s.skip(start as int);
            assert forall|k: int| 0 <= k < end - start implies !pattern_at(t, k, pattern@) by {
                assert(!pattern_at(s, start + k, pattern@));
                if k + pattern@.len() <= t.len() {
                    assert(t.subrange(k, k + pattern@.len()) =~= s.subrange(start + k, start + k + pattern@.len()));
                }
            }
            if end < s.len() {
                assert(t.subrange(end - start, end - start + pattern@.len()) =~= s.subrange(end as int, end + pattern@.len()));
            }
            lemma_find_pattern_is(t, pattern@, end - start);
        }
        let r = self.slice(start, end);
        self.index = end;
        r
    }

    /// Everything from the cursor to the end.
    pub fn consume_rest(&mut self) -> (r: Vec<T>)
        requires
            old(self).position() <= old(self).input().len(),
        ensures
            final(self).input() == old(self).input(),
            final(self).position() == old(self).input().len(),
            r@ == old(self).input().subrange(old(self).position(), old(self).input().len() as int),
    {
        let r = self.slice(self.index, self.input.len());
        self.index = self.input.len();
        r
    }

    /// How many elements are left.
    pub fn remaining(&self) -> (r: usize)
        requires
            self.position() <= self.input().len(),
        ensures
            r == self.input().len() - self.position(),
    {
        self.input.len() - self.index
    }

    pub fn finished(&self) -> (r: bool)
        ensures
            r == (self.position() >= self.input().len()),
    {
        self.index >= self.input.len()
    }
}

} // verus!

verus! {

/// A cursor over the characters of a string; it only moves forward.
pub struct StringScanner {
    inner: VecScanner<char>,
}

impl StringScanner {
    /// The scanned characters.
    pub closed spec fn input(&self) -> Seq<char> {
        self.inner.input()
    }

    /// The cursor: the index of the next character to be consumed.
    pub closed spec fn position(&self) -> int {
        self.inner.position()
    }

    pub fn new(string: &String) -> (r: Self)
        ensures
            r.input() == string@,
            r.position() == 0,
    {
        StringScanner { inner: VecScanner::new(to_chars(string.as_str())) }
    }

    /// The next `n` characters, fewer at the end; the cursor moves past them.
    pub fn consume_exact(&mut self, n: usize) -> (r: String)
        requires
            old(self).position() <= old(self).input().len(),
        ensures
            final(self).input() == old(self).input(),
            final(self).position() == clamp_add(old(self).position(), n as int, old(self).input().len() as int),
            r@ == old(self).input().subrange(old(self).position(), final(self).position()),
    {
        let v = self.inner.consume_exact(n);
        crate::text::string_from_chars(&v)
    }

    /// The longest run from the cursor of characters on which `predicate` is false;
    /// the cursor stops at the first character on which it is true, or at the end.
    pub fn consume_until(&mut self, predicate: impl Fn(char) -> bool) -> (r: String)
        requires
            old(self).position() <= old(self).input().len(),
            forall|c: char| predicate.requires((c,)),
        ensures
            final(self).input() == old(self).input(),
            old(self).position() <= final(self).position() <= old(self).input().len(),
            r@ == old(self).input().subrange(old(self).position(), final(self).position()),
            forall|k: int| old(self).position() <= k < final(self).position() ==>
                predicate.ensures((old(self).input()[k],), false),
            final(self).position() < old(self).input().len() ==>
                predicate.ensures((old(self).input()[final(self).position()],), true),
    {
        let start = self.inner.index;
        let mut end = start;
        while end < self.inner.input.len() && !predicate(self.inner.input[end])
            invariant
                start == self.inner.index <= end <= self.inner.input@.len(),
                forall|c: char| predicate.requires((c,)),
                forall|k: int| start <= k < end ==> predicate.ensures((self.inner.input@[k],), false),
            decreases self.inner.input@.len() - end,
        {
            end = end + 1;
        }
        self.inner.index = end;
        string_of(&self.inner.input, start, end)
    }

    /// The run from the cursor up to the first `target`, which stays unconsumed.
    pub fn consume_until_char(&mut self, target: char) -> (r: String)
        requires
            old(self).position() <= old(self).input().len(),
        ensures
            final(self).input() == old(self).input(),
            final(self).position() == old(self).position()
                + find_value(old(self).input().skip(old(self).position()), target),
            final(self).position() <= old(self).input().len(),
            r@ == old(self).input().subrange(old(self).position(), final(self).position()),
    {
        let v = self.inner.consume_until_value(target);
        crate::text::string_from_chars(&v)
    }

    /// Everything from the cursor to the end.
    pub fn consume_rest(&mut self) -> (r: String)
        requires
            old(self).position() <= old(self).input().len(),
        ensures
            final(self).input() == old(self).input(),
            final(self).position() == old(self).input().len(),
            r@ == old(self).input().subrange(old(self).position(), old(self).input().len() as int),
    {
        let v = self.inner.consume_rest();
        crate::text::string_from_chars(&v)
    }

    /// How many characters are left.
    pub fn remaining(&self) -> (r: usize)
        requires
            self.position() <= self.input().len(),
        ensures
            r == self.input().len() - self.position(),
    {
        self.inner.remaining()
    }

    pub fn finished(&self) -> (r: bool)
        ensures
            r == (self.position() >= self.input().len()),
    {
        self.inner.finished()
    }
}

/// A cursor over a list of lines, handing them out one at a time.
pub struct LineScanner {
    index: usize,
    lines: Vec<String>,
}

impl LineScanner {
    pub closed spec fn lines(&self) -> Seq<String> {
        self.lines@
    }

    pub closed spec fn position(&self) -> int {
        self.index as int
    }

    pub fn new(lines: Vec<String>) -> (r: Self)
        ensures
            r.lines() == lines@,
            r.position() == 0,
    {
        LineScanner { index: 0, lines }
    }

    /// The next line, or `None` once all have been handed out.
    pub fn consume(&mut self) -> (r: Option<String>)
        ensures
            final(self).lines() == old(self).lines(),
            old(self).position() < old(self).lines().len() ==> {
                &&& r is Some
                &&& r->0@ == old(self).lines()[old(self).position()]@
                &&& final(self).position() == old(self).position() + 1
            },
            old(self).position() >= old(self).lines().len() ==> r is None && final(self).position()
                == old(self).position(),
    {
        if self.index < self.lines.len() {
            let line = self.lines[self.index].clone();
            self.index = self.index + 1;
            Some(line)
        } else {
            None
        }
    }
}

/// A cursor over a list of lines that can also look at the next line without taking it.
pub struct LineParser {
    index: usize,
    lines: Vec<String>,
}

impl LineParser {
    pub closed spec fn lines(&self) -> Seq<String> {
        self.lines@
    }

    pub closed spec fn position(&self) -> int {
        self.index as int
    }

    pub fn new(lines: Vec<String>) -> (r: Self)
        ensures
            r.lines() == lines@,
            r.position() == 0,
    {
        LineParser { index: 0, lines }
    }

    /// The next line, or `None` once all have been handed out.
    pub fn consume(&mut self) -> (r: Option<String>)
        ensures
            final(self).lines() == old(self).lines(),
            old(self).position() < old(self).lines().len() ==> {
                &&& r is Some
                &&& r->0@ == old(self).lines()[old(self).position()]@
                &&& final(self).position() == old(self).position() + 1
            },
            old(self).position() >= old(self).lines().len() ==> r is None && final(self).position()
                == old(self).position(),
    {
        let r = self.get();
        if self.index < self.lines.len() {
            self.index = self.index + 1;
        }
        r
    }

    /// The next line, without taking it.
    pub fn get(&self) -> (r: Option<String>)
        ensures
            self.position() < self.lines().len() ==> r is Some && r->0@ == self.lines()[self.position()]@,
            self.position() >= self.lines().len() ==> r is None,
    {
        if self.index < self.lines.len() {
            Some(self.lines[self.index].clone())
        } else {
            None
        }
    }
}

} // verus!
