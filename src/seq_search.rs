//! Search primitives over sequences, shared by the scanners and the parsers.
use vstd::prelude::*;

verus! {

/// Index of the first element of `s` equal to `v`, or `s.len()` when there is none.
pub open spec fn find_value<T>(s: Seq<T>, v: T) -> int
    decreases s.len(),
{
    if s.len() == 0 {
        0
    } else if s[0] == v {
        0
    } else {
        1 + find_value(s.drop_first(), v)
    }
}

/// True when `p` occurs in `s` starting at index `k`.
pub open spec fn pattern_at<T>(s: Seq<T>, k: int, p: Seq<T>) -> bool {
    0 <= k && k + p.len() <= s.len() && s.subrange(k, k + p.len()) == p
}

/// Index of the first occurrence of `p` in `s`, or `s.len()` when there is none.
pub open spec fn find_pattern<T>(s: Seq<T>, p: Seq<T>) -> int
    decreases s.len(),
{
    if s.len() < p.len() {
        s.len() as int
    } else if s.subrange(0, p.len() as int) == p || s.len() == 0 {
        0
    } else {
        1 + find_pattern(s.drop_first(), p)
    }
}

pub proof fn lemma_find_value_bounds<T>(s: Seq<T>, v: T)
    ensures
        0 <= find_value(s, v) <= s.len(),
        find_value(s, v) < s.len() ==> s[find_value(s, v)] == v,
        forall|k: int| 0 <= k < find_value(s, v) ==> s[k] != v,
    decreases s.len(),
{
    if s.len() > 0 && s[0] != v {
        lemma_find_value_bounds(s.drop_first(), v);
        assert forall|k: int| 0 <= k < find_value(s, v) implies s[k] != v by {
            if k > 0 {
                assert(s[k] == s.drop_first()[k - 1]);
            }
        }
    }
}

/// The first index `e` with `s[e] == v` (or the end) is what `find_value` names.
pub proof fn lemma_find_value_is<T>(s: Seq<T>, v: T, e: int)
    requires
        0 <= e <= s.len(),
        forall|k: int| 0 <= k < e ==> s[k] != v,
        e < s.len() ==> s[e] == v,
    ensures
        find_value(s, v) == e,
    decreases s.len(),
{
    if s.len() > 0 && e > 0 {
        assert forall|k: int| 0 <= k < e - 1 implies s.drop_first()[k] != v by {
            assert(s.drop_first()[k] == s[k + 1]);
        }
        lemma_find_value_is(s.drop_first(), v, e - 1);
    }
}

pub proof fn lemma_find_pattern_bounds<T>(s: Seq<T>, p: Seq<T>)
    ensures
        0 <= find_pattern(s, p) <= s.len(),
        find_pattern(s, p) < s.len() ==> pattern_at(s, find_pattern(s, p), p),
        forall|k: int| 0 <= k < find_pattern(s, p) ==> !pattern_at(s, k, p),
    decreases s.len(),
{
    if s.len() >= p.len() && s.subrange(0, p.len() as int) != p {
        assert(s.len() > 0) by {
            if p.len() == 0 {
                assert(s.subrange(0, 0) =~= p);
            }
        }
        let t = s.drop_first();
        lemma_find_pattern_bounds(t, p);
        let e = find_pattern(t, p);
        if e < t.len() {
            assert(s.subrange(e + 1, e + 1 + p.len()) =~= t.subrange(e, e + p.len()));
        }
        assert forall|k: int| 0 <= k < find_pattern(s, p) implies !pattern_at(s, k, p) by {
            if k > 0 && k + p.len() <= s.len() {
                assert(s.subrange(k, k + p.len()) =~= t.subrange(k - 1, k - 1 + p.len()));
                assert(!pattern_at(t, k - 1, p));
            }
        }
    }
}

/// The first index `e` at which `p` occurs (or the end) is what `find_pattern` names.
pub proof fn lemma_find_pattern_is<T>(s: Seq<T>, p: Seq<T>, e: int)
    requires
        0 <= e <= s.len(),
        forall|k: int| 0 <= k < e ==> !pattern_at(s, k, p),
        e < s.len() ==> pattern_at(s, e, p),
    ensures
        find_pattern(s, p) == e,
{
    lemma_find_pattern_bounds(s, p);
    let f = find_pattern(s, p);
    if f < e {
        assert(!pattern_at(s, f, p));
    } else if e < f {
        assert(pattern_at(s, e, p));
    }
}

} // verus!
