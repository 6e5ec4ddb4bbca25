//! Routes and wildcard path patterns.
use vstd::prelude::*;
use crate::method::{method_name, HttpMethod};
use crate::request::HttpRequest;
use crate::text::{push_char, push_text, to_chars};

verus! {

/// True when every character of `s` is `*`.
pub open spec fn all_stars(s: Seq<char>) -> bool {
    forall|k: int| 0 <= k < s.len() ==> s[k] == '*'
}

/// Whether `path` matches `pattern`, comparing from the end: a `*` at the end of the
/// pattern matches nothing or one more character of the path; any other last pattern
/// character must equal the path's last character. `*` spans any characters, `/` included.
pub open spec fn glob_match(path: Seq<char>, pattern: Seq<char>) -> bool
    decreases path.len() + pattern.len(),
{
    if pattern.len() == 0 {
        path.len() == 0
    } else if path.len() == 0 {
        all_stars(pattern)
    } else if pattern.last() == '*' {
        glob_match(path, pattern.drop_last()) || glob_match(path.drop_last(), pattern)
    } else if path.last() == pattern.last() {
        glob_match(path.drop_last(), pattern.drop_last())
    } else {
        false
    }
}

/// The empty pattern matches the empty path and nothing else.
pub proof fn lemma_empty_pattern(path: Seq<char>)
    ensures
        glob_match(path, Seq::empty()) <==> path.len() == 0,
{
}

/// The pattern `*` matches every path, the empty path included.
pub proof fn lemma_star_matches_all(path: Seq<char>)
    ensures
        glob_match(path, seq!['*']),
    decreases path.len(),
{
    let star = seq!['*'];
    assert(star.last() == '*');
    assert(star.drop_last() =~= Seq::<char>::empty());
    if path.len() == 0 {
        assert(all_stars(star));
    } else {
        lemma_star_matches_all(path.drop_last());
        assert(glob_match(path.drop_last(), star));
    }
}

/// A method, a path pattern and the handler for requests that match both.
pub struct HttpRoute<F> {
    pub method: HttpMethod,
    pub path_pattern: String,
    pub callback: F,
}

/// Decides `glob_match` for all prefixes, one row of path length at a time.
pub fn path_matches(path: &String, pattern: &String) -> (r: bool)
    ensures
        r == glob_match(path@, pattern@),
{
    let p = to_chars(path.as_str());
    let q = to_chars(pattern.as_str());
    let m = q.len();
    let mut prev: Vec<bool> = Vec::new();
    let mut stars = true;
    let mut j: usize = 0;
    prev.push(true);
    assert(glob_match(p@.take(0), q@.take(0)));
    while j < m
        invariant
            m == q@.len(),
            j <= m,
            prev@.len() == j + 1,
            stars == all_stars(q@.take(j as int)),
            forall|t: int| 0 <= t <= j ==> prev@[t] == glob_match(p@.take(0), #[trigger] q@.take(t)),
        decreases m - j,
    {
        assert(q@.take(j + 1).drop_last() =~= q@.take(j as int));
        stars = stars && q[j] == '*';
        assert(stars == all_stars(q@.take(j + 1))) by {
            if !stars && all_stars(q@.take(j as int)) {
                assert(q@.take(j + 1)[j as int] == q@[j as int]);
            }
        }
        prev.push(stars);
        j = j + 1;
    }
    let mut i: usize = 0;
    while i < p.len()
        invariant
            m == q@.len(),
            i <= p@.len(),
            prev@.len() == m + 1,
            forall|t: int| 0 <= t <= m ==> prev@[t] == glob_match(p@.take(i as int), #[trigger] q@.take(t)),
        decreases p@.len() - i,
    {
        let ghost a = p@.take(i + 1);
        assert(a.drop_last() =~= p@.take(i as int));
        assert(a.last() == p@[i as int]);
        let mut cur: Vec<bool> = Vec::new();
        cur.push(false);
        let mut j: usize = 0;
        while j < m
            invariant
                m == q@.len(),
                i < p@.len(),
                a == p@.take(i + 1),
                a.drop_last() == p@.take(i as int),
                a.last() == p@[i as int],
                j <= m,
                prev@.len() == m + 1,
                cur@.len() == j + 1,
                forall|t: int| 0 <= t <= m ==> prev@[t] == glob_match(p@.take(i as int), #[trigger] q@.take(t)),
                forall|t: int| 0 <= t <= j ==> cur@[t] == glob_match(a, #[trigger] q@.take(t)),
            decreases m - j,
        {
            let ghost b = q@.take(j + 1);
            assert(b.drop_last() =~= q@.take(j as int));
            assert(b.last() == q@[j as int]);
            let v = if q[j] == '*' {
                cur[j] || prev[j + 1]
            } else if p[i] == q[j] {
                prev[j]
            } else {
                false
            };
            cur.push(v);
            j = j + 1;
        }
        prev = cur;
        i = i + 1;
    }
    assert(p@.take(p@.len() as int) =~= p@);
    assert(q@.take(m as int) =~= q@);
    prev[m]
}

impl<F> HttpRoute<F> {
    /// Whether the request has this route's method and a path that its pattern matches.
    pub fn matches(&self, request: &HttpRequest) -> (r: bool)
        ensures
            r == (self.method == request.method && glob_match(request.uri.path@, self.path_pattern@)),
    {
        self.method == request.method && path_matches(&request.uri.path, &self.path_pattern)
    }

    /// The method and the pattern, separated by a space (`GET /documents/*.txt`).
    pub fn describe(&self) -> (r: String)
        ensures
            r@ == method_name(self.method) + seq![' '] + self.path_pattern@,
    {
        let mut out = String::new();
        push_text(&mut out, self.method.name());
        push_char(&mut out, ' ');
        push_text(&mut out, self.path_pattern.as_str());
        assert(out@ =~= method_name(self.method) + seq![' '] + self.path_pattern@);
        out
    }
}

} // verus!
