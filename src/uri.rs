//! Request targets: path, query parameters and fragment.
use vstd::prelude::*;
use crate::scanner::{clamp_add, lemma_position_nonneg, StringScanner, VecScanner};
use crate::seq_search::{find_value, lemma_find_value_bounds};
use crate::string_map::StringMap;
use crate::text::{string_from_chars, to_chars};
use crate::url_encoding::{form_decode, URLEncoding};

verus! {

broadcast use lemma_position_nonneg;

/// Index of the first `?` or `#` in `s`, or its length.
pub open spec fn path_end(s: Seq<char>) -> int
    decreases s.len(),
{
    if s.len() == 0 || s[0] == '?' || s[0] == '#' {
        0
    } else {
        1 + path_end(s.drop_first())
    }
}

pub proof fn lemma_path_end_is(s: Seq<char>, e: int)
    requires
        0 <= e <= s.len(),
        forall|k: int| 0 <= k < e ==> !(s[k] == '?' || s[k] == '#'),
        e < s.len() ==> (s[e] == '?' || s[e] == '#'),
    ensures
        path_end(s) == e,
    decreases s.len(),
{
    if s.len() > 0 && e > 0 {
        assert forall|k: int| 0 <= k < e - 1 implies !(s.drop_first()[k] == '?' || s.drop_first()[k] == '#') by {
            assert(s.drop_first()[k] == s[k + 1]);
        }
        lemma_path_end_is(s.drop_first(), e - 1);
    }
}

/// The name of a query pair: what precedes the first `=`.
pub open spec fn pair_name(piece: Seq<char>) -> Seq<char> {
    piece.take(find_value(piece, '='))
}

/// The value of a query pair: what follows the first `=`, empty when there is none.
pub open spec fn pair_value(piece: Seq<char>) -> Seq<char> {
    piece.skip(clamp_add(find_value(piece, '='), 1, piece.len() as int))
}

/// Adds the `&`-separated pairs of `q` to `acc`, names and values form-decoded; a
/// later pair with the same name overrides an earlier one.
pub open spec fn query_into(q: Seq<char>, acc: Map<Seq<char>, Seq<char>>) -> Map<Seq<char>, Seq<char>>
    decreases q.len(),
{
    let e = find_value(q, '&');
    let piece = q.take(e);
    let next = acc.insert(form_decode(pair_name(piece)), form_decode(pair_value(piece)));
    if e < 0 || e >= q.len() {
        next
    } else {
        query_into(q.skip(e + 1), next)
    }
}

/// The query map of a query string.
pub open spec fn query_map(q: Seq<char>) -> Map<Seq<char>, Seq<char>> {
    query_into(q, Map::empty())
}

/// The path of a request target: everything before the first `?` or `#`.
pub open spec fn target_path(s: Seq<char>) -> Seq<char> {
    s.take(path_end(s))
}

/// The query string of a request target, when it has one.
pub open spec fn target_query(s: Seq<char>) -> Option<Seq<char>> {
    let e = path_end(s);
    if e < s.len() && s[e] == '?' {
        let r = s.skip(e + 1);
        Some(r.take(find_value(r, '#')))
    } else {
        None
    }
}

/// The fragment of a request target: everything after the first `#` that follows
/// the path (and the query, if any); empty when there is none.
pub open spec fn target_fragment(s: Seq<char>) -> Seq<char> {
    let e = path_end(s);
    if e >= s.len() {
        Seq::empty()
    } else if s[e] == '#' {
        s.skip(e + 1)
    } else {
        let r = s.skip(e + 1);
        let g = find_value(r, '#');
        if g < r.len() {
            r.skip(g + 1)
        } else {
            Seq::empty()
        }
    }
}

/// A parsed request target.
pub struct URI {
    pub path: String,
    pub query: StringMap<String>,
    pub fragment: String,
}

fn parse_query(q: &Vec<char>) -> (r: StringMap<String>)
    ensures
        r.wf(),
        r.mapping() == query_map(q@),
{
    let mut pairs: StringMap<String> = StringMap::new();
    let mut scanner = VecScanner::new(q.clone());
    let ghost s = q@;
    let mut done = false;
    assert(s.skip(0) =~= s);
    assert(pairs.mapping() =~= Map::<Seq<char>, Seq<char>>::empty());
    while !done
        invariant
            scanner.input() == s,
            scanner.position() <= s.len(),
            pairs.wf(),
            !done ==> query_map(s) == query_into(s.skip(scanner.position()), pairs.mapping()),
            done ==> query_map(s) == pairs.mapping(),
        decreases s.len() - scanner.position() + (if done { 0int } else { 1int }),
    {
        let ghost p0 = scanner.position();
        let ghost t = s.skip(p0);
        let piece = scanner.consume_until_value('&');
        proof {
            lemma_find_value_bounds(t, '&');
            assert(piece@ =~= t.take(find_value(t, '&')));
        }
        let (name, value) = split_pair(&piece);
        let name = URLEncoding::decode(name);
        let value = URLEncoding::decode(value);
        pairs.insert(name, value);
        if scanner.finished() {
            done = true;
        } else {
            scanner.consume_exact(1);
            assert(t.skip(find_value(t, '&') + 1) =~= s.skip(scanner.position()));
        }
    }
    pairs
}

fn split_pair(piece: &Vec<char>) -> (r: (String, String))
    ensures
        r.0@ == pair_name(piece@),
        r.1@ == pair_value(piece@),
{
    let mut sc = VecScanner::new(piece.clone());
    assert(piece@.skip(0) =~= piece@);
    let name = sc.consume_until_value('=');
    proof {
        lemma_find_value_bounds(piece@, '=');
    }
    sc.consume_exact(1);
    let value = sc.consume_rest();
    assert(name@ =~= pair_name(piece@));
    assert(value@ =~= pair_value(piece@));
    (string_from_chars(&name), string_from_chars(&value))
}

impl URI {
    /// `self` is what parsing the request target `s` gives.
    pub open spec fn parsed_from(&self, s: Seq<char>) -> bool {
        &&& self.path@ == target_path(s)
        &&& self.query.wf()
        &&& target_query(s) is None ==> self.query.mapping() == Map::<Seq<char>, Seq<char>>::empty()
        &&& target_query(s) is Some ==> self.query.mapping() == query_map(target_query(s)->0)
        &&& self.fragment@ == target_fragment(s)
    }

    /// Splits a request target into its path, its query map and its fragment.
    pub fn from_string(string: String) -> (r: Self)
        ensures
            r.parsed_from(string@),
    {
        let ghost s = string@;
        let mut scanner = StringScanner::new(&string);
        let is_path_end = |c: char| -> (b: bool)
            ensures
                b == (c == '?' || c == '#'),
            { c == '?' || c == '#' };
        let path = scanner.consume_until(is_path_end);
        let ghost e = scanner.position();
        proof {
            lemma_path_end_is(s, e);
            assert(path@ =~= s.take(e));
        }
        let mut query: StringMap<String> = StringMap::new();
        let mut fragment = String::new();
        assert(query.mapping() =~= Map::<Seq<char>, Seq<char>>::empty());
        if !scanner.finished() {
            let mark = scanner.consume_exact(1);
            let chars = to_chars(mark.as_str());
            assert(chars@ =~= seq![s[e]]);
            if chars[0] == '?' {
                let ghost r = s.skip(e + 1);
                let query_string = scanner.consume_until_char('#');
                proof {
                    assert(s.skip(scanner.position() - find_value(r, '#')) =~= r) by {
                        assert(scanner.position() - find_value(r, '#') == e + 1);
                    }
                    lemma_find_value_bounds(r, '#');
                    assert(query_string@ =~= r.take(find_value(r, '#')));
                }
                let q = to_chars(query_string.as_str());
                query = parse_query(&q);
                if !scanner.finished() {
                    scanner.consume_exact(1);
                    fragment = scanner.consume_rest();
                    assert(fragment@ =~= r.skip(find_value(r, '#') + 1));
                }
            } else {
                fragment = scanner.consume_rest();
                assert(fragment@ =~= s.skip(e + 1));
            }
        }
        assert(fragment@ =~= target_fragment(s));
        URI { path, query, fragment }
    }
}

} // verus!
