//! Header blocks: parsing `Name: value` lines into a map, writing them back, and the
//! parameterized view of a value (`text/plain; charset=utf-8`).
use vstd::prelude::*;
use crate::scanner::{clamp_add, lemma_position_nonneg, VecScanner};
use crate::seq_search::{
    find_pattern, find_value, lemma_find_pattern_bounds, lemma_find_pattern_is, lemma_find_value_bounds,
    lemma_find_value_is, pattern_at,
};
use crate::string_map::{map_of, StringMap};
use crate::text::{push_char, push_text, string_from_chars, to_chars, trim, trim_start, trimmed, trimmed_start};

verus! {

broadcast use lemma_position_nonneg;

pub open spec fn crlf() -> Seq<char> {
    seq!['\r', '\n']
}

/// The name of a header line: what precedes the first `:`, trimmed.
pub open spec fn header_name(line: Seq<char>) -> Seq<char> {
    trim(line.take(find_value(line, ':')))
}

/// The value of a header line: what follows the first `:`, without leading whitespace.
pub open spec fn header_value(line: Seq<char>) -> Seq<char> {
    trim_start(line.skip(clamp_add(find_value(line, ':'), 1, line.len() as int)))
}

/// Adds the header lines of `s` (separated by CRLF) to `acc`; a later line with the same
/// name overrides an earlier one.
pub open spec fn parse_headers_into(s: Seq<char>, acc: Map<Seq<char>, Seq<char>>) -> Map<Seq<char>, Seq<char>>
    decreases s.len(),
{
    if s.len() == 0 {
        acc
    } else {
        let e = find_pattern(s, crlf());
        let line = s.take(e);
        let rest = s.skip(clamp_add(e, 2, s.len() as int));
        if e < 0 || rest.len() >= s.len() {
            acc
        } else {
            parse_headers_into(rest, acc.insert(header_name(line), header_value(line)))
        }
    }
}

/// The header map of a block of CRLF-separated `Name: value` lines.
pub open spec fn parse_headers(s: Seq<char>) -> Map<Seq<char>, Seq<char>> {
    parse_headers_into(s, Map::empty())
}

/// Everything before the first `;`, unchanged.
pub open spec fn primary_value(s: Seq<char>) -> Seq<char> {
    s.take(find_value(s, ';'))
}

/// `s` without leading spaces and tabs.
pub open spec fn skip_blanks(s: Seq<char>) -> Seq<char>
    decreases s.len(),
{
    if s.len() > 0 && (s[0] == ' ' || s[0] == '\t') {
        skip_blanks(s.drop_first())
    } else {
        s
    }
}

/// A value wrapped in a pair of double quotes loses them.
pub open spec fn unquote(v: Seq<char>) -> Seq<char> {
    if v.len() >= 2 && v[0] == '"' && v.last() == '"' {
        v.subrange(1, v.len() - 1)
    } else {
        v
    }
}

pub open spec fn param_key(entry: Seq<char>) -> Seq<char> {
    trim(entry.take(find_value(entry, '=')))
}

pub open spec fn param_value(entry: Seq<char>) -> Seq<char> {
    unquote(trim(entry.skip(clamp_add(find_value(entry, '='), 1, entry.len() as int))))
}

/// Adds the `; key=value` parameters of `s` (which starts at a `;`, or is empty) to `acc`.
pub open spec fn params_into(s: Seq<char>, acc: Map<Seq<char>, Seq<char>>) -> Map<Seq<char>, Seq<char>>
    decreases s.len(),
{
    if s.len() == 0 {
        acc
    } else {
        let u = skip_blanks(s.drop_first());
        let e = find_value(u, ';');
        let entry = u.take(e);
        let rest = u.skip(e);
        if e < 0 || e > u.len() || u.len() >= s.len() {
            acc
        } else {
            params_into(rest, acc.insert(param_key(entry), param_value(entry)))
        }
    }
}

/// The parameters of a header value.
pub open spec fn header_parameters(s: Seq<char>) -> Map<Seq<char>, Seq<char>> {
    params_into(s.skip(find_value(s, ';')), Map::empty())
}

proof fn lemma_skip_blanks_len(s: Seq<char>)
    ensures
        skip_blanks(s).len() <= s.len(),
        s.len() > 0 ==> skip_blanks(s) == s.skip(s.len() - skip_blanks(s).len()),
    decreases s.len(),
{
    if s.len() > 0 && (s[0] == ' ' || s[0] == '\t') {
        lemma_skip_blanks_len(s.drop_first());
        let t = s.drop_first();
        if t.len() > 0 {
            assert(t.skip(t.len() - skip_blanks(t).len()) =~= s.skip(s.len() - skip_blanks(t).len()));
        } else {
            assert(s.skip(s.len() as int) =~= skip_blanks(t));
        }
    } else {
        assert(s.skip(0) =~= s);
    }
}

/// The value of one header: the text as received.
#[derive(Clone)]
pub struct HttpHeaderValue(String);

impl View for HttpHeaderValue {
    type V = Seq<char>;

    closed spec fn view(&self) -> Seq<char> {
        self.0@
    }
}

/// A header value split into its primary part and its `key=value` parameters.
pub struct ParameterizedHeaderValue {
    pub value: String,
    pub parameters: StringMap<String>,
}

fn split_on_first(line: &Vec<char>, sep: char) -> (r: (Vec<char>, Vec<char>))
    ensures
        r.0@ == line@.take(find_value(line@, sep)),
        r.1@ == line@.skip(clamp_add(find_value(line@, sep), 1, line@.len() as int)),
{
    let mut sc = VecScanner::new(line.clone());
    assert(line@.skip(0) =~= line@);
    let head = sc.consume_until_value(sep);
    proof {
        lemma_find_value_bounds(line@, sep);
    }
    sc.consume_exact(1);
    let tail = sc.consume_rest();
    assert(head@ =~= line@.take(find_value(line@, sep)));
    assert(tail@ =~= line@.skip(clamp_add(find_value(line@, sep), 1, line@.len() as int)));
    (head, tail)
}

impl HttpHeaderValue {
    pub fn new(value: String) -> (r: Self)
        ensures
            r@ == value@,
    {
        HttpHeaderValue(value)
    }

    /// The text of the value.
    pub fn as_string(&self) -> (r: &String)
        ensures
            r@ == self@,
    {
        &self.0
    }

    /// The primary value (everything before the first `;`) and the parameters that
    /// follow, each `key=value` with the key and value trimmed and quotes removed.
    pub fn as_parameterized_header_value(&self) -> (r: ParameterizedHeaderValue)
        ensures
            r.value@ == primary_value(self@),
            r.parameters.wf(),
            r.parameters.mapping() == header_parameters(self@),
    {
        let chars = to_chars(self.0.as_str());
        let ghost s = chars@;
        let mut scanner = VecScanner::new(chars);
        assert(s.skip(0) =~= s);
        let value_chars = scanner.consume_until_value(';');
        let value = string_from_chars(&value_chars);
        proof {
            lemma_find_value_bounds(s, ';');
        }
        assert(value@ =~= primary_value(s));
        let mut parameters: StringMap<String> = StringMap::new();
        let stop_at_non_blank = |c: char, _i: usize| -> (b: bool)
            ensures
                b == !(c == ' ' || c == '\t'),
            { !(c == ' ' || c == '\t') };
        while !scanner.finished()
            invariant
                scanner.input() == s,
                scanner.position() <= s.len(),
                parameters.wf(),
                header_parameters(s) == params_into(s.skip(scanner.position()), parameters.mapping()),
                forall|c: char, i: usize| stop_at_non_blank.requires((c, i)),
                forall|c: char, i: usize, b: bool| stop_at_non_blank.ensures((c, i), b) ==> b == !(c == ' ' || c == '\t'),
            decreases s.len() - scanner.position(),
        {
            let ghost p0 = scanner.position();
            let ghost t = s.skip(p0);
            assert(p0 < s.len());
            scanner.consume_exact(1);
            let ghost p1 = scanner.position();
            assert(p1 == p0 + 1);
            assert(t.drop_first() =~= s.skip(p1));
            scanner.consume_until(stop_at_non_blank);
            let ghost p2 = scanner.position();
            proof {
                let d = t.drop_first();
                skip_blanks_at(s, p1, p2);
                lemma_skip_blanks_len(d);
            }
            let entry = scanner.consume_until_value(';');
            let ghost p3 = scanner.position();
            proof {
                let u = s.skip(p2);
                lemma_find_value_bounds(u, ';');
                assert(entry@ =~= u.take(find_value(u, ';')));
                assert(u.skip(find_value(u, ';')) =~= s.skip(p3));
            }
            let (key_chars, rest_chars) = split_on_first(&entry, '=');
            let key = trimmed(&key_chars, 0, key_chars.len());
            let raw = trimmed(&rest_chars, 0, rest_chars.len());
            assert(key_chars@.subrange(0, key_chars@.len() as int) =~= key_chars@);
            assert(rest_chars@.subrange(0, rest_chars@.len() as int) =~= rest_chars@);
            let value = unquoted(raw);
            parameters.insert(key, value);
        }
        assert(s.skip(scanner.position()) =~= Seq::<char>::empty());
        ParameterizedHeaderValue { value, parameters }
    }
}

/// After skipping blanks from `p1`, the cursor `p2` is where `skip_blanks` of the rest starts.
proof fn skip_blanks_at(s: Seq<char>, p1: int, p2: int)
    requires
        0 <= p1 <= p2 <= s.len(),
        forall|k: int| p1 <= k < p2 ==> (s[k] == ' ' || s[k] == '\t'),
        p2 < s.len() ==> !(s[p2] == ' ' || s[p2] == '\t'),
    ensures
        skip_blanks(s.skip(p1)) == s.skip(p2),
    decreases p2 - p1,
{
    if p1 < p2 {
        assert(s.skip(p1).drop_first() =~= s.skip(p1 + 1));
        skip_blanks_at(s, p1 + 1, p2);
    } else if p2 == s.len() {
        assert(s.skip(p1).len() == 0);
    }
}

fn unquoted(v: String) -> (r: String)
    ensures
        r@ == unquote(v@),
{
    let c = to_chars(v.as_str());
    if c.len() >= 2 && c[0] == '"' && c[c.len() - 1] == '"' {
        crate::text::string_of(&c, 1, c.len() - 1)
    } else {
        v
    }
}

} // verus!

verus! {


/// Headers by name, in order of first appearance.
pub type HttpHeaders = StringMap<HttpHeaderValue>;

/// Parses the `Name: value` lines of a header block.
pub fn parse_header_block(header: &String) -> (r: HttpHeaders)
    ensures
        r.wf(),
        r.mapping() == parse_headers(header@),
{
    let chars = to_chars(header.as_str());
    let ghost s = chars@;
    let mut scanner = VecScanner::new(chars);
    let mut headers: HttpHeaders = StringMap::new();
    let crlf_chars: Vec<char> = vec!['\r', '\n'];
    assert(crlf_chars@ =~= crlf());
    assert(s.skip(0) =~= s);
    assert(headers.mapping() =~= Map::<Seq<char>, Seq<char>>::empty());
    while !scanner.finished()
        invariant
            scanner.input() == s,
            scanner.position() <= s.len(),
            headers.wf(),
            crlf_chars@ == crlf(),
            parse_headers(s) == parse_headers_into(s.skip(scanner.position()), headers.mapping()),
        decreases s.len() - scanner.position(),
    {
        let ghost p0 = scanner.position();
        let ghost t = s.skip(p0);
        let line = scanner.consume_until_pattern(&crlf_chars);
        proof {
            lemma_find_pattern_bounds(t, crlf());
            assert(line@ =~= t.take(find_pattern(t, crlf())));
        }
        scanner.consume_exact(2);
        proof {
            let e = find_pattern(t, crlf());
            assert(t.skip(clamp_add(e, 2, t.len() as int)) =~= s.skip(scanner.position()));
        }
        let (name_chars, value_chars) = split_on_first(&line, ':');
        let name = trimmed(&name_chars, 0, name_chars.len());
        let value = trimmed_start(&value_chars, 0, value_chars.len());
        assert(name_chars@.subrange(0, name_chars@.len() as int) =~= name_chars@);
        assert(value_chars@.subrange(0, value_chars@.len() as int) =~= value_chars@);
        headers.insert(name, HttpHeaderValue::new(value));
    }
    assert(s.skip(scanner.position()) =~= Seq::<char>::empty());
    headers
}

/// Parsing a header block from text.
pub trait HttpHeaderParser: Sized {
    /// `self` is what parsing the text `s` gives.
    spec fn parsed_from(&self, s: Seq<char>) -> bool;

    fn from_string(header: String) -> (r: Self)
        ensures
            r.parsed_from(header@),
    ;
}

impl HttpHeaderParser for StringMap<HttpHeaderValue> {
    open spec fn parsed_from(&self, s: Seq<char>) -> bool {
        self.wf() && self.mapping() == parse_headers(s)
    }

    fn from_string(header: String) -> (r: Self) {
        parse_header_block(&header)
    }
}

/// One header written as a line: `name: value` and CRLF.
pub open spec fn header_line(name: Seq<char>, value: Seq<char>) -> Seq<char> {
    name + seq![':', ' '] + value + crlf()
}

/// The header lines of `entries`, in order.
pub open spec fn serialize_headers(entries: Seq<(Seq<char>, Seq<char>)>) -> Seq<char>
    decreases entries.len(),
{
    if entries.len() == 0 {
        Seq::empty()
    } else {
        header_line(entries[0].0, entries[0].1) + serialize_headers(entries.drop_first())
    }
}

/// Writes the headers as `name: value` lines, each ended by CRLF, in order.
pub fn write_headers(headers: &HttpHeaders) -> (r: String)
    ensures
        r@ == serialize_headers(headers.entries()),
{
    let mut out = String::new();
    let mut i: usize = 0;
    let ghost es = headers.entries();
    assert(es.skip(0) =~= es);
    assert(out@ + serialize_headers(es) =~= serialize_headers(es));
    while i < headers.len()
        invariant
            i <= es.len(),
            es == headers.entries(),
            serialize_headers(es) == out@ + serialize_headers(es.skip(i as int)),
        decreases es.len() - i,
    {
        let (name, value) = headers.entry_at(i);
        let ghost before = out@;
        push_text(&mut out, name.as_str());
        push_char(&mut out, ':');
        push_char(&mut out, ' ');
        push_text(&mut out, value.as_string().as_str());
        push_char(&mut out, '\r');
        push_char(&mut out, '\n');
        assert(es.skip(i as int).drop_first() =~= es.skip(i + 1));
        assert(out@ =~= before + header_line(es[i as int].0, es[i as int].1));
        assert(before + serialize_headers(es.skip(i as int)) =~= out@ + serialize_headers(es.skip(i + 1)));
        i = i + 1;
    }
    assert(es.skip(i as int) =~= Seq::<(Seq<char>, Seq<char>)>::empty());
    assert(out@ + Seq::<char>::empty() =~= out@);
    out
}

/// True when `s` holds a CR immediately followed by an LF.
pub open spec fn has_crlf(s: Seq<char>) -> bool {
    exists|k: int| 0 <= k < s.len() - 1 && #[trigger] s[k] == '\r' && s[k + 1] == '\n'
}

/// A header that writing and parsing keep as it is: the name has no `:` and no
/// surrounding whitespace, the value no leading whitespace, and neither holds a CRLF.
pub open spec fn header_survives(name: Seq<char>, value: Seq<char>) -> bool {
    &&& trim(name) == name
    &&& !name.contains(':')
    &&& !has_crlf(name)
    &&& trim_start(value) == value
    &&& !has_crlf(value)
}

proof fn lemma_trim_start_space(v: Seq<char>)
    requires
        trim_start(v) == v,
    ensures
        trim_start(seq![' '] + v) == v,
{
    assert((seq![' '] + v).drop_first() =~= v);
}

proof fn lemma_parse_one_line(name: Seq<char>, value: Seq<char>, rest: Seq<char>, acc: Map<Seq<char>, Seq<char>>)
    requires
        header_survives(name, value),
    ensures
        parse_headers_into(header_line(name, value) + rest, acc) == parse_headers_into(rest, acc.insert(name, value)),
{
    let line = name + seq![':', ' '] + value;
    let s = header_line(name, value) + rest;
    let n = name.len() as int;
    let l = line.len() as int;
    assert(s.take(l) =~= line);
    assert forall|k: int| 0 <= k < l implies !pattern_at(s, k, crlf()) by {
        if pattern_at(s, k, crlf()) {
            assert(s.subrange(k, k + 2)[0] == '\r');
            assert(s.subrange(k, k + 2)[1] == '\n');
            assert(s[k] == '\r' && s[k + 1] == '\n');
            if k < n - 1 {
                assert(name[k] == s[k] && name[k + 1] == s[k + 1]);
            } else if k == n - 1 {
                assert(s[k + 1] == ':');
            } else if k < n + 2 {
                assert(s[k] == ':' || s[k] == ' ');
            } else if k < l - 1 {
                assert(value[k - n - 2] == s[k] && value[k - n - 1] == s[k + 1]);
            } else {
                assert(s[k + 1] == '\r');
            }
        }
    }
    assert(s.subrange(l, l + 2) =~= crlf());
    lemma_find_pattern_is(s, crlf(), l);
    assert forall|k: int| 0 <= k < n implies line[k] != ':' by {
        assert(line[k] == name[k]);
    }
    lemma_find_value_is(line, ':', n);
    assert(line.take(n) =~= name);
    assert(line.skip(n + 1) =~= seq![' '] + value);
    lemma_trim_start_space(value);
    assert(s.skip(l + 2) =~= rest);
}

/// Parsing what `write_headers` writes gives back the same headers, for every header
/// map whose names have no `:` and no surrounding whitespace, whose values have no
/// leading whitespace, and where no name or value holds a CRLF.
pub proof fn lemma_headers_round_trip(h: HttpHeaders)
    requires
        h.wf(),
        forall|i: int| 0 <= i < h.entries().len() ==> header_survives(#[trigger] h.entries()[i].0, h.entries()[i].1),
    ensures
        parse_headers(serialize_headers(h.entries())) == h.mapping(),
{
    let es = h.entries();
    lemma_round_trip_from(es, 0);
    assert(es.take(0) =~= Seq::<(Seq<char>, Seq<char>)>::empty());
    assert(map_of(es.take(0)) =~= Map::<Seq<char>, Seq<char>>::empty());
    assert(es.skip(0) =~= es);
}

proof fn lemma_round_trip_from(es: Seq<(Seq<char>, Seq<char>)>, i: int)
    requires
        0 <= i <= es.len(),
        forall|j: int| 0 <= j < es.len() ==> header_survives(#[trigger] es[j].0, es[j].1),
    ensures
        parse_headers_into(serialize_headers(es.skip(i)), map_of(es.take(i))) == map_of(es),
    decreases es.len() - i,
{
    if i == es.len() {
        assert(es.take(i) =~= es);
        assert(serialize_headers(es.skip(i)) =~= Seq::<char>::empty());
    } else {
        let t = es.skip(i);
        assert(t[0] == es[i]);
        assert(t.drop_first() =~= es.skip(i + 1));
        lemma_parse_one_line(es[i].0, es[i].1, serialize_headers(es.skip(i + 1)), map_of(es.take(i)));
        assert(es.take(i + 1).drop_last() =~= es.take(i));
        lemma_round_trip_from(es, i + 1);
    }
}

} // verus!
