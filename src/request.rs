//! Requests: the request line, the header block, `Content-Length` framing of the body.
use vstd::prelude::*;
use vstd::utf8::{decode_utf8, encode_scalar, encode_utf8, has_width_1_encoding, valid_utf8};
use crate::headers::{crlf, parse_header_block, parse_headers, primary_value, HttpHeaderValue, HttpHeaders};
use crate::method::{method_name, method_of, HttpMethod};
use crate::scanner::{clamp_add, lemma_position_nonneg, VecScanner};
use crate::seq_search::{find_pattern, find_value, lemma_find_pattern_bounds, lemma_find_value_bounds, pattern_at};
use crate::text::{push_char, string_from_chars, string_from_utf8, to_chars, trim, trimmed};
use crate::uploaded_data::{blank_line_bytes, octet_stream, UploadedData, UploadedDataView};
use crate::uri::URI;

verus! {

broadcast use lemma_position_nonneg;

#[derive(Debug, PartialEq, Eq, Structural, Clone, Copy)]
pub enum HttpRequestParseError {
    UnrecognisedHttpMethod,
    MalformedHeader,
    MalformedRequestLine,
    UnsupportedVersion,
    /// The `Content-Length` value is not a decimal number that fits in `usize`.
    InvalidContentLength,
    /// The message ends before the blank line after the headers, or before the
    /// number of body bytes that `Content-Length` declares.
    IncompleteMessage,
    /// The request line or the headers are not valid UTF-8.
    InvalidEncoding,
}

/// The three space-separated tokens of a request line, when it has exactly three.
pub open spec fn request_line_tokens(t: Seq<char>) -> Option<(Seq<char>, Seq<char>, Seq<char>)> {
    let a = find_value(t, ' ');
    if a >= t.len() {
        None
    } else {
        let r1 = t.skip(a + 1);
        let b = find_value(r1, ' ');
        if b >= r1.len() {
            None
        } else {
            let r2 = r1.skip(b + 1);
            if find_value(r2, ' ') < r2.len() {
                None
            } else {
                Some((t.take(a), r1.take(b), r2))
            }
        }
    }
}

/// The method token of a request line with three tokens.
pub open spec fn line_method(t: Seq<char>) -> Seq<char> {
    match request_line_tokens(t) {
        Some((m, _, _)) => m,
        None => Seq::empty(),
    }
}

/// The request-target token of a request line with three tokens.
pub open spec fn line_target(t: Seq<char>) -> Seq<char> {
    match request_line_tokens(t) {
        Some((_, u, _)) => u,
        None => Seq::empty(),
    }
}

/// The version token of a request line with three tokens.
pub open spec fn line_version(t: Seq<char>) -> Seq<char> {
    match request_line_tokens(t) {
        Some((_, _, v)) => v,
        None => Seq::empty(),
    }
}

/// True when every CRLF-separated line of `s` holds a `:`.
pub open spec fn header_lines_ok(s: Seq<char>) -> bool
    decreases s.len(),
{
    if s.len() == 0 {
        true
    } else {
        let e = find_pattern(s, crlf());
        let rest = s.skip(clamp_add(e, 2, s.len() as int));
        if e < 0 || rest.len() >= s.len() {
            true
        } else {
            s.take(e).contains(':') && header_lines_ok(rest)
        }
    }
}

/// The error, if any, of a request whose request line is `line` and whose header
/// block is `block`.
pub open spec fn head_error(line: Seq<char>, block: Seq<char>) -> Option<HttpRequestParseError> {
    match request_line_tokens(trim(line)) {
        None => Some(HttpRequestParseError::MalformedRequestLine),
        Some((m, _, v)) => if method_of(m) is None {
            Some(HttpRequestParseError::UnrecognisedHttpMethod)
        } else if v != "HTTP/1.1"@ {
            Some(HttpRequestParseError::UnsupportedVersion)
        } else if !header_lines_ok(block) {
            Some(HttpRequestParseError::MalformedHeader)
        } else {
            None
        },
    }
}

pub open spec fn is_digit(c: char) -> bool {
    '0' <= c && c <= '9'
}

/// The number that a string of decimal digits denotes.
pub open spec fn digits_value(d: Seq<char>) -> nat
    decreases d.len(),
{
    if d.len() == 0 {
        0
    } else {
        digits_value(d.drop_last()) * 10 + (d.last() as u32 - '0' as u32) as nat
    }
}

/// `s` without an optional leading `+`.
pub open spec fn unsigned_digits(s: Seq<char>) -> Seq<char> {
    if s.len() > 0 && s[0] == '+' {
        s.drop_first()
    } else {
        s
    }
}

pub open spec fn all_digits(d: Seq<char>) -> bool {
    forall|i: int| 0 <= i < d.len() ==> is_digit(#[trigger] d[i])
}

/// The `usize` that `s` spells in decimal, with an optional leading `+`.
pub open spec fn usize_text_value(s: Seq<char>) -> Option<nat> {
    let d = unsigned_digits(s);
    if d.len() > 0 && all_digits(d) && digits_value(d) <= usize::MAX {
        Some(digits_value(d))
    } else {
        None
    }
}

/// The body length that the headers declare: none without `Content-Length`.
pub open spec fn declared_length(h: Map<Seq<char>, Seq<char>>) -> Result<Option<nat>, HttpRequestParseError> {
    if !h.contains_key("Content-Length"@) {
        Ok(None)
    } else {
        match usize_text_value(primary_value(h["Content-Length"@])) {
            Some(n) => Ok(Some(n)),
            None => Err(HttpRequestParseError::InvalidContentLength),
        }
    }
}

/// The body that the headers `h` give to the bytes `content`.
pub open spec fn body_of(h: Map<Seq<char>, Seq<char>>, content: Seq<u8>) -> UploadedDataView {
    UploadedDataView {
        content_type: if h.contains_key("Content-Type"@) {
            h["Content-Type"@]
        } else {
            octet_stream()
        },
        content_disposition: if h.contains_key("Content-Disposition"@) {
            Some(h["Content-Disposition"@])
        } else {
            None
        },
        bytes: content,
    }
}

pub open spec fn body_view(b: Option<UploadedData>) -> Option<UploadedDataView> {
    match b {
        Some(d) => Some(d@),
        None => None,
    }
}

/// A parsed request.
pub struct HttpRequest {
    pub method: HttpMethod,
    pub uri: URI,
    pub headers: HttpHeaders,
    pub body: Option<UploadedData>,
}

impl HttpRequest {
    /// `self` holds the method, target and headers of a request with request line
    /// `line` and header block `block`, which `head_error` accepts.
    pub open spec fn has_head(&self, line: Seq<char>, block: Seq<char>) -> bool {
        &&& self.method == method_of(line_method(trim(line)))->0
        &&& self.uri.parsed_from(line_target(trim(line)))
        &&& self.headers.wf()
        &&& self.headers.mapping() == parse_headers(block)
    }

    /// Trims a request line and splits it into its method, its parsed target and its
    /// version.
    pub fn deserialize_request_line(request_line: String) -> (r: Result<(HttpMethod, URI, String), HttpRequestParseError>)
        ensures
            request_line_tokens(trim(request_line@)) is None ==> r == Err::<(HttpMethod, URI, String), _>(
                HttpRequestParseError::MalformedRequestLine,
            ),
            request_line_tokens(trim(request_line@)) is Some && method_of(line_method(trim(request_line@))) is None
                ==> r == Err::<(HttpMethod, URI, String), _>(HttpRequestParseError::UnrecognisedHttpMethod),
            request_line_tokens(trim(request_line@)) is Some && method_of(line_method(trim(request_line@))) is Some
                ==> r is Ok && r->Ok_0.0 == method_of(line_method(trim(request_line@)))->0
                && r->Ok_0.1.parsed_from(line_target(trim(request_line@)))
                && r->Ok_0.2@ == line_version(trim(request_line@)),
    {
        let raw = to_chars(request_line.as_str());
        let trimmed_line = trimmed(&raw, 0, raw.len());
        assert(raw@.subrange(0, raw@.len() as int) =~= raw@);
        let chars = to_chars(trimmed_line.as_str());
        let ghost t = chars@;
        let mut scanner = VecScanner::new(chars);
        assert(t.skip(0) =~= t);
        let method_token = scanner.consume_until_value(' ');
        proof {
            lemma_find_value_bounds(t, ' ');
        }
        if scanner.finished() {
            return Err(HttpRequestParseError::MalformedRequestLine);
        }
        scanner.consume_exact(1);
        let ghost r1 = t.skip(find_value(t, ' ') + 1);
        assert(t.skip(scanner.position()) =~= r1);
        let target = scanner.consume_until_value(' ');
        proof {
            lemma_find_value_bounds(r1, ' ');
        }
        if scanner.finished() {
            return Err(HttpRequestParseError::MalformedRequestLine);
        }
        scanner.consume_exact(1);
        let ghost r2 = r1.skip(find_value(r1, ' ') + 1);
        assert(t.skip(scanner.position()) =~= r2);
        let version = scanner.consume_until_value(' ');
        proof {
            lemma_find_value_bounds(r2, ' ');
        }
        if !scanner.finished() {
            return Err(HttpRequestParseError::MalformedRequestLine);
        }
        assert(method_token@ =~= t.take(find_value(t, ' ')));
        assert(target@ =~= r1.take(find_value(r1, ' ')));
        assert(version@ =~= r2);
        let uri = URI::from_string(string_from_chars(&target));
        match HttpMethod::from_string(string_from_chars(&method_token)) {
            Ok(method) => Ok((method, uri, string_from_chars(&version))),
            Err(_) => Err(HttpRequestParseError::UnrecognisedHttpMethod),
        }
    }
}

fn check_header_lines(block: &String) -> (r: bool)
    ensures
        r == header_lines_ok(block@),
{
    let chars = to_chars(block.as_str());
    let ghost s = chars@;
    let mut scanner = VecScanner::new(chars);
    let crlf_chars: Vec<char> = vec!['\r', '\n'];
    assert(crlf_chars@ =~= crlf());
    assert(s.skip(0) =~= s);
    while !scanner.finished()
        invariant
            s == block@,
            scanner.input() == s,
            scanner.position() <= s.len(),
            crlf_chars@ == crlf(),
            header_lines_ok(s) == header_lines_ok(s.skip(scanner.position())),
        decreases s.len() - scanner.position(),
    {
        let ghost t = s.skip(scanner.position());
        let line = scanner.consume_until_pattern(&crlf_chars);
        proof {
            lemma_find_pattern_bounds(t, crlf());
            assert(line@ =~= t.take(find_pattern(t, crlf())));
        }
        scanner.consume_exact(2);
        assert(t.skip(clamp_add(find_pattern(t, crlf()), 2, t.len() as int)) =~= s.skip(scanner.position()));
        let ghost lv = line@;
        let ghost rest = t.skip(clamp_add(find_pattern(t, crlf()), 2, t.len() as int));
        assert(rest.len() < t.len());
        let mut sc = VecScanner::new(line);
        assert(lv.skip(0) =~= lv);
        let before = sc.consume_until_value(':');
        proof {
            lemma_find_value_bounds(lv, ':');
        }
        if sc.finished() {
            assert(!lv.contains(':')) by {
                if lv.contains(':') {
                    let k = choose|k: int| 0 <= k < lv.len() && lv[k] == ':';
                    assert(lv[k] != ':');
                }
            }
            assert(!header_lines_ok(t));
            return false;
        }
        assert(lv[find_value(lv, ':')] == ':');
        assert(lv.contains(':'));
    }
    assert(s.skip(scanner.position()) =~= Seq::<char>::empty());
    true
}

} // verus!

verus! {

proof fn lemma_digits_value_prefix(d: Seq<char>, i: int)
    requires
        0 <= i <= d.len(),
        forall|k: int| 0 <= k < d.len() ==> is_digit(#[trigger] d[k]),
    ensures
        digits_value(d.take(i)) <= digits_value(d),
    decreases d.len() - i,
{
    if i < d.len() {
        lemma_digits_value_prefix(d, i + 1);
        assert(d.take(i + 1).drop_last() =~= d.take(i));
        let v = digits_value(d.take(i));
        assert(v <= v * 10) by (nonlinear_arith);
    } else {
        assert(d.take(i) =~= d);
    }
}

/// Reads a decimal `usize` with an optional leading `+`.
pub fn parse_usize(s: &Vec<char>) -> (r: Option<usize>)
    ensures
        r is Some <==> usize_text_value(s@) is Some,
        r is Some ==> r->0 == usize_text_value(s@)->0,
{
    let start: usize = if s.len() > 0 && s[0] == '+' { 1 } else { 0 };
    let ghost d = s@.skip(start as int);
    assert(d =~= unsigned_digits(s@));
    if start >= s.len() {
        return None;
    }
    let mut acc: usize = 0;
    let mut i: usize = start;
    while i < s.len()
        invariant
            start <= i <= s@.len(),
            d == s@.skip(start as int),
            d == unsigned_digits(s@),
            d.len() > 0,
            forall|k: int| 0 <= k < i - start ==> is_digit(#[trigger] d[k]),
            acc == digits_value(d.take(i - start)),
        decreases s@.len() - i,
    {
        let c = s[i];
        if !('0' <= c && c <= '9') {
            assert(!is_digit(d[i - start]));
            assert(!all_digits(d));
            assert(usize_text_value(s@) is None);
            return None;
        }
        let digit = (c as u32 - '0' as u32) as usize;
        assert(d.take(i - start + 1).drop_last() =~= d.take(i - start));
        if acc > (usize::MAX - digit) / 10 {
            proof {
                assert(acc * 10 + digit > usize::MAX) by (nonlinear_arith)
                    requires
                        acc > (usize::MAX - digit) / 10,
                        digit <= 9,
                ;
                assert(is_digit(d[i - start]));
                assert(digits_value(d.take(i - start + 1)) == acc * 10 + digit);
                if all_digits(d) {
                    lemma_digits_value_prefix(d, i - start + 1);
                }
                assert(usize_text_value(s@) is None);
            }
            return None;
        }
        assert(acc * 10 + digit <= usize::MAX) by (nonlinear_arith)
            requires
                acc <= (usize::MAX - digit) / 10,
                digit <= 9,
        ;
        acc = acc * 10 + digit;
        i = i + 1;
    }
    assert(d.take(i - start) =~= d);
    Some(acc)
}

fn copy_value(v: &HttpHeaderValue) -> (r: HttpHeaderValue)
    ensures
        r@ == v@,
{
    HttpHeaderValue::new(v.as_string().clone())
}

impl HttpRequest {
    /// Parses a request from its request line and its header block (the header lines,
    /// each ended by CRLF, without the blank line); the request has no body yet.
    pub fn parse_head(request_line: &String, header_block: &String) -> (r: Result<HttpRequest, HttpRequestParseError>)
        ensures
            head_error(request_line@, header_block@) is Some ==> r == Err::<HttpRequest, _>(
                head_error(request_line@, header_block@)->0,
            ),
            head_error(request_line@, header_block@) is None ==> r is Ok && r->Ok_0.has_head(
                request_line@,
                header_block@,
            ) && r->Ok_0.body is None,
    {
        let (method, uri, version) = match Self::deserialize_request_line(request_line.clone()) {
            Ok(parts) => parts,
            Err(e) => return Err(e),
        };
        if !crate::text::same_text(version.as_str(), "HTTP/1.1") {
            return Err(HttpRequestParseError::UnsupportedVersion);
        }
        if !check_header_lines(header_block) {
            return Err(HttpRequestParseError::MalformedHeader);
        }
        let headers = parse_header_block(header_block);
        Ok(HttpRequest { method, uri, headers, body: None })
    }

    /// The body length that the `Content-Length` header declares, if there is one.
    pub fn content_length(&self) -> (r: Result<Option<usize>, HttpRequestParseError>)
        requires
            self.headers.wf(),
        ensures
            declared_length(self.headers.mapping()) is Err ==> r == Err::<Option<usize>, _>(
                HttpRequestParseError::InvalidContentLength,
            ),
            declared_length(self.headers.mapping()) == Ok::<Option<nat>, HttpRequestParseError>(None)
                ==> r == Ok::<Option<usize>, HttpRequestParseError>(None),
            declared_length(self.headers.mapping()) is Ok && declared_length(self.headers.mapping())->Ok_0 is Some
                ==> r is Ok && r->Ok_0 is Some && r->Ok_0->0 == declared_length(self.headers.mapping())->Ok_0->0,
    {
        match self.headers.get("Content-Length") {
            None => Ok(None),
            Some(v) => {
                let p = v.as_parameterized_header_value();
                let digits = to_chars(p.value.as_str());
                match parse_usize(&digits) {
                    Some(n) => Ok(Some(n)),
                    None => Err(HttpRequestParseError::InvalidContentLength),
                }
            },
        }
    }

    /// Attaches `body`.
    pub fn set_body(&mut self, body: UploadedData)
        ensures
            final(self).method == old(self).method,
            final(self).uri == old(self).uri,
            final(self).headers == old(self).headers,
            body_view(final(self).body) == Some(body@),
    {
        self.body = Some(body);
    }

    /// Attaches `content` as the body, with the declared `Content-Type` (by default
    /// `application/octet-stream`) and `Content-Disposition`.
    pub fn attach_body(&mut self, content: Vec<u8>)
        requires
            old(self).headers.wf(),
        ensures
            final(self).method == old(self).method,
            final(self).uri == old(self).uri,
            final(self).headers == old(self).headers,
            body_view(final(self).body) == Some(body_of(old(self).headers.mapping(), content@)),
    {
        let content_type = match self.headers.get("Content-Type") {
            Some(v) => copy_value(v),
            None => HttpHeaderValue::new(String::from_str("application/octet-stream")),
        };
        let content_disposition = match self.headers.get("Content-Disposition") {
            Some(v) => Some(copy_value(v)),
            None => None,
        };
        let body = UploadedData::new(content_type, content_disposition, content);
        self.set_body(body);
    }
}

} // verus!

verus! {

/// Where the header section of a message ends: the first blank line.
pub open spec fn head_end(b: Seq<u8>) -> int {
    find_pattern(b, blank_line_bytes())
}

/// The text of a message's head (request line and headers).
pub open spec fn head_text(b: Seq<u8>) -> Seq<char> {
    decode_utf8(b.take(head_end(b)))
}

/// The request line of a head: everything before the first CRLF.
pub open spec fn request_line_of(text: Seq<char>) -> Seq<char> {
    text.take(find_pattern(text, crlf()))
}

/// The header block of a head: everything after the first CRLF.
pub open spec fn header_block_of(text: Seq<char>) -> Seq<char> {
    text.skip(clamp_add(find_pattern(text, crlf()), 2, text.len() as int))
}

/// The error, if any, of parsing the whole message `b`.
pub open spec fn message_error(b: Seq<u8>) -> Option<HttpRequestParseError> {
    let h = head_end(b);
    if h >= b.len() {
        Some(HttpRequestParseError::IncompleteMessage)
    } else if !valid_utf8(b.take(h)) {
        Some(HttpRequestParseError::InvalidEncoding)
    } else {
        let line = request_line_of(head_text(b));
        let block = header_block_of(head_text(b));
        if head_error(line, block) is Some {
            head_error(line, block)
        } else {
            match declared_length(parse_headers(block)) {
                Err(e) => Some(e),
                Ok(None) => None,
                Ok(Some(n)) => if h + 4 + n > b.len() {
                    Some(HttpRequestParseError::IncompleteMessage)
                } else {
                    None
                },
            }
        }
    }
}

/// The body of the message `b`, when `message_error` accepts it.
pub open spec fn message_body(b: Seq<u8>) -> Option<UploadedDataView> {
    let h = head_end(b);
    let headers = parse_headers(header_block_of(head_text(b)));
    match declared_length(headers) {
        Ok(Some(n)) => Some(body_of(headers, b.subrange(h + 4, h + 4 + n))),
        _ => None,
    }
}

impl HttpRequest {
    /// Parses a whole message held in memory: the head up to the first blank line,
    /// then exactly `Content-Length` body bytes when that header is present (bytes
    /// after them are ignored). A message shorter than it declares is incomplete.
    pub fn from_bytes(bytes: &Vec<u8>) -> (r: Result<HttpRequest, HttpRequestParseError>)
        ensures
            message_error(bytes@) is Some ==> r == Err::<HttpRequest, _>(message_error(bytes@)->0),
            message_error(bytes@) is None ==> r is Ok && r->Ok_0.has_head(
                request_line_of(head_text(bytes@)),
                header_block_of(head_text(bytes@)),
            ) && body_view(r->Ok_0.body) == message_body(bytes@),
    {
        let ghost b = bytes@;
        let blank: Vec<u8> = vec![13u8, 10u8, 13u8, 10u8];
        assert(blank@ =~= blank_line_bytes());
        let mut scanner = VecScanner::new(bytes.clone());
        assert(b.skip(0) =~= b);
        let head = scanner.consume_until_pattern(&blank);
        proof {
            lemma_find_pattern_bounds(b, blank_line_bytes());
        }
        if scanner.finished() {
            return Err(HttpRequestParseError::IncompleteMessage);
        }
        scanner.consume_exact(4);
        assert(head@ =~= b.take(head_end(b)));
        let text = match string_from_utf8(head) {
            Some(t) => t,
            None => return Err(HttpRequestParseError::InvalidEncoding),
        };
        let chars = to_chars(text.as_str());
        let ghost tx = chars@;
        let mut text_scanner = VecScanner::new(chars);
        let crlf_chars: Vec<char> = vec!['\r', '\n'];
        assert(crlf_chars@ =~= crlf());
        assert(tx.skip(0) =~= tx);
        let line_chars = text_scanner.consume_until_pattern(&crlf_chars);
        proof {
            lemma_find_pattern_bounds(tx, crlf());
        }
        text_scanner.consume_exact(2);
        let block_chars = text_scanner.consume_rest();
        assert(line_chars@ =~= request_line_of(tx));
        assert(block_chars@ =~= header_block_of(tx));
        let line = string_from_chars(&line_chars);
        let block = string_from_chars(&block_chars);
        let mut request = match Self::parse_head(&line, &block) {
            Ok(req) => req,
            Err(e) => return Err(e),
        };
        match request.content_length() {
            Err(e) => Err(e),
            Ok(None) => Ok(request),
            Ok(Some(n)) => {
                if n > scanner.remaining() {
                    return Err(HttpRequestParseError::IncompleteMessage);
                }
                let content = scanner.consume_exact(n);
                request.attach_body(content);
                Ok(request)
            },
        }
    }

    /// Parses a request from its lines: the request line first, then header lines up
    /// to the first empty line (or the end). A header line without `:` is malformed.
    pub fn deserialize_header(request_lines: Vec<String>) -> (r: Result<HttpRequest, HttpRequestParseError>)
        ensures
            head_error(first_line(request_lines@), joined_header_lines(request_lines@)) is Some ==> r
                == Err::<HttpRequest, _>(head_error(first_line(request_lines@), joined_header_lines(request_lines@))->0),
            head_error(first_line(request_lines@), joined_header_lines(request_lines@)) is None ==> r is Ok
                && r->Ok_0.has_head(first_line(request_lines@), joined_header_lines(request_lines@))
                && r->Ok_0.body is None,
    {
        let mut scanner = crate::scanner::LineScanner::new(request_lines);
        let ghost lines = request_lines@;
        let line = match scanner.consume() {
            Some(l) => l,
            None => String::new(),
        };
        let mut block = String::new();
        let ghost mut k: int = 1;
        assert(block@ =~= join_lines(lines, 1, 1));
        loop
            invariant_except_break
                lines.len() > 0 ==> scanner.position() == k,
                lines.len() == 0 ==> scanner.position() == 0,
            invariant
                scanner.lines() == lines,
                1 <= k <= lines.len() || (lines.len() == 0 && k == 1),
                forall|j: int| 1 <= j < k ==> lines[j]@.len() != 0,
                block@ == join_lines(lines, 1, k),
                line@ == first_line(lines),
            ensures
                header_end_index(lines) == k,
            decreases lines.len() + 1 - scanner.position(),
        {
            let next = scanner.consume();
            match next {
                None => {
                    proof {
                        lemma_header_end_is(lines, k);
                    }
                    break;
                },
                Some(l) => {
                    if l.as_str().is_empty() {
                        proof {
                            lemma_header_end_is(lines, k);
                        }
                        break;
                    }
                    crate::text::push_text(&mut block, l.as_str());
                    push_char(&mut block, '\r');
                    push_char(&mut block, '\n');
                    proof {
                        assert(block@ =~= join_lines(lines, 1, k + 1));
                        k = k + 1;
                    }
                },
            }
        }
        Self::parse_head(&line, &block)
    }
}

/// The first line of a list of lines, empty when there is none.
pub open spec fn first_line(lines: Seq<String>) -> Seq<char> {
    if lines.len() > 0 {
        lines[0]@
    } else {
        Seq::empty()
    }
}

/// The lines `lines[from..to]`, each followed by CRLF.
pub open spec fn join_lines(lines: Seq<String>, from: int, to: int) -> Seq<char>
    decreases to - from,
{
    if to <= from {
        Seq::empty()
    } else {
        join_lines(lines, from, to - 1) + lines[to - 1]@ + crlf()
    }
}

/// Index of the first empty line after the request line, or the number of lines.
pub open spec fn header_end_index(lines: Seq<String>) -> int
    decreases lines.len(),
{
    if lines.len() <= 1 {
        1
    } else if lines.last()@.len() == 0 && header_end_index(lines.drop_last()) >= lines.len() - 1 {
        lines.len() - 1
    } else if header_end_index(lines.drop_last()) < lines.len() - 1 {
        header_end_index(lines.drop_last())
    } else {
        lines.len() as int
    }
}

/// The header lines of a list of lines (up to the first empty one), each followed by CRLF.
pub open spec fn joined_header_lines(lines: Seq<String>) -> Seq<char> {
    join_lines(lines, 1, header_end_index(lines))
}

proof fn lemma_header_end_is(lines: Seq<String>, k: int)
    requires
        1 <= k,
        k <= lines.len() || (lines.len() == 0 && k == 1),
        forall|j: int| 1 <= j < k ==> lines[j]@.len() != 0,
        k < lines.len() ==> lines[k]@.len() == 0,
    ensures
        header_end_index(lines) == k,
    decreases lines.len(),
{
    if lines.len() > 1 {
        if k < lines.len() - 1 {
            lemma_header_end_is(lines.drop_last(), k);
        } else if k == lines.len() - 1 {
            lemma_header_end_is(lines.drop_last(), k);
        } else {
            lemma_header_end_is(lines.drop_last(), k - 1);
        }
    }
}

} // verus!

verus! {

/// A request line made of a method, a target and the version, separated by spaces.
pub open spec fn request_line_text(m: HttpMethod, target: Seq<char>) -> Seq<char> {
    method_name(m) + seq![' '] + target + seq![' '] + "HTTP/1.1"@
}

/// Every request line of three space-separated tokens with a known method and the
/// version `HTTP/1.1` is accepted, and yields that method and the target's path.
pub proof fn lemma_request_line_accepted(m: HttpMethod, target: Seq<char>)
    requires
        !target.contains(' '),
    ensures
        trim(request_line_text(m, target) + crlf()) == request_line_text(m, target),
        trim(request_line_text(m, target)) == request_line_text(m, target),
        head_error(request_line_text(m, target), Seq::empty()) is None,
        head_error(request_line_text(m, target) + crlf(), Seq::empty()) is None,
        method_of(line_method(request_line_text(m, target))) == Some(m),
        line_target(request_line_text(m, target)) == target,
        line_version(request_line_text(m, target)) == "HTTP/1.1"@,
        parse_headers(Seq::empty()) == Map::<Seq<char>, Seq<char>>::empty(),
        !target.contains('?') && !target.contains('#') ==> crate::uri::target_path(target) == target
            && crate::uri::target_query(target) is None,
{
    reveal_strlit("GET");
    reveal_strlit("POST");
    reveal_strlit("HTTP/1.1");
    let name = method_name(m);
    let line = request_line_text(m, target);
    let version = "HTTP/1.1"@;
    assert(name.len() >= 3 && name[0] != ' ' && !name.contains(' ')) by {
        if name.contains(' ') {
            let k = choose|k: int| 0 <= k < name.len() && name[k] == ' ';
        }
    }
    assert(!crate::text::is_space(line[0]));
    assert(line.last() == '1');
    assert(crate::text::trim(line) == line);
    let lc = line + crlf();
    assert(lc.drop_last() =~= line + seq!['\r']);
    assert((line + seq!['\r']).drop_last() =~= line);
    assert(lc.last() == '\n' && crate::text::is_space(lc.last()));
    assert(crate::text::trim_end(lc) == crate::text::trim_end(line + seq!['\r']));
    assert((line + seq!['\r']).last() == '\r');
    assert(crate::text::trim_end(line + seq!['\r']) == crate::text::trim_end(line));
    assert(crate::text::trim_end(lc) == crate::text::trim_end(line));
    assert(lc[0] == line[0]);
    assert(crate::text::trim_start(lc) == lc);
    assert(crate::text::trim(lc) == line);
    let n = name.len() as int;
    assert forall|k: int| 0 <= k < n implies line[k] != ' ' by {
        assert(line[k] == name[k]);
    }
    crate::seq_search::lemma_find_value_is(line, ' ', n);
    let r1 = line.skip(n + 1);
    assert(r1 =~= target + seq![' '] + version);
    assert forall|k: int| 0 <= k < target.len() implies r1[k] != ' ' by {
        assert(r1[k] == target[k]);
    }
    crate::seq_search::lemma_find_value_is(r1, ' ', target.len() as int);
    let r2 = r1.skip(target.len() as int + 1);
    assert(r2 =~= version);
    crate::seq_search::lemma_find_value_is(r2, ' ', r2.len() as int);
    assert(line.take(n) =~= name);
    assert(r1.take(target.len() as int) =~= target);
    assert(header_lines_ok(Seq::<char>::empty()));
    if !target.contains('?') && !target.contains('#') {
        assert forall|k: int| 0 <= k < target.len() implies !(target[k] == '?' || target[k] == '#') by {}
        crate::uri::lemma_path_end_is(target, target.len() as int);
        assert(target.take(target.len() as int) =~= target);
    }
}

} // verus!

verus! {

proof fn lemma_scalar_has_no_cr(c: char)
    requires
        c != '\r',
    ensures
        forall|k: int| 0 <= k < encode_scalar(c as u32).len() ==> #[trigger] encode_scalar(c as u32)[k] != 13u8,
{
    let v = c as u32;
    vstd::utf8::char_u32_cast(c, v);
    if has_width_1_encoding(v) {
        assert((v & 0x7F) == v) by (bit_vector)
            requires
                v <= 0x7F,
        ;
        assert(v != 13u32);
    } else {
        let a = ((v >> 6) & 0x1F) as u8;
        let b = ((v >> 12) & 0x0F) as u8;
        let d = ((v >> 18) & 0x7) as u8;
        let e = (v & 0x3F) as u8;
        let f = ((v >> 6) & 0x3F) as u8;
        let g = ((v >> 12) & 0x3F) as u8;
        assert((0xC0u8 | a) != 13u8) by (bit_vector);
        assert((0xE0u8 | b) != 13u8) by (bit_vector);
        assert((0xF0u8 | d) != 13u8) by (bit_vector);
        assert((0x80u8 | e) != 13u8) by (bit_vector);
        assert((0x80u8 | f) != 13u8) by (bit_vector);
        assert((0x80u8 | g) != 13u8) by (bit_vector);
    }
}

/// Text without a CR encodes to bytes without the byte 13.
proof fn lemma_encoding_has_no_cr(s: Seq<char>)
    requires
        !s.contains('\r'),
    ensures
        forall|k: int| 0 <= k < encode_utf8(s).len() ==> #[trigger] encode_utf8(s)[k] != 13u8,
    decreases s.len(),
{
    if s.len() > 0 {
        assert(s[0] != '\r');
        lemma_scalar_has_no_cr(s[0]);
        assert(!s.drop_first().contains('\r')) by {
            if s.drop_first().contains('\r') {
                let k = choose|k: int| 0 <= k < s.drop_first().len() && s.drop_first()[k] == '\r';
                assert(s[k + 1] == '\r');
            }
        }
        lemma_encoding_has_no_cr(s.drop_first());
        let x = encode_scalar(s[0] as u32);
        let y = encode_utf8(s.drop_first());
        assert forall|k: int| 0 <= k < encode_utf8(s).len() implies encode_utf8(s)[k] != 13u8 by {
            if k < x.len() {
                assert(encode_utf8(s)[k] == x[k]);
            } else {
                assert(encode_utf8(s)[k] == y[k - x.len()]);
            }
        }
    }
}

/// A whole message made of a request line with a known method, a target without
/// spaces, CR, `?` or `#`, and the version `HTTP/1.1`, then a blank line, is accepted:
/// it has that method, the target as its path, no query, no headers and no body.
pub proof fn lemma_simple_message_accepted(m: HttpMethod, target: Seq<char>)
    requires
        !target.contains(' '),
        !target.contains('\r'),
        !target.contains('?'),
        !target.contains('#'),
    ensures
        message_error(encode_utf8(request_line_text(m, target)) + blank_line_bytes()) is None,
        request_line_of(head_text(encode_utf8(request_line_text(m, target)) + blank_line_bytes()))
            == request_line_text(m, target),
        header_block_of(head_text(encode_utf8(request_line_text(m, target)) + blank_line_bytes()))
            == Seq::<char>::empty(),
        message_body(encode_utf8(request_line_text(m, target)) + blank_line_bytes()) is None,
        method_of(line_method(trim(request_line_text(m, target)))) == Some(m),
        line_target(trim(request_line_text(m, target))) == target,
        crate::uri::target_path(target) == target,
        crate::uri::target_query(target) is None,
        parse_headers(Seq::empty()) == Map::<Seq<char>, Seq<char>>::empty(),
{
    reveal_strlit("GET");
    reveal_strlit("POST");
    reveal_strlit("HTTP/1.1");
    lemma_request_line_accepted(m, target);
    let line = request_line_text(m, target);
    let e = encode_utf8(line);
    let b = e + blank_line_bytes();
    assert(!line.contains('\r')) by {
        if line.contains('\r') {
            let k = choose|k: int| 0 <= k < line.len() && line[k] == '\r';
            let n = method_name(m).len() as int;
            if k < n {
                assert(method_name(m)[k] == '\r');
            } else if k == n {
            } else if k < n + 1 + target.len() {
                assert(target[k - n - 1] == '\r');
            } else if k == n + 1 + target.len() {
            } else {
                assert("HTTP/1.1"@[k - n - 2 - target.len()] == '\r');
            }
        }
    }
    lemma_encoding_has_no_cr(line);
    assert forall|k: int| 0 <= k < e.len() implies !pattern_at(b, k, blank_line_bytes()) by {
        if pattern_at(b, k, blank_line_bytes()) {
            assert(b.subrange(k, k + 4)[0] == 13u8);
            assert(b[k] == e[k]);
        }
    }
    assert(b.subrange(e.len() as int, e.len() as int + 4) =~= blank_line_bytes());
    crate::seq_search::lemma_find_pattern_is(b, blank_line_bytes(), e.len() as int);
    assert(b.take(e.len() as int) =~= e);
    vstd::utf8::encode_utf8_valid_utf8(line);
    vstd::utf8::encode_utf8_decode_utf8(line);
    assert(head_text(b) == line);
    assert forall|k: int| 0 <= k <= line.len() implies !pattern_at(line, k, crlf()) by {
        if pattern_at(line, k, crlf()) {
            assert(line.subrange(k, k + 2)[0] == '\r');
            assert(line[k] == '\r');
        }
    }
    crate::seq_search::lemma_find_pattern_is(line, crlf(), line.len() as int);
    assert(line.take(line.len() as int) =~= line);
    assert(line.skip(line.len() as int) =~= Seq::<char>::empty());
    assert(parse_headers(Seq::<char>::empty()) =~= Map::<Seq<char>, Seq<char>>::empty());
    assert(!parse_headers(Seq::<char>::empty()).contains_key("Content-Length"@));
}

} // verus!
