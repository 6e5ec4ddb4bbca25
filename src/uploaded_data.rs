//! Uploaded bodies and their typed views: text, multipart form data, raw bytes.
use vstd::prelude::*;
use vstd::utf8::{decode_utf8, encode_utf8, valid_utf8};
use crate::headers::{
    header_parameters, parse_header_block, parse_headers, primary_value, HttpHeaderValue,
};
use crate::scanner::{clamp_add, lemma_position_nonneg, VecScanner};
use crate::seq_search::{find_pattern, lemma_find_pattern_bounds};
use crate::string_map::StringMap;
use crate::text::{same_text, string_from_utf8, to_chars, trim, trimmed};

verus! {

broadcast use lemma_position_nonneg;

#[derive(Debug, PartialEq, Eq, Structural, Clone, Copy)]
pub enum UploadedDataParsingError {
    InvalidMimeType,
    InvalidContentDispositionHeader,
    InvalidEncoding,
}

/// What an `UploadedData` holds.
pub struct UploadedDataView {
    pub content_type: Seq<char>,
    pub content_disposition: Option<Seq<char>>,
    pub bytes: Seq<u8>,
}

/// Raw bytes with their declared content type and optional content disposition.
pub struct UploadedData {
    content_type: HttpHeaderValue,
    content_disposition: Option<HttpHeaderValue>,
    underlying: Vec<u8>,
}

pub open spec fn opt_view(o: Option<HttpHeaderValue>) -> Option<Seq<char>> {
    match o {
        Some(v) => Some(v@),
        None => None,
    }
}

impl View for UploadedData {
    type V = UploadedDataView;

    closed spec fn view(&self) -> UploadedDataView {
        UploadedDataView {
            content_type: self.content_type@,
            content_disposition: opt_view(self.content_disposition),
            bytes: self.underlying@,
        }
    }
}

pub open spec fn dash_dash() -> Seq<u8> {
    seq![45u8, 45u8]
}

pub open spec fn crlf_bytes() -> Seq<u8> {
    seq![13u8, 10u8]
}

pub open spec fn blank_line_bytes() -> Seq<u8> {
    seq![13u8, 10u8, 13u8, 10u8]
}

pub open spec fn octet_stream() -> Seq<char> {
    "application/octet-stream"@
}

/// The parts of a multipart body from byte `pos` on, added to `acc`, where `delim` is
/// `--` followed by the boundary.
pub open spec fn parts_from(
    body: Seq<u8>,
    delim: Seq<u8>,
    pos: int,
    acc: Map<Seq<char>, UploadedDataView>,
) -> Result<Map<Seq<char>, UploadedDataView>, UploadedDataParsingError>
    decreases body.len() - pos,
{
    let rest = body.skip(pos);
    if pos < 0 || pos > body.len() {
        Err(UploadedDataParsingError::InvalidContentDispositionHeader)
    } else if rest.len() >= 2 && rest.take(2) == dash_dash() {
        Ok(acc)
    } else if pos == body.len() {
        Err(UploadedDataParsingError::InvalidContentDispositionHeader)
    } else {
        let h = find_pattern(rest, blank_line_bytes());
        let header_bytes = rest.take(h);
        if !valid_utf8(header_bytes) {
            Err(UploadedDataParsingError::InvalidEncoding)
        } else {
            let hm = parse_headers(trim(decode_utf8(header_bytes)));
            if !hm.contains_key("Content-Disposition"@) {
                Err(UploadedDataParsingError::InvalidContentDispositionHeader)
            } else {
                let cd = hm["Content-Disposition"@];
                let params = header_parameters(cd);
                if !params.contains_key("name"@) {
                    Err(UploadedDataParsingError::InvalidContentDispositionHeader)
                } else {
                    let ct = if hm.contains_key("Content-Type"@) {
                        hm["Content-Type"@]
                    } else {
                        octet_stream()
                    };
                    let p1 = clamp_add(pos + h, 4, body.len() as int);
                    let end = p1 + find_pattern(body.skip(p1), crlf_bytes() + delim);
                    let p2 = clamp_add(clamp_add(end, delim.len() as int, body.len() as int), 2, body.len() as int);
                    let part = UploadedDataView {
                        content_type: ct,
                        content_disposition: Some(cd),
                        bytes: body.subrange(p1, end),
                    };
                    if p2 <= pos {
                        Err(UploadedDataParsingError::InvalidContentDispositionHeader)
                    } else {
                        parts_from(body, delim, p2, acc.insert(params["name"@], part))
                    }
                }
            }
        }
    }
}

/// The named parts of a body whose content type is `content_type`: the type must be
/// `multipart/form-data` with a `boundary` parameter.
pub open spec fn multipart_parts(content_type: Seq<char>, body: Seq<u8>) -> Result<
    Map<Seq<char>, UploadedDataView>,
    UploadedDataParsingError,
> {
    let params = header_parameters(content_type);
    if primary_value(content_type) != "multipart/form-data"@ || !params.contains_key("boundary"@) {
        Err(UploadedDataParsingError::InvalidMimeType)
    } else {
        let delim = dash_dash() + encode_utf8(params["boundary"@]);
        let first = find_pattern(body, delim + crlf_bytes());
        if first >= body.len() {
            Ok(Map::empty())
        } else {
            parts_from(body, delim, first + delim.len() + 2, Map::empty())
        }
    }
}

fn bytes_of(s: &String) -> (r: Vec<u8>)
    ensures
        r@ == encode_utf8(s@),
{
    let b = s.as_str().as_bytes();
    let mut v: Vec<u8> = Vec::new();
    let mut i: usize = 0;
    while i < b.len()
        invariant
            i <= b@.len(),
            v@ == b@.take(i as int),
        decreases b@.len() - i,
    {
        v.push(b[i]);
        assert(b@.take(i + 1) =~= b@.take(i as int).push(b@[i as int]));
        i = i + 1;
    }
    assert(b@.take(i as int) =~= b@);
    v
}

fn copy_header(v: &HttpHeaderValue) -> (r: HttpHeaderValue)
    ensures
        r@ == v@,
{
    HttpHeaderValue::new(v.as_string().clone())
}

impl UploadedData {
    pub fn new(
        content_type: HttpHeaderValue,
        content_disposition: Option<HttpHeaderValue>,
        underlying: Vec<u8>,
    ) -> (r: Self)
        ensures
            r@.content_type == content_type@,
            r@.content_disposition == opt_view(content_disposition),
            r@.bytes == underlying@,
    {
        UploadedData { content_type, content_disposition, underlying }
    }

    pub fn content_type(&self) -> (r: &HttpHeaderValue)
        ensures
            r@ == self@.content_type,
    {
        &self.content_type
    }

    pub fn content_disposition(&self) -> (r: Option<&HttpHeaderValue>)
        ensures
            r is Some <==> self@.content_disposition is Some,
            r is Some ==> r->0@ == self@.content_disposition->0,
    {
        match &self.content_disposition {
            Some(v) => Some(v),
            None => None,
        }
    }

    /// The body as text, when its content type is `text/plain` and it is valid UTF-8.
    pub fn as_text(&self) -> (r: Result<String, UploadedDataParsingError>)
        ensures
            primary_value(self@.content_type) != "text/plain"@ ==> r == Err::<String, _>(
                UploadedDataParsingError::InvalidMimeType,
            ),
            primary_value(self@.content_type) == "text/plain"@ && !valid_utf8(self@.bytes) ==> r
                == Err::<String, _>(UploadedDataParsingError::InvalidEncoding),
            primary_value(self@.content_type) == "text/plain"@ && valid_utf8(self@.bytes) ==> r is Ok
                && r->Ok_0@ == decode_utf8(self@.bytes),
    {
        let p = self.content_type.as_parameterized_header_value();
        if !same_text(p.value.as_str(), "text/plain") {
            return Err(UploadedDataParsingError::InvalidMimeType);
        }
        match string_from_utf8(self.underlying.clone()) {
            Some(s) => Ok(s),
            None => Err(UploadedDataParsingError::InvalidEncoding),
        }
    }

    /// The raw bytes.
    pub fn as_buffer(&self) -> (r: Vec<u8>)
        ensures
            r@ == self@.bytes,
    {
        self.underlying.clone()
    }

    /// The named parts of a `multipart/form-data` body.
    pub fn as_multipart_form_data(&self) -> (r: Result<StringMap<UploadedData>, UploadedDataParsingError>)
        ensures
            r is Ok <==> multipart_parts(self@.content_type, self@.bytes) is Ok,
            r is Ok ==> r->Ok_0.wf() && r->Ok_0.mapping() == multipart_parts(self@.content_type, self@.bytes)->Ok_0,
            r is Err ==> multipart_parts(self@.content_type, self@.bytes) == Err::<Map<Seq<char>, UploadedDataView>, _>(r->Err_0),
    {
        let ghost body = self.underlying@;
        let p = self.content_type.as_parameterized_header_value();
        if !same_text(p.value.as_str(), "multipart/form-data") {
            return Err(UploadedDataParsingError::InvalidMimeType);
        }
        let boundary = match p.parameters.get("boundary") {
            Some(b) => b,
            None => return Err(UploadedDataParsingError::InvalidMimeType),
        };
        let mut delim: Vec<u8> = vec![45u8, 45u8];
        let mut boundary_bytes = bytes_of(boundary);
        delim.append(&mut boundary_bytes);
        let ghost d = delim@;
        assert(d =~= dash_dash() + encode_utf8(boundary@));
        let mut opening = delim.clone();
        opening.push(13u8);
        opening.push(10u8);
        assert(opening@ =~= d + crlf_bytes());
        let mut closing: Vec<u8> = vec![13u8, 10u8];
        let mut delim_copy = delim.clone();
        closing.append(&mut delim_copy);
        assert(closing@ =~= crlf_bytes() + d);
        let blank: Vec<u8> = vec![13u8, 10u8, 13u8, 10u8];
        assert(blank@ =~= blank_line_bytes());
        let mut scanner = VecScanner::new(self.underlying.clone());
        assert(body.skip(0) =~= body);
        scanner.consume_until_pattern(&opening);
        proof {
            lemma_find_pattern_bounds(body, d + crlf_bytes());
        }
        if scanner.finished() {
            let empty: StringMap<UploadedData> = StringMap::new();
            assert(empty.mapping() =~= Map::<Seq<char>, UploadedDataView>::empty());
            return Ok(empty);
        }
        scanner.consume_exact(opening.len());
        let mut parts: StringMap<UploadedData> = StringMap::new();
        assert(parts.mapping() =~= Map::<Seq<char>, UploadedDataView>::empty());
        loop
            invariant
                body == self@.bytes,
                scanner.input() == body,
                scanner.position() <= body.len(),
                parts.wf(),
                delim@ == d,
                closing@ == crlf_bytes() + d,
                blank@ == blank_line_bytes(),
                multipart_parts(self@.content_type, body) == parts_from(body, d, scanner.position(), parts.mapping()),
            decreases body.len() - scanner.position(),
        {
            let ghost pos = scanner.position();
            let ghost rest = body.skip(pos);
            let next_two = scanner.peek(2);
            if next_two.len() == 2 && next_two[0] == 45u8 && next_two[1] == 45u8 {
                assert(rest.take(2) =~= dash_dash());
                return Ok(parts);
            }
            assert(!(rest.len() >= 2 && rest.take(2) == dash_dash())) by {
                if rest.len() >= 2 && rest.take(2) == dash_dash() {
                    assert(next_two@ =~= rest.take(2));
                }
            }
            if scanner.finished() {
                return Err(UploadedDataParsingError::InvalidContentDispositionHeader);
            }
            let header_bytes = scanner.consume_until_pattern(&blank);
            proof {
                lemma_find_pattern_bounds(rest, blank_line_bytes());
                assert(header_bytes@ =~= rest.take(find_pattern(rest, blank_line_bytes())));
            }
            let header_text = match string_from_utf8(header_bytes) {
                Some(t) => t,
                None => return Err(UploadedDataParsingError::InvalidEncoding),
            };
            let header_chars = to_chars(header_text.as_str());
            let header_block = trimmed(&header_chars, 0, header_chars.len());
            assert(header_chars@.subrange(0, header_chars@.len() as int) =~= header_chars@);
            let headers = parse_header_block(&header_block);
            let content_disposition = match headers.get("Content-Disposition") {
                Some(v) => copy_header(v),
                None => return Err(UploadedDataParsingError::InvalidContentDispositionHeader),
            };
            let params = content_disposition.as_parameterized_header_value();
            let name = match params.parameters.get("name") {
                Some(n) => n.clone(),
                None => return Err(UploadedDataParsingError::InvalidContentDispositionHeader),
            };
            let content_type = match headers.get("Content-Type") {
                Some(v) => copy_header(v),
                None => HttpHeaderValue::new(String::from_str("application/octet-stream")),
            };
            scanner.consume_exact(4);
            let ghost p1 = scanner.position();
            let content = scanner.consume_until_pattern(&closing);
            proof {
                lemma_find_pattern_bounds(body.skip(p1), crlf_bytes() + d);
            }
            scanner.consume_exact(delim.len());
            scanner.consume_exact(2);
            let part = UploadedData::new(content_type, Some(content_disposition), content);
            parts.insert(name, part);
        }
    }
}

} // verus!
