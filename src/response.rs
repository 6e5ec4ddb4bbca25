//! Responses: a status, headers in insertion order, and an optional text body.
use vstd::prelude::*;
use vstd::utf8::encode_utf8;
use crate::headers::{crlf, serialize_headers, write_headers, HttpHeaderValue};
use crate::string_map::StringMap;
use crate::text::{push_char, push_text};

verus! {

/// The standard reason phrase of a status code, for the codes this library knows.
pub open spec fn reason_phrase(code: u16) -> Option<Seq<char>> {
    match code {
        100 => Some("Continue"@),
        101 => Some("Switching Protocols"@),
        200 => Some("OK"@),
        201 => Some("Created"@),
        202 => Some("Accepted"@),
        203 => Some("Non-Authoritative Information"@),
        204 => Some("No Content"@),
        205 => Some("Reset Content"@),
        206 => Some("Partial Content"@),
        300 => Some("Multiple Choices"@),
        301 => Some("Moved Permanently"@),
        302 => Some("Found"@),
        303 => Some("See Other"@),
        304 => Some("Not Modified"@),
        305 => Some("Use Proxy"@),
        307 => Some("Temporary Redirect"@),
        308 => Some("Permanent Redirect"@),
        400 => Some("Bad Request"@),
        401 => Some("Unauthorized"@),
        402 => Some("Payment Required"@),
        403 => Some("Forbidden"@),
        404 => Some("Not Found"@),
        405 => Some("Method Not Allowed"@),
        406 => Some("Not Acceptable"@),
        407 => Some("Proxy Authentication Required"@),
        408 => Some("Request Timeout"@),
        409 => Some("Conflict"@),
        410 => Some("Gone"@),
        411 => Some("Length Required"@),
        412 => Some("Precondition Failed"@),
        413 => Some("Content Too Large"@),
        414 => Some("URI Too Long"@),
        415 => Some("Unsupported Media Type"@),
        416 => Some("Range Not Satisfiable"@),
        417 => Some("Expectation Failed"@),
        421 => Some("Misdirected Request"@),
        422 => Some("Unprocessable Content"@),
        426 => Some("Upgrade Required"@),
        500 => Some("Internal Server Error"@),
        501 => Some("Not Implemented"@),
        502 => Some("Bad Gateway"@),
        503 => Some("Service Unavailable"@),
        504 => Some("Gateway Timeout"@),
        505 => Some("HTTP Version Not Supported"@),
        _ => None,
    }
}

fn reason_phrase_text(code: u16) -> (r: Option<&'static str>)
    ensures
        r is Some <==> reason_phrase(code) is Some,
        r is Some ==> r->0@ == reason_phrase(code)->0,
{
    match code {
        100 => Some("Continue"),
        101 => Some("Switching Protocols"),
        200 => Some("OK"),
        201 => Some("Created"),
        202 => Some("Accepted"),
        203 => Some("Non-Authoritative Information"),
        204 => Some("No Content"),
        205 => Some("Reset Content"),
        206 => Some("Partial Content"),
        300 => Some("Multiple Choices"),
        301 => Some("Moved Permanently"),
        302 => Some("Found"),
        303 => Some("See Other"),
        304 => Some("Not Modified"),
        305 => Some("Use Proxy"),
        307 => Some("Temporary Redirect"),
        308 => Some("Permanent Redirect"),
        400 => Some("Bad Request"),
        401 => Some("Unauthorized"),
        402 => Some("Payment Required"),
        403 => Some("Forbidden"),
        404 => Some("Not Found"),
        405 => Some("Method Not Allowed"),
        406 => Some("Not Acceptable"),
        407 => Some("Proxy Authentication Required"),
        408 => Some("Request Timeout"),
        409 => Some("Conflict"),
        410 => Some("Gone"),
        411 => Some("Length Required"),
        412 => Some("Precondition Failed"),
        413 => Some("Content Too Large"),
        414 => Some("URI Too Long"),
        415 => Some("Unsupported Media Type"),
        416 => Some("Range Not Satisfiable"),
        417 => Some("Expectation Failed"),
        421 => Some("Misdirected Request"),
        422 => Some("Unprocessable Content"),
        426 => Some("Upgrade Required"),
        500 => Some("Internal Server Error"),
        501 => Some("Not Implemented"),
        502 => Some("Bad Gateway"),
        503 => Some("Service Unavailable"),
        504 => Some("Gateway Timeout"),
        505 => Some("HTTP Version Not Supported"),
        _ => None,
    }
}

pub open spec fn digit_char(d: nat) -> char {
    ((d + '0' as u32) as u8) as char
}

/// The decimal digits of `n`.
pub open spec fn decimal(n: nat) -> Seq<char>
    decreases n,
{
    if n < 10 {
        seq![digit_char(n)]
    } else {
        decimal(n / 10).push(digit_char(n % 10))
    }
}

/// Appends the decimal digits of `n`.
pub fn push_decimal(out: &mut String, n: usize)
    ensures
        final(out)@ == old(out)@ + decimal(n as nat),
    decreases n,
{
    if n >= 10 {
        push_decimal(out, n / 10);
    }
    let d = (n % 10) as u8;
    push_char(out, (d + 48u8) as char);
    assert(final(out)@ =~= old(out)@ + decimal(n as nat));
}

/// The bytes that a response is written as.
pub open spec fn response_text(
    status: u16,
    status_text: Seq<char>,
    headers: Seq<(Seq<char>, Seq<char>)>,
    content: Seq<char>,
) -> Seq<char> {
    "HTTP/1.1 "@ + decimal(status as nat) + seq![' '] + status_text + crlf() + serialize_headers(headers)
        + "Content-Length: "@ + decimal(encode_utf8(content).len()) + crlf() + crlf() + content
}

pub struct HttpResponse {
    pub status: u16,
    pub status_text: String,
    pub headers: StringMap<HttpHeaderValue>,
    pub content: Option<String>,
}

pub open spec fn content_of(c: Option<String>) -> Seq<char> {
    match c {
        Some(s) => s@,
        None => Seq::empty(),
    }
}

impl HttpResponse {
    /// `200 OK`, no headers, no content.
    pub fn new() -> (r: Self)
        ensures
            r.status == 200,
            r.status_text@ == "OK"@,
            r.headers.wf(),
            r.headers.entries().len() == 0,
            r.content is None,
    {
        HttpResponse {
            status: 200,
            status_text: String::from_str("OK"),
            headers: StringMap::new(),
            content: None,
        }
    }

    /// Sets the status code and its reason phrase; the code must be one the table knows.
    pub fn status(self, status: u16) -> (r: Self)
        requires
            reason_phrase(status) is Some,
        ensures
            r.status == status,
            r.status_text@ == reason_phrase(status)->0,
            r.headers == self.headers,
            r.content == self.content,
    {
        let text = match reason_phrase_text(status) {
            Some(t) => t,
            None => "",
        };
        HttpResponse { status, status_text: String::from_str(text), headers: self.headers, content: self.content }
    }

    /// Sets a header; a name set before keeps its place, a new name goes last.
    pub fn header(self, name: String, value: String) -> (r: Self)
        requires
            self.headers.wf(),
        ensures
            r.status == self.status,
            r.status_text == self.status_text,
            r.headers.wf(),
            r.headers.mapping() == self.headers.mapping().insert(name@, value@),
            self.headers.entries().len() <= r.headers.entries().len(),
            forall|i: int| 0 <= i < self.headers.entries().len() ==> #[trigger] r.headers.entries()[i].0
                == self.headers.entries()[i].0,
            (exists|i: int| 0 <= i < self.headers.entries().len() && self.headers.entries()[i].0 == name@)
                ==> r.headers.entries().len() == self.headers.entries().len(),
            (forall|i: int| 0 <= i < self.headers.entries().len() ==> self.headers.entries()[i].0 != name@)
                ==> r.headers.entries() == self.headers.entries().push((name@, value@)),
            r.content == self.content,
    {
        let mut headers = self.headers;
        headers.insert(name, HttpHeaderValue::new(value));
        HttpResponse { status: self.status, status_text: self.status_text, headers, content: self.content }
    }

    /// Sets the body text.
    pub fn content(self, content: String) -> (r: Self)
        ensures
            r.status == self.status,
            r.status_text == self.status_text,
            r.headers == self.headers,
            r.content == Some(content),
    {
        HttpResponse { status: self.status, status_text: self.status_text, headers: self.headers, content: Some(content) }
    }

    /// The response found for a request, or `404 Not Found` (no headers, no content)
    /// when there is none.
    pub fn or_not_found(found: Option<HttpResponse>) -> (r: HttpResponse)
        ensures
            found is Some ==> r == found->0,
            found is None ==> r.status == 404 && r.status_text@ == "Not Found"@ && r.headers.wf()
                && r.headers.entries().len() == 0 && r.content is None,
    {
        match found {
            Some(response) => response,
            None => HttpResponse::new().status(404),
        }
    }

    /// The response as written on the wire: status line, the headers in order, a
    /// computed `Content-Length` (the body's length in bytes), a blank line, the body.
    pub fn serialize(&self) -> (r: String)
        ensures
            r@ == response_text(self.status, self.status_text@, self.headers.entries(), content_of(self.content)),
    {
        let mut out = String::from_str("HTTP/1.1 ");
        push_decimal(&mut out, self.status as usize);
        push_char(&mut out, ' ');
        push_text(&mut out, self.status_text.as_str());
        push_char(&mut out, '\r');
        push_char(&mut out, '\n');
        let headers = write_headers(&self.headers);
        push_text(&mut out, headers.as_str());
        push_text(&mut out, "Content-Length: ");
        let body: &str = match &self.content {
            Some(c) => c.as_str(),
            None => "",
        };
        assert(body@ == content_of(self.content)) by {
            if self.content is None {
                reveal_strlit("");
            }
        }
        let n = body.as_bytes().len();
        assert(n as nat == encode_utf8(body@).len());
        push_decimal(&mut out, n);
        push_char(&mut out, '\r');
        push_char(&mut out, '\n');
        push_char(&mut out, '\r');
        push_char(&mut out, '\n');
        push_text(&mut out, body);
        assert(out@ =~= response_text(self.status, self.status_text@, self.headers.entries(), content_of(self.content)));
        out
    }
}

} // verus!
