//! Request methods.
use vstd::prelude::*;
use crate::text::push_text;
use crate::text::same_text;

verus! {

#[derive(Debug, PartialEq, Eq, Structural, Clone, Copy)]
pub enum HttpMethod {
    GET,
    POST,
}

/// The method a request-line token names, if any.
pub open spec fn method_of(token: Seq<char>) -> Option<HttpMethod> {
    if token == "GET"@ {
        Some(HttpMethod::GET)
    } else if token == "POST"@ {
        Some(HttpMethod::POST)
    } else {
        None
    }
}

/// The token of a method.
pub open spec fn method_name(m: HttpMethod) -> Seq<char> {
    match m {
        HttpMethod::GET => "GET"@,
        HttpMethod::POST => "POST"@,
    }
}

impl HttpMethod {
    /// The method that `string` names; an error message for any other token.
    pub fn from_string(string: String) -> (r: Result<Self, String>)
        ensures
            method_of(string@) is Some ==> r == Ok::<HttpMethod, String>(method_of(string@)->0),
            method_of(string@) is None ==> r is Err && r->Err_0@ == "Unrecognised HTTP method "@ + string@,
    {
        if same_text(string.as_str(), "GET") {
            Ok(HttpMethod::GET)
        } else if same_text(string.as_str(), "POST") {
            Ok(HttpMethod::POST)
        } else {
            let mut message = String::from_str("Unrecognised HTTP method ");
            push_text(&mut message, string.as_str());
            Err(message)
        }
    }

    /// The token of this method.
    pub fn name(&self) -> (r: &'static str)
        ensures
            r@ == method_name(*self),
    {
        match self {
            HttpMethod::GET => "GET",
            HttpMethod::POST => "POST",
        }
    }
}

} // verus!
