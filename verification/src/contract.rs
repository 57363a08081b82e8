//! The request/response contract: the canonical data shapes crossing the
//! host/script boundary, and the rules that build them from transport data.

use vstd::prelude::*;

verus! {

/// The canonical request handed to a script handler. `body` is absent (not
/// the empty string) when the incoming payload was empty. `params` is
/// reserved for path parameters and is built empty.
pub struct ApiRequest {
    pub url: String,
    pub headers: Vec<(String, String)>,
    pub method: String,
    pub body: Option<String>,
    pub params: Vec<(String, String)>,
    pub query: Vec<(String, String)>,
}

/// The shape a script handler returns: a status code and an arbitrary JSON
/// value, carried here as JSON text.
#[derive(Debug)]
pub struct JsResponse {
    pub status: u16,
    pub body: String,
}

/// The canonical response written back to the transport. `body` is the JSON
/// text of an arbitrary JSON value.
pub struct ApiResponse {
    pub status: u16,
    pub headers: Vec<(String, String)>,
    pub body: String,
}

/// The reply shape for a script that is only loaded, never called (a native
/// module that exports no verb handlers).
pub struct RsResponse {
    pub status: u16,
    pub body: String,
}

/// The closed set of verbs a script may handle; each doubles as the name of
/// the exported function the broker looks up.
#[derive(Clone, Copy, PartialEq, Eq, Structural, Debug)]
pub enum Verb {
    Get,
    Post,
    Put,
    Delete,
}

/// The exported-function name a verb dispatches to.
pub open spec fn spec_verb_name(v: Verb) -> Seq<char> {
    match v {
        Verb::Get => "GET"@,
        Verb::Post => "POST"@,
        Verb::Put => "PUT"@,
        Verb::Delete => "DELETE"@,
    }
}

impl Verb {
    /// The exported-function name this verb dispatches to.
    pub fn name(&self) -> (r: String)
        ensures
            r@ == spec_verb_name(*self),
    {
        match self {
            Verb::Get => String::from_str("GET"),
            Verb::Post => String::from_str("POST"),
            Verb::Put => String::from_str("PUT"),
            Verb::Delete => String::from_str("DELETE"),
        }
    }
}

/// The status code written to the transport: the script's status verbatim
/// when it lies in the valid HTTP range, otherwise 200.
pub open spec fn spec_effective_status(status: u16) -> u16 {
    if 100 <= status && status <= 599 {
        status
    } else {
        200
    }
}

/// Clamp a script-provided status code to the valid HTTP range.
pub fn effective_status(status: u16) -> (r: u16)
    ensures
        r == spec_effective_status(status),
{
    if 100 <= status && status <= 599 {
        status
    } else {
        200
    }
}

/// The wire rule for request bodies: an empty transport payload maps to an
/// absent body, never to the empty string.
pub open spec fn spec_body_of_transport(raw: Seq<char>) -> Option<Seq<char>> {
    if raw.len() == 0 {
        None
    } else {
        Some(raw)
    }
}

/// Build the canonical request from plain transport data. The body becomes
/// absent when the payload is empty, and `params` is always empty.
pub fn build_api_request(
    url: String,
    method: String,
    headers: Vec<(String, String)>,
    query: Vec<(String, String)>,
    raw_body: String,
) -> (r: ApiRequest)
    ensures
        r.url == url,
        r.method == method,
        r.headers == headers,
        r.query == query,
        r.params@.len() == 0,
        r.body matches Some(b) ==> b@ == raw_body@,
        (r.body matches Some(b)) == (spec_body_of_transport(raw_body@) matches Some(s)),
        r.body is None <==> raw_body@.len() == 0,
{
    let body: Option<String> = if raw_body.as_str().unicode_len() == 0 {
        None
    } else {
        Some(raw_body)
    };
    ApiRequest { url, headers, method, body, params: Vec::new(), query }
}

} // verus!
