//! The trusted boundary to the JSON reader that decodes engine replies.
//!
//! A script handler's return value reaches the broker as JSON text. What a
//! reply text holds is a function of that text alone, so its parts carry
//! names — `reply_status_of`, `reply_body_of` — that the trusted items tie
//! to serde_json; each item names the functions relied on. The shape rules —
//! an object with an integer `status` that fits a status code, a `body`
//! written back as JSON text with `null` for an absent one — are verified
//! code over those names.

use vstd::prelude::*;
use crate::contract::JsResponse;

verus! {

#[verifier::external_type_specification]
#[verifier::external_body]
pub struct ExValue(serde_json::Value);

#[verifier::external_type_specification]
#[verifier::external_body]
pub struct ExJsonError(serde_json::Error);

/// Whether serde_json accepts this text as JSON. Parsing is a function of
/// the text alone; nothing further is assumed of the parsed value.
pub uninterp spec fn json_wellformed(s: Seq<char>) -> bool;

/// The `status` member of a reply text: the unsigned integer serde_json
/// reads there when the text is an object whose `status` is one, nothing
/// otherwise. A function of the text alone.
pub uninterp spec fn reply_status_of(s: Seq<char>) -> Option<u64>;

/// The `body` member of a reply text, written back as JSON text; nothing
/// when the reply object has no `body` member. A function of the text alone.
pub uninterp spec fn reply_body_of(s: Seq<char>) -> Option<Seq<char>>;

/// The body text a reply yields: its `body` member as JSON text, or `null`
/// when the reply object has none.
pub open spec fn reply_body_text(s: Seq<char>) -> Seq<char> {
    match reply_body_of(s) {
        None => "null"@,
        Some(b) => b,
    }
}

/// Relies on serde_json::from_str::<Value>: it returns Ok exactly on text it
/// accepts as JSON, a function of the text alone.
#[verifier::external_body]
fn parse_json(s: &str) -> (r: Result<serde_json::Value, serde_json::Error>)
    ensures
        r is Ok <==> json_wellformed(s@),
{
    serde_json::from_str::<serde_json::Value>(s)
}

/// Relies on serde_json::from_str::<Value>, Value::get, Value::as_u64 and
/// to_string, which on a Value cannot fail: the parts of a reply are
/// functions of the text alone. The parts exist exactly when the text is
/// JSON for an object whose `status` is an unsigned integer; the body comes
/// back as the JSON text of the `body` member, absent when the object has
/// none.
#[verifier::external_body]
fn reply_parts(text: &str) -> (r: Option<(u64, Option<String>)>)
    ensures
        (r is Some <==> (json_wellformed(text@) && reply_status_of(text@) is Some)),
        (r matches Some(p) ==> Some(p.0) == reply_status_of(text@) && p.1.deep_view()
            == reply_body_of(text@)),
{
    let v: serde_json::Value = serde_json::from_str(text).ok()?;
    let status = v.get("status")?.as_u64()?;
    let body = match v.get("body") {
        None => None,
        Some(b) => Some(serde_json::to_string(b).ok()?),
    };
    Some((status, body))
}

/// Relies on the Display impl of serde_json::Error for the diagnostic text.
#[verifier::external_body]
fn json_error_message(e: &serde_json::Error) -> (r: String) {
    format!("{}", e)
}

/// Decode an engine reply into the response contract. The reply must be JSON
/// for an object with an unsigned integer `status` that fits a status code;
/// exactly then the result carries that status and the reply's body text,
/// `null` standing for an absent body. Everything else is refused with a
/// diagnostic that names what was wrong — serde_json's own text when the
/// reply is not JSON at all.
pub fn decode_response(text: &str) -> (r: Result<JsResponse, String>)
    ensures
        (r is Ok <==> (json_wellformed(text@) && (reply_status_of(text@) matches Some(n) && n
            <= 65535))),
        (r matches Ok(resp) ==> (Some(resp.status as u64) == reply_status_of(text@) && resp.body@
            == reply_body_text(text@))),
        ((json_wellformed(text@) && reply_status_of(text@) is None) ==> (r matches Err(m) && m@
            == "reply is not an object with an unsigned integer status"@)),
        ((json_wellformed(text@) && (reply_status_of(text@) matches Some(n) && n > 65535)) ==> (r
            matches Err(m) && m@ == "reply status does not fit a status code"@)),
{
    match reply_parts(text) {
        Some((status, body)) => {
            if status > 65535 {
                Err(String::from_str("reply status does not fit a status code"))
            } else {
                let body_text = match body {
                    None => String::from_str("null"),
                    Some(b) => b,
                };
                Ok(JsResponse { status: status as u16, body: body_text })
            }
        },
        None => match parse_json(text) {
            Err(e) => Err(json_error_message(&e)),
            Ok(_) => Err(
                String::from_str("reply is not an object with an unsigned integer status"),
            ),
        },
    }
}

} // verus!
