//! The HTTP dispatch adapter's computations: shaping a broker result into
//! what is written back to the transport. A script-side failure becomes a
//! structured 500 reply here and never propagates as a transport crash.

use vstd::prelude::*;
use crate::broker::{BrokerError, spec_error_message};
use crate::contract::{ApiResponse, JsResponse, spec_effective_status};
use crate::json::spec_error_body;

verus! {

/// Widen a script's reply to the canonical response; the adapter adds no
/// headers of its own.
pub fn to_api_response(js: JsResponse) -> (r: ApiResponse)
    ensures
        r.status == js.status,
        r.body == js.body,
        r.headers@.len() == 0,
{
    ApiResponse { status: js.status, headers: Vec::new(), body: js.body }
}

/// The transport reply for a broker result: a response is written with its
/// status clamped to the valid range and its body verbatim; any broker error
/// becomes a 500 whose body names the diagnostic.
pub fn transport_reply(result: Result<ApiResponse, BrokerError>) -> (r: (u16, String))
    ensures
        (result matches Ok(resp) ==> r.0 == spec_effective_status(resp.status) && r.1
            == resp.body),
        (result matches Err(e) ==> r.0 == 500 && r.1@ == spec_error_body(
            spec_error_message(e@),
        )),
{
    match result {
        Ok(resp) => (crate::contract::effective_status(resp.status), resp.body),
        Err(e) => (500, crate::json::error_body(e.message().as_str())),
    }
}

} // verus!
