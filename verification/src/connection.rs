//! The per-connection decision. A connection goes `Accepted -> Read ->
//! {Dispatch | ReadError} -> Respond -> Closed`, one request per connection;
//! the embedding program performs the reads and writes, and this module
//! decides, from the one buffer read, whether a handler is to be called and
//! with what, or which error response to send instead. Every failure
//! resolves to concrete response bytes: nothing escapes the boundary.

use vstd::prelude::*;
use vstd::string::StringExecFns;
use crate::byteseq::pair_views;
use crate::default_returns::{
    spec_plain_response, spec_body_json, spec_default_404, return_default_404, ReturnBody,
    DefaultReturns,
};
use crate::framing::{process_buffer, spec_process};
use crate::request::{buffer_to_request, spec_decode, RequestObj, DecodeError};
use crate::routing::{RouteTable, Endpoint, spec_resolve};
use crate::status_code::StatusCode;

verus! {

/// The detail text sent with a BadRequest, for each way decoding can fail.
pub open spec fn spec_decode_error_detail(e: DecodeError) -> Seq<char> {
    match e {
        DecodeError::EmptyRequest => "the buffer held no request line"@,
        DecodeError::UnknownMethod => "the request line's method is not recognized"@,
    }
}

/// The BadRequest response sent for a decode failure.
pub open spec fn spec_bad_request(e: DecodeError) -> Seq<u8> {
    spec_plain_response(
        StatusCode::BadRequest,
        spec_body_json(None, "Failed to parse request"@, spec_decode_error_detail(e)),
    )
}

/// What one read buffer leads to.
pub enum DispatchOutcome {
    /// A route matched: the decoded request, the winning endpoint, and the
    /// merged parameter bindings. The embedding program now calls the
    /// endpoint's handler and renders its entity for the wire.
    Dispatch { request: RequestObj, endpoint: Endpoint, params: Vec<(Vec<u8>, Vec<u8>)> },
    /// No handler is involved: send these bytes and close the connection.
    Respond(Vec<u8>),
}

/// Decides a connection's fate from the one buffer read off it: frames and
/// decodes the buffer and resolves the route. A decode failure yields the
/// BadRequest response, an unrouted path the NotFound response echoing it,
/// and a match yields the request, endpoint and bindings for dispatch.
pub fn handle_buffer(table: &RouteTable, buffer: &Vec<u8>) -> (r: DispatchOutcome)
    ensures
        ({
            let dec = spec_decode(spec_process(buffer@));
            match r {
                DispatchOutcome::Dispatch { request, endpoint, params } => {
                    &&& dec == Ok::<_, DecodeError>(request@)
                    &&& spec_resolve(table@, request@.method, request@.path).0 == Some(endpoint@)
                    &&& pair_views(params@) == spec_resolve(
                        table@,
                        request@.method,
                        request@.path,
                    ).1
                },
                DispatchOutcome::Respond(bytes) => match dec {
                    Err(e) => bytes@ == spec_bad_request(e),
                    Ok(req) => spec_resolve(table@, req.method, req.path).0 is None && bytes@
                        == spec_default_404(req.path),
                },
            }
        }),
{
    let framed = process_buffer(buffer);
    match buffer_to_request(&framed) {
        Err(e) => {
            let detail = match e {
                DecodeError::EmptyRequest => "the buffer held no request line",
                DecodeError::UnknownMethod => "the request line's method is not recognized",
            };
            let body = ReturnBody::new(
                None,
                String::from_str("Failed to parse request"),
                String::from_str(detail),
            );
            DispatchOutcome::Respond(DefaultReturns::bad_request(&body))
        },
        Ok(req) => {
            let (ep, params) = table.resolve(req.method, &req.path);
            match ep {
                Some(endpoint) => DispatchOutcome::Dispatch { request: req, endpoint, params },
                None => DispatchOutcome::Respond(return_default_404(&req.path)),
            }
        },
    }
}

} // verus!
