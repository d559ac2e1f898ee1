//! The stock error responses the server sends on its own behalf: a JSON
//! error body, and the NotFound / InternalServerError wire responses that
//! carry one. The body text is built by plain concatenation: the values are
//! inserted verbatim, without JSON escaping, as the server authors them.

use vstd::prelude::*;
use vstd::string::{StringSliceAdditionalSpecFns, StringExecFns};
use vstd::utf8::encode_utf8;
use crate::method::Method;
use crate::response_entity::{spec_dec_digits, u16_to_dec, push_bytes};
use crate::status_code::StatusCode;

verus! {

/// A stock error body: an optional error name, a message, and a detail.
pub struct ReturnBody {
    pub error: Option<String>,
    pub message: String,
    pub detail: String,
}

/// The JSON text a stock error body renders as.
pub open spec fn spec_body_json(error: Option<Seq<char>>, message: Seq<char>, detail: Seq<char>) -> Seq<char> {
    "{\"error\": "@ + (match error {
        None => "null"@,
        Some(e) => "\""@ + e + "\""@,
    }) + ", \"message\": \""@ + message + "\", \"detail\": \""@ + detail + "\"}"@
}

impl Default for ReturnBody {
    /// No error name, and the stock unknown-error message and detail.
    fn default() -> (r: Self)
        ensures
            r.error is None,
            r.message@ == "No message available"@,
            r.detail@ == "A unknown internal error ocurred."@,
    {
        ReturnBody {
            error: None,
            message: String::from_str("No message available"),
            detail: String::from_str("A unknown internal error ocurred."),
        }
    }
}

impl ReturnBody {
    /// A body from its three parts.
    pub fn new(error: Option<String>, message: String, detail: String) -> (r: Self)
        ensures
            r.error == error,
            r.message == message,
            r.detail == detail,
    {
        Self { error, message, detail }
    }

    /// The view of the optional error name.
    pub open spec fn spec_error(&self) -> Option<Seq<char>> {
        match self.error {
            None => None,
            Some(e) => Some(e@),
        }
    }

    /// This body as JSON text.
    pub fn to_string_body(&self) -> (r: String)
        ensures
            r@ == spec_body_json(self.spec_error(), self.message@, self.detail@),
    {
        let mut out = String::from_str("{\"error\": ");
        match &self.error {
            None => out.append("null"),
            Some(e) => {
                out.append("\"");
                out.append(e.as_str());
                out.append("\"");
            },
        }
        out.append(", \"message\": \"");
        out.append(self.message.as_str());
        out.append("\", \"detail\": \"");
        out.append(self.detail.as_str());
        out.append("\"}");
        proof {
            assert(out@ =~= spec_body_json(self.spec_error(), self.message@, self.detail@));
        }
        out
    }
}

/// A full error response: status line, a `Content-Type: application/json`
/// header, and the body text.
pub open spec fn spec_plain_response(status: StatusCode, body: Seq<char>) -> Seq<u8> {
    "HTTP/1.1 ".spec_bytes() + spec_dec_digits(status.spec_number() as nat) + " ".spec_bytes()
        + encode_utf8(status.spec_reason())
        + "\r\nContent-Type: application/json\r\n\r\n".spec_bytes() + encode_utf8(body)
}

/// Renders a status and a body text as a full JSON error response.
fn plain_response(status: &StatusCode, body: &str) -> (r: Vec<u8>)
    ensures
        r@ == spec_plain_response(*status, body@),
{
    let mut out: Vec<u8> = Vec::new();
    push_bytes(&mut out, "HTTP/1.1 ".as_bytes());
    let digits = u16_to_dec(status.status_number());
    push_bytes(&mut out, digits.as_slice());
    push_bytes(&mut out, " ".as_bytes());
    push_bytes(&mut out, status.reason_phrase().as_bytes());
    push_bytes(&mut out, "\r\nContent-Type: application/json\r\n\r\n".as_bytes());
    push_bytes(&mut out, body.as_bytes());
    proof {
        assert(out@ =~= spec_plain_response(*status, body@));
    }
    out
}

/// The stock responses the server can send without consulting a handler.
#[derive(Debug)]
pub struct DefaultReturns;

/// The message sent when no handler exists for a method and path.
pub open spec fn spec_missing_message(m: Method, path: Seq<char>) -> Seq<char> {
    "Function for method "@ + crate::method::spec_method_chars(m) + " and path "@ + path
        + " doesn't exist"@
}

/// The detail sent when no handler exists for a method and path.
pub open spec fn spec_missing_detail(m: Method, path: Seq<char>) -> Seq<char> {
    "Function for method "@ + crate::method::spec_method_chars(m) + " and path "@ + path
        + " does not exist or probably wasn't implemented yet"@
}

impl DefaultReturns {
    /// The NotFound response carrying the given body.
    pub fn not_found(body: &ReturnBody) -> (r: Vec<u8>)
        ensures
            r@ == spec_plain_response(
                StatusCode::NotFound,
                spec_body_json(body.spec_error(), body.message@, body.detail@),
            ),
    {
        let text = body.to_string_body();
        plain_response(&StatusCode::NotFound, text.as_str())
    }

    /// The BadRequest response carrying the given body.
    pub fn bad_request(body: &ReturnBody) -> (r: Vec<u8>)
        ensures
            r@ == spec_plain_response(
                StatusCode::BadRequest,
                spec_body_json(body.spec_error(), body.message@, body.detail@),
            ),
    {
        let text = body.to_string_body();
        plain_response(&StatusCode::BadRequest, text.as_str())
    }

    /// The InternalServerError response carrying the given body, or the
    /// stock one when none is given.
    pub fn internal_error(body: Option<ReturnBody>) -> (r: Vec<u8>)
        ensures
            match body {
                Some(b) => r@ == spec_plain_response(
                    StatusCode::InternalServerError,
                    spec_body_json(b.spec_error(), b.message@, b.detail@),
                ),
                None => r@ == spec_plain_response(
                    StatusCode::InternalServerError,
                    spec_body_json(None, "No message available"@, "A unknown internal error ocurred."@),
                ),
            },
    {
        let b = match body {
            Some(b) => b,
            None => ReturnBody::default(),
        };
        let text = b.to_string_body();
        plain_response(&StatusCode::InternalServerError, text.as_str())
    }

    /// The NotFound response sent when no handler exists for a method and
    /// path, carrying the stock message and detail for them.
    pub fn func_not_found(method: Method, path: &str) -> (r: Vec<u8>)
        ensures
            r@ == spec_plain_response(
                StatusCode::NotFound,
                spec_body_json(
                    None,
                    spec_missing_message(method, path@),
                    spec_missing_detail(method, path@),
                ),
            ),
    {
        let mut message = String::from_str("Function for method ");
        message.append(method.as_str());
        message.append(" and path ");
        message.append(path);
        message.append(" doesn't exist");
        let mut detail = String::from_str("Function for method ");
        detail.append(method.as_str());
        detail.append(" and path ");
        detail.append(path);
        detail.append(" does not exist or probably wasn't implemented yet");
        proof {
            assert(message@ =~= spec_missing_message(method, path@));
            assert(detail@ =~= spec_missing_detail(method, path@));
        }
        let body = ReturnBody::new(None, message, detail);
        Self::not_found(&body)
    }
}

/// The NotFound response for an unroutable path, echoing the path in a
/// `{timestamp, status, error, path}`-shaped JSON detail body.
pub open spec fn spec_default_404(path: Seq<u8>) -> Seq<u8> {
    "HTTP/1.1 404 NotFound\r\nContent-Type: application/json\r\n\r\n".spec_bytes()
        + "{\r\n\t \"timestamp\": \"\",\t\"status\": 404,\t\"error\": \"Not Found\",\t\"path\": \"".spec_bytes()
        + path + "\"}".spec_bytes()
}

/// Renders the stock NotFound response for a path no route matches.
pub fn return_default_404(path: &Vec<u8>) -> (r: Vec<u8>)
    ensures
        r@ == spec_default_404(path@),
{
    let mut out: Vec<u8> = Vec::new();
    push_bytes(&mut out, "HTTP/1.1 404 NotFound\r\nContent-Type: application/json\r\n\r\n".as_bytes());
    push_bytes(
        &mut out,
        "{\r\n\t \"timestamp\": \"\",\t\"status\": 404,\t\"error\": \"Not Found\",\t\"path\": \"".as_bytes(),
    );
    push_bytes(&mut out, path.as_slice());
    push_bytes(&mut out, "\"}".as_bytes());
    proof {
        assert(out@ =~= spec_default_404(path@));
    }
    out
}

} // verus!
