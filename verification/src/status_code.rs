//! Response status codes: a closed set of named codes plus an escape variant
//! carrying an arbitrary numeric code and reason phrase.

use vstd::prelude::*;

verus! {

/// A response status: one of the named codes, or `Other` with an explicit
/// `(numeric code, reason phrase)` pair.
#[derive(Debug)]
pub enum StatusCode {
    Okay,
    Created,
    Accepted,
    Unauthorized,
    Forbidden,
    BadRequest,
    NotFound,
    InternalServerError,
    Other((u16, String)),
}

impl StatusCode {
    /// The numeric code this status renders as.
    pub open spec fn spec_number(&self) -> u16 {
        match self {
            StatusCode::Okay => 200,
            StatusCode::Created => 201,
            StatusCode::Accepted => 202,
            StatusCode::Unauthorized => 401,
            StatusCode::Forbidden => 403,
            StatusCode::BadRequest => 400,
            StatusCode::NotFound => 404,
            StatusCode::InternalServerError => 500,
            StatusCode::Other(t) => t.0,
        }
    }

    /// The reason phrase this status renders as.
    pub open spec fn spec_reason(&self) -> Seq<char> {
        match self {
            StatusCode::Okay => "Ok"@,
            StatusCode::Created => "Created"@,
            StatusCode::Accepted => "Accepted"@,
            StatusCode::Unauthorized => "Unauthorized"@,
            StatusCode::Forbidden => "Forbidden"@,
            StatusCode::BadRequest => "BadRequest"@,
            StatusCode::NotFound => "NotFound"@,
            StatusCode::InternalServerError => "Internal Server Error"@,
            StatusCode::Other(t) => t.1@,
        }
    }

    /// The reason phrase sent on the status line.
    pub fn reason_phrase(&self) -> (r: &str)
        ensures
            r@ == self.spec_reason(),
    {
        match self {
            StatusCode::Okay => "Ok",
            StatusCode::Created => "Created",
            StatusCode::Accepted => "Accepted",
            StatusCode::Unauthorized => "Unauthorized",
            StatusCode::Forbidden => "Forbidden",
            StatusCode::BadRequest => "BadRequest",
            StatusCode::NotFound => "NotFound",
            StatusCode::InternalServerError => "Internal Server Error",
            StatusCode::Other(t) => t.1.as_str(),
        }
    }

    /// The numeric code sent on the status line.
    pub fn status_number(&self) -> (r: u16)
        ensures
            r == self.spec_number(),
    {
        match self {
            StatusCode::Okay => 200,
            StatusCode::Created => 201,
            StatusCode::Accepted => 202,
            StatusCode::Unauthorized => 401,
            StatusCode::Forbidden => 403,
            StatusCode::BadRequest => 400,
            StatusCode::NotFound => 404,
            StatusCode::InternalServerError => 500,
            StatusCode::Other(t) => t.0,
        }
    }

    /// An independent copy of this status.
    pub fn dup(&self) -> (r: StatusCode)
        ensures
            r == *self,
    {
        match self {
            StatusCode::Okay => StatusCode::Okay,
            StatusCode::Created => StatusCode::Created,
            StatusCode::Accepted => StatusCode::Accepted,
            StatusCode::Unauthorized => StatusCode::Unauthorized,
            StatusCode::Forbidden => StatusCode::Forbidden,
            StatusCode::BadRequest => StatusCode::BadRequest,
            StatusCode::NotFound => StatusCode::NotFound,
            StatusCode::InternalServerError => StatusCode::InternalServerError,
            StatusCode::Other(t) => StatusCode::Other((t.0, t.1.clone())),
        }
    }
}

} // verus!
