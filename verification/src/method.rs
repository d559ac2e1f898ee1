//! The closed set of HTTP methods and the parsing of a request-line method
//! token into it.

use vstd::prelude::*;
use vstd::string::StringSliceAdditionalSpecFns;
use crate::byteseq::bytes_eq;

verus! {

/// The HTTP request methods this engine recognizes.
#[derive(Clone, Copy, Debug, PartialEq, Eq, Hash, Structural)]
pub enum Method {
    GET,
    HEAD,
    POST,
    PUT,
    DELETE,
    CONNECT,
    OPTIONS,
    TRACE,
    PATCH,
}

/// The request-line token that names a method, as bytes.
pub open spec fn method_bytes(m: Method) -> Seq<u8> {
    match m {
        Method::GET => "GET".spec_bytes(),
        Method::HEAD => "HEAD".spec_bytes(),
        Method::POST => "POST".spec_bytes(),
        Method::PUT => "PUT".spec_bytes(),
        Method::DELETE => "DELETE".spec_bytes(),
        Method::CONNECT => "CONNECT".spec_bytes(),
        Method::OPTIONS => "OPTIONS".spec_bytes(),
        Method::TRACE => "TRACE".spec_bytes(),
        Method::PATCH => "PATCH".spec_bytes(),
    }
}

/// The token that names a method, as characters.
pub open spec fn spec_method_chars(m: Method) -> Seq<char> {
    match m {
        Method::GET => "GET"@,
        Method::HEAD => "HEAD"@,
        Method::POST => "POST"@,
        Method::PUT => "PUT"@,
        Method::DELETE => "DELETE"@,
        Method::CONNECT => "CONNECT"@,
        Method::OPTIONS => "OPTIONS"@,
        Method::TRACE => "TRACE"@,
        Method::PATCH => "PATCH"@,
    }
}

/// The method a token names, if any.
pub open spec fn spec_method_of(t: Seq<u8>) -> Option<Method> {
    if t == method_bytes(Method::GET) {
        Some(Method::GET)
    } else if t == method_bytes(Method::HEAD) {
        Some(Method::HEAD)
    } else if t == method_bytes(Method::POST) {
        Some(Method::POST)
    } else if t == method_bytes(Method::PUT) {
        Some(Method::PUT)
    } else if t == method_bytes(Method::DELETE) {
        Some(Method::DELETE)
    } else if t == method_bytes(Method::CONNECT) {
        Some(Method::CONNECT)
    } else if t == method_bytes(Method::OPTIONS) {
        Some(Method::OPTIONS)
    } else if t == method_bytes(Method::TRACE) {
        Some(Method::TRACE)
    } else if t == method_bytes(Method::PATCH) {
        Some(Method::PATCH)
    } else {
        None
    }
}

/// The nine method tokens written out as ASCII codes, which in particular
/// makes them pairwise distinct.
pub proof fn lemma_method_bytes_values()
    ensures
        method_bytes(Method::GET) =~= seq![71u8, 69u8, 84u8],
        method_bytes(Method::HEAD) =~= seq![72u8, 69u8, 65u8, 68u8],
        method_bytes(Method::POST) =~= seq![80u8, 79u8, 83u8, 84u8],
        method_bytes(Method::PUT) =~= seq![80u8, 85u8, 84u8],
        method_bytes(Method::DELETE) =~= seq![68u8, 69u8, 76u8, 69u8, 84u8, 69u8],
        method_bytes(Method::CONNECT) =~= seq![67u8, 79u8, 78u8, 78u8, 69u8, 67u8, 84u8],
        method_bytes(Method::OPTIONS) =~= seq![79u8, 80u8, 84u8, 73u8, 79u8, 78u8, 83u8],
        method_bytes(Method::TRACE) =~= seq![84u8, 82u8, 65u8, 67u8, 69u8],
        method_bytes(Method::PATCH) =~= seq![80u8, 65u8, 84u8, 67u8, 72u8],
{
    broadcast use vstd::string::is_ascii_spec_bytes;

    reveal_strlit("GET");
    reveal_strlit("HEAD");
    reveal_strlit("POST");
    reveal_strlit("PUT");
    reveal_strlit("DELETE");
    reveal_strlit("CONNECT");
    reveal_strlit("OPTIONS");
    reveal_strlit("TRACE");
    reveal_strlit("PATCH");
    assert(vstd::string::is_ascii("GET"));
    assert(vstd::string::is_ascii("HEAD"));
    assert(vstd::string::is_ascii("POST"));
    assert(vstd::string::is_ascii("PUT"));
    assert(vstd::string::is_ascii("DELETE"));
    assert(vstd::string::is_ascii("CONNECT"));
    assert(vstd::string::is_ascii("OPTIONS"));
    assert(vstd::string::is_ascii("TRACE"));
    assert(vstd::string::is_ascii("PATCH"));
}

impl Method {
    /// Parses a method token; returns `Some` exactly for the nine tokens.
    pub fn from_bytes(v: &[u8]) -> (r: Option<Method>)
        ensures
            r == spec_method_of(v@),
            forall|m: Method| (r == Some(m)) <==> v@ == method_bytes(m),
    {
        proof {
            lemma_method_bytes_values();
        }
        if bytes_eq(v, "GET".as_bytes()) {
            Some(Method::GET)
        } else if bytes_eq(v, "HEAD".as_bytes()) {
            Some(Method::HEAD)
        } else if bytes_eq(v, "POST".as_bytes()) {
            Some(Method::POST)
        } else if bytes_eq(v, "PUT".as_bytes()) {
            Some(Method::PUT)
        } else if bytes_eq(v, "DELETE".as_bytes()) {
            Some(Method::DELETE)
        } else if bytes_eq(v, "CONNECT".as_bytes()) {
            Some(Method::CONNECT)
        } else if bytes_eq(v, "OPTIONS".as_bytes()) {
            Some(Method::OPTIONS)
        } else if bytes_eq(v, "TRACE".as_bytes()) {
            Some(Method::TRACE)
        } else if bytes_eq(v, "PATCH".as_bytes()) {
            Some(Method::PATCH)
        } else {
            None
        }
    }

    /// Parses a method token given as a string slice; `Err` exactly when the
    /// token is not one of the nine methods.
    pub fn from_str(s: &str) -> (r: Result<Method, ()>)
        ensures
            forall|m: Method| (r == Ok::<Method, ()>(m)) <==> s.spec_bytes() == method_bytes(m),
    {
        match Method::from_bytes(s.as_bytes()) {
            Some(m) => Ok(m),
            None => Err(()),
        }
    }

    /// The token that names this method.
    pub fn as_str(&self) -> (r: &'static str)
        ensures
            r.spec_bytes() == method_bytes(*self),
            r@ == spec_method_chars(*self),
    {
        match self {
            Method::GET => "GET",
            Method::HEAD => "HEAD",
            Method::POST => "POST",
            Method::PUT => "PUT",
            Method::DELETE => "DELETE",
            Method::CONNECT => "CONNECT",
            Method::OPTIONS => "OPTIONS",
            Method::TRACE => "TRACE",
            Method::PATCH => "PATCH",
        }
    }
}

} // verus!
