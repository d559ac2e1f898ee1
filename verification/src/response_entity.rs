//! The outbound response: an immutable builder, the finalized entity, and
//! its wire encoding `HTTP/1.1 <code> <reason>\r\n<headers>\r\n\r\n<body>`.
//! Header rendering follows the stored order; an absent body renders as the
//! empty string.

use vstd::prelude::*;
use vstd::string::{StringSliceAdditionalSpecFns, StringExecFns};
use vstd::utf8::encode_utf8;
use crate::status_code::StatusCode;

verus! {

/// The decimal digits of a number, most significant first.
pub open spec fn spec_dec_digits(n: nat) -> Seq<u8>
    decreases n,
{
    if n < 10 {
        seq![(48 + n) as u8]
    } else {
        spec_dec_digits(n / 10).push((48 + n % 10) as u8)
    }
}

/// Renders a number as its decimal digits, most significant first.
pub fn u16_to_dec(n: u16) -> (r: Vec<u8>)
    ensures
        r@ == spec_dec_digits(n as nat),
{
    let mut digits: Vec<u8> = Vec::new();
    let mut cur: u16 = n;
    digits.push(48 + (cur % 10) as u8);
    cur = cur / 10;
    proof {
        if cur > 0 {
            assert(spec_dec_digits(n as nat) =~= spec_dec_digits(cur as nat) + digits@);
        }
    }
    while cur > 0
        invariant
            digits@.len() >= 1,
            spec_dec_digits(n as nat) == if cur > 0 {
                spec_dec_digits(cur as nat) + digits@
            } else {
                digits@
            },
        decreases cur,
    {
        let d: u8 = 48 + (cur % 10) as u8;
        proof {
            assert(digits@.insert(0, d) =~= seq![d] + digits@);
            if cur >= 10 {
                assert(spec_dec_digits(cur as nat) + digits@ =~= spec_dec_digits(
                    cur as nat / 10,
                ) + (seq![d] + digits@));
            } else {
                assert(spec_dec_digits(cur as nat) + digits@ =~= seq![d] + digits@);
            }
        }
        digits.insert(0, d);
        cur = cur / 10;
    }
    digits
}

/// Appends the bytes of a slice to a vector.
pub fn push_bytes(out: &mut Vec<u8>, s: &[u8])
    ensures
        final(out)@ == old(out)@ + s@,
{
    let mut i: usize = 0;
    proof {
        assert(out@ + s@.take(0) =~= out@);
    }
    while i < s.len()
        invariant
            i <= s@.len(),
            out@ == old(out)@ + s@.take(i as int),
        decreases s.len() - i,
    {
        proof {
            assert(old(out)@ + s@.take(i + 1) =~= (old(out)@ + s@.take(i as int)).push(
                s@[i as int],
            ));
        }
        out.push(s[i]);
        i += 1;
    }
    proof {
        assert(s@.take(s@.len() as int) =~= s@);
    }
}

/// View of a sequence of string pairs as a sequence of character-sequence
/// pairs.
pub open spec fn header_views(s: Seq<(String, String)>) -> Seq<(Seq<char>, Seq<char>)> {
    s.map_values(|p: (String, String)| (p.0@, p.1@))
}

/// The rendered header block: `\r\nname: value` for each header, in order.
pub open spec fn spec_format_headers(hs: Seq<(Seq<char>, Seq<char>)>) -> Seq<char>
    decreases hs.len(),
{
    if hs.len() == 0 {
        Seq::empty()
    } else {
        "\r\n"@ + hs[0].0 + ": "@ + hs[0].1 + spec_format_headers(hs.skip(1))
    }
}

/// Renders headers for the wire: each as `\r\nname: value`, in stored order.
pub fn format_headers(headers: &Vec<(String, String)>) -> (r: String)
    ensures
        r@ == spec_format_headers(header_views(headers@)),
{
    let ghost hs = header_views(headers@);
    let mut out = String::new();
    let mut i: usize = 0;
    proof {
        assert(hs.skip(0) =~= hs);
        assert(out@ + spec_format_headers(hs) =~= spec_format_headers(hs));
    }
    while i < headers.len()
        invariant
            i <= headers@.len(),
            hs == header_views(headers@),
            spec_format_headers(hs) == out@ + spec_format_headers(hs.skip(i as int)),
        decreases headers@.len() - i,
    {
        proof {
            assert(hs.skip(i as int)[0] == (headers@[i as int].0@, headers@[i as int].1@));
            assert(hs.skip(i as int).skip(1) =~= hs.skip(i + 1));
        }
        out.append("\r\n");
        out.append(headers[i].0.as_str());
        out.append(": ");
        out.append(headers[i].1.as_str());
        proof {
            assert(spec_format_headers(hs) == out@ + spec_format_headers(hs.skip(i + 1)));
        }
        i += 1;
    }
    proof {
        assert(hs.skip(hs.len() as int) =~= Seq::<(Seq<char>, Seq<char>)>::empty());
        assert(out@ + Seq::<char>::empty() =~= out@);
    }
    out
}

/// Accumulates a response's fields; `build` finalizes them into an entity.
pub struct ResponseEntityBuilder {
    pub body: Option<String>,
    pub headers: Vec<(String, String)>,
    pub status: StatusCode,
}

impl Default for ResponseEntityBuilder {
    /// No body, no headers, status `Okay`.
    fn default() -> (r: Self)
        ensures
            r.body is None,
            r.headers@.len() == 0,
            r.status == StatusCode::Okay,
    {
        ResponseEntityBuilder { body: None, headers: Vec::new(), status: StatusCode::Okay }
    }
}

impl ResponseEntityBuilder {
    /// A builder with no body, no headers, and status `Okay`.
    pub fn new() -> (r: Self)
        ensures
            r.body is None,
            r.headers@.len() == 0,
            r.status == StatusCode::Okay,
    {
        Self::default()
    }

    /// The same builder with this body text.
    pub fn with_body(self, body: String) -> (r: Self)
        ensures
            r.body == Some(body),
            r.headers@ == self.headers@,
            r.status == self.status,
    {
        Self { body: Some(body), headers: self.headers, status: self.status }
    }

    /// The same builder with these headers.
    pub fn with_headers(self, headers: Vec<(String, String)>) -> (r: Self)
        ensures
            r.body == self.body,
            r.headers@ == headers@,
            r.status == self.status,
    {
        Self { body: self.body, headers, status: self.status }
    }

    /// The same builder with this status.
    pub fn with_status_code(self, status: StatusCode) -> (r: Self)
        ensures
            r.body == self.body,
            r.headers@ == self.headers@,
            r.status == status,
    {
        Self { body: self.body, headers: self.headers, status }
    }

    /// The finalized entity, carrying this builder's fields.
    pub fn build(&self) -> (r: ResponseEntity)
        ensures
            r.body == self.body,
            r.headers@ == self.headers@,
            r.status == self.status,
    {
        let body = match &self.body {
            Some(b) => Some(b.clone()),
            None => None,
        };
        let mut headers: Vec<(String, String)> = Vec::new();
        let mut i: usize = 0;
        while i < self.headers.len()
            invariant
                i <= self.headers@.len(),
                headers@ =~= self.headers@.take(i as int),
            decreases self.headers@.len() - i,
        {
            headers.push((self.headers[i].0.clone(), self.headers[i].1.clone()));
            i += 1;
            proof {
                assert(headers@ =~= self.headers@.take(i as int));
            }
        }
        proof {
            assert(self.headers@.take(self.headers@.len() as int) =~= self.headers@);
        }
        ResponseEntity { body, headers, status: self.status.dup() }
    }
}

/// The finalized outbound response: status, headers, and optional body text.
pub struct ResponseEntity {
    pub body: Option<String>,
    pub headers: Vec<(String, String)>,
    pub status: StatusCode,
}

/// The wire encoding of an entity.
pub open spec fn spec_render(e: ResponseEntity) -> Seq<u8> {
    "HTTP/1.1 ".spec_bytes() + spec_dec_digits(e.status.spec_number() as nat)
        + " ".spec_bytes() + encode_utf8(e.status.spec_reason()) + encode_utf8(
        spec_format_headers(header_views(e.headers@)),
    ) + "\r\n\r\n".spec_bytes() + encode_utf8(
        match e.body {
            Some(b) => b@,
            None => Seq::empty(),
        },
    )
}

impl ResponseEntity {
    /// The entity a finished builder describes.
    pub fn new(builder: ResponseEntityBuilder) -> (r: Self)
        ensures
            r.body == builder.body,
            r.headers@ == builder.headers@,
            r.status == builder.status,
    {
        Self { body: builder.body, headers: builder.headers, status: builder.status }
    }

    /// Renders this entity for the wire:
    /// `HTTP/1.1 <code> <reason><headers>\r\n\r\n<body>`.
    pub fn to_bytes(&self) -> (r: Vec<u8>)
        ensures
            r@ == spec_render(*self),
    {
        let mut out: Vec<u8> = Vec::new();
        push_bytes(&mut out, "HTTP/1.1 ".as_bytes());
        let digits = u16_to_dec(self.status.status_number());
        push_bytes(&mut out, digits.as_slice());
        push_bytes(&mut out, " ".as_bytes());
        push_bytes(&mut out, self.status.reason_phrase().as_bytes());
        let hdrs = format_headers(&self.headers);
        push_bytes(&mut out, hdrs.as_str().as_bytes());
        push_bytes(&mut out, "\r\n\r\n".as_bytes());
        match &self.body {
            Some(b) => {
                push_bytes(&mut out, b.as_str().as_bytes());
            },
            None => {
                proof {
                    assert(encode_utf8(Seq::<char>::empty()) =~= Seq::<u8>::empty());
                }
            },
        }
        proof {
            assert(out@ =~= spec_render(*self));
        }
        out
    }
}

} // verus!
