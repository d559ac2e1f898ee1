//! The request decoder: turns the framed segments into a structured request.
//!
//! Segment 0 is the request line, split on spaces: the first token is the
//! method, the second the path, and anything after (the protocol version) is
//! ignored. The segments between the first and the last are header lines,
//! each split at its first `:` with both sides trimmed; a line without a `:`
//! contributes no header. The last segment is the body when it is a JSON
//! body segment (it starts with `{`), cut after the last `}` in it;
//! otherwise the body is empty.

use vstd::prelude::*;
use crate::byteseq::{
    seq_views, pair_views, spec_split, spec_trim, first_index_of, split_bytes, clone_bytes,
    bytes_range, trim_bytes, find_first,
};
use crate::method::{Method, spec_method_of};

verus! {

/// Why a framed buffer could not be decoded into a request.
#[derive(Clone, Copy, Debug, PartialEq, Eq, Structural)]
pub enum DecodeError {
    /// The framer produced no segments at all.
    EmptyRequest,
    /// The request line's method token names none of the nine methods.
    UnknownMethod,
}

/// A decoded request: the method, the raw path (still carrying any query
/// string), the best-effort headers in line order, and the raw body text.
pub struct RequestObj {
    pub method: Method,
    pub path: Vec<u8>,
    pub headers: Vec<(Vec<u8>, Vec<u8>)>,
    pub body: Vec<u8>,
}

/// The mathematical shape of a decoded request.
pub ghost struct ReqView {
    pub method: Method,
    pub path: Seq<u8>,
    pub headers: Seq<(Seq<u8>, Seq<u8>)>,
    pub body: Seq<u8>,
}

impl View for RequestObj {
    type V = ReqView;

    open spec fn view(&self) -> ReqView {
        ReqView {
            method: self.method,
            path: self.path@,
            headers: pair_views(self.headers@),
            body: self.body@,
        }
    }
}

/// The method token of a request line: everything before the first space.
pub open spec fn spec_method_token(line: Seq<u8>) -> Seq<u8> {
    spec_split(line, 32)[0]
}

/// The path token of a request line: between the first and second space, or
/// empty when the line has no space.
pub open spec fn spec_path_token(line: Seq<u8>) -> Seq<u8> {
    let t = spec_split(line, 32);
    if t.len() > 1 {
        t[1]
    } else {
        Seq::empty()
    }
}

/// The header a line contributes: split at the first `:`, both sides
/// trimmed; `None` when the line has no `:`.
pub open spec fn spec_header_of(seg: Seq<u8>) -> Option<(Seq<u8>, Seq<u8>)> {
    let c = first_index_of(seg, 58);
    if c < 0 {
        None
    } else {
        Some((spec_trim(seg.take(c)), spec_trim(seg.skip(c + 1))))
    }
}

/// The headers contributed by a sequence of header lines, in order.
pub open spec fn spec_header_list(mids: Seq<Seq<u8>>) -> Seq<(Seq<u8>, Seq<u8>)>
    decreases mids.len(),
{
    if mids.len() == 0 {
        Seq::empty()
    } else {
        let head = match spec_header_of(mids[0]) {
            Some(p) => seq![p],
            None => Seq::empty(),
        };
        head + spec_header_list(mids.skip(1))
    }
}

/// A body segment cut after the last `}` in it; empty when it has none.
pub open spec fn spec_body_of(s: Seq<u8>) -> Seq<u8>
    decreases s.len(),
{
    if s.len() == 0 {
        Seq::empty()
    } else if s.last() == 125 {
        s
    } else {
        spec_body_of(s.take(s.len() - 1))
    }
}

/// The header lines among the segments: all but the first and the last.
pub open spec fn spec_middle(segs: Seq<Seq<u8>>) -> Seq<Seq<u8>> {
    if segs.len() >= 2 {
        segs.subrange(1, segs.len() - 1)
    } else {
        Seq::empty()
    }
}

/// The body among the segments: the last one, when it is a JSON body
/// segment, cut after its last `}`.
pub open spec fn spec_body(segs: Seq<Seq<u8>>) -> Seq<u8> {
    if segs.len() >= 1 && segs.last().len() > 0 && segs.last()[0] == 123 {
        spec_body_of(segs.last())
    } else {
        Seq::empty()
    }
}

/// What decoding a framed segment sequence yields.
pub open spec fn spec_decode(segs: Seq<Seq<u8>>) -> Result<ReqView, DecodeError> {
    if segs.len() == 0 {
        Err(DecodeError::EmptyRequest)
    } else {
        match spec_method_of(spec_method_token(segs[0])) {
            None => Err(DecodeError::UnknownMethod),
            Some(m) => Ok(
                ReqView {
                    method: m,
                    path: spec_path_token(segs[0]),
                    headers: spec_header_list(spec_middle(segs)),
                    body: spec_body(segs),
                },
            ),
        }
    }
}

proof fn lemma_body_of_found(s: Seq<u8>, i: int)
    requires
        0 <= i < s.len(),
        s[i] == 125,
        forall|k: int| i < k < s.len() ==> s[k] != 125,
    ensures
        spec_body_of(s) == s.take(i + 1),
    decreases s.len(),
{
    if i == s.len() - 1 {
        assert(s.take(i + 1) =~= s);
    } else {
        lemma_body_of_found(s.take(s.len() - 1), i);
        assert(s.take(s.len() - 1).take(i + 1) =~= s.take(i + 1));
    }
}

proof fn lemma_body_of_none(s: Seq<u8>)
    requires
        forall|k: int| 0 <= k < s.len() ==> s[k] != 125,
    ensures
        spec_body_of(s) == Seq::<u8>::empty(),
    decreases s.len(),
{
    if s.len() > 0 {
        lemma_body_of_none(s.take(s.len() - 1));
    }
}

/// The body text a JSON body segment yields: everything up to and including
/// its last `}`, or nothing when it has none.
pub fn body_up_to_last_brace(seg: &Vec<u8>) -> (r: Vec<u8>)
    ensures
        r@ == spec_body_of(seg@),
{
    let mut j: usize = seg.len();
    while j > 0
        invariant
            j <= seg@.len(),
            forall|k: int| j <= k < seg@.len() ==> seg@[k] != 125,
        decreases j,
    {
        if seg[j - 1] == 125 {
            proof {
                lemma_body_of_found(seg@, j - 1);
            }
            return bytes_range(seg.as_slice(), 0, j);
        }
        j -= 1;
    }
    proof {
        lemma_body_of_none(seg@);
    }
    Vec::new()
}

impl RequestObj {
    /// Assembles a request from already-decoded parts.
    pub fn new(
        method: Method,
        path: Vec<u8>,
        headers: Vec<(Vec<u8>, Vec<u8>)>,
        body: Vec<u8>,
    ) -> (r: RequestObj)
        ensures
            r.method == method,
            r.path@ == path@,
            r.headers@ == headers@,
            r.body@ == body@,
    {
        RequestObj { method, path, headers, body }
    }
}

/// Decodes the framed segments into a request; fails exactly when there is
/// no segment at all or the method token is unrecognized.
pub fn buffer_to_request(processed: &Vec<Vec<u8>>) -> (r: Result<RequestObj, DecodeError>)
    ensures
        match r {
            Ok(req) => spec_decode(seq_views(processed@)) == Ok::<ReqView, DecodeError>(req@),
            Err(e) => spec_decode(seq_views(processed@)) == Err::<ReqView, DecodeError>(e),
        },
{
    let ghost segs = seq_views(processed@);
    if processed.len() == 0 {
        return Err(DecodeError::EmptyRequest);
    }
    let toks = split_bytes(processed[0].as_slice(), 32);
    let method = match Method::from_bytes(toks[0].as_slice()) {
        Some(m) => m,
        None => {
            return Err(DecodeError::UnknownMethod);
        },
    };
    let path = if toks.len() > 1 {
        clone_bytes(&toks[1])
    } else {
        Vec::new()
    };

    let mut headers: Vec<(Vec<u8>, Vec<u8>)> = Vec::new();
    let last = processed.len() - 1;
    let ghost mids = spec_middle(segs);
    let mut i: usize = 1;
    proof {
        assert(pair_views(headers@) =~= Seq::<(Seq<u8>, Seq<u8>)>::empty());
        assert(mids.skip(0) =~= mids);
        assert(spec_header_list(mids) =~= pair_views(headers@) + spec_header_list(mids.skip(0)));
    }
    while i < last
        invariant
            1 <= i <= last || (last == 0 && i == 1),
            last == processed@.len() - 1,
            mids == spec_middle(seq_views(processed@)),
            spec_header_list(mids) == pair_views(headers@) + spec_header_list(
                mids.skip(i - 1),
            ),
        decreases last - i,
    {
        let seg = &processed[i];
        let ghost rem = mids.skip(i - 1);
        proof {
            assert(rem[0] == seg@);
            assert(rem.skip(1) =~= mids.skip(i as int));
        }
        match find_first(seg.as_slice(), 58) {
            Some(c) => {
                let seg_len = seg.len();
                proof {
                    assert(c < seg_len);
                }
                let key_raw = bytes_range(seg.as_slice(), 0, c);
                let val_raw = bytes_range(seg.as_slice(), c + 1, seg_len);
                let key = trim_bytes(key_raw.as_slice());
                let val = trim_bytes(val_raw.as_slice());
                proof {
                    assert(seg@.subrange(0, c as int) =~= seg@.take(c as int));
                    assert(seg@.subrange(c + 1, seg@.len() as int) =~= seg@.skip(c + 1));
                    assert(spec_header_of(rem[0]) == Some((key@, val@)));
                    assert(pair_views(headers@.push((key, val))) =~= pair_views(headers@).push(
                        (key@, val@),
                    ));
                    assert(spec_header_list(rem) =~= seq![(key@, val@)] + spec_header_list(
                        rem.skip(1),
                    ));
                }
                headers.push((key, val));
            },
            None => {
                proof {
                    assert(spec_header_of(rem[0]) is None);
                    assert(spec_header_list(rem) =~= spec_header_list(rem.skip(1)));
                }
            },
        }
        i += 1;
    }
    proof {
        if last >= 1 {
            assert(mids.skip(last - 1) =~= Seq::<Seq<u8>>::empty());
        }
        assert(spec_header_list(mids) =~= pair_views(headers@));
    }

    let last_seg = &processed[processed.len() - 1];
    let body = if last_seg.len() > 0 && last_seg[0] == 123 {
        body_up_to_last_brace(last_seg)
    } else {
        Vec::new()
    };
    proof {
        assert(segs.last() == last_seg@);
        assert(body@ == spec_body(segs));
    }
    Ok(RequestObj { method, path, headers, body })
}

} // verus!
