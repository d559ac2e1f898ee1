//! The route table: registered `(method, path template)` endpoints, and the
//! resolution of an incoming request path against them.
//!
//! A template segment of the form `{name}` is a placeholder and matches any
//! incoming segment, binding `name` to it. Resolution splits the path on
//! `/`, drops a trailing empty segment (unless the path is just the root),
//! cuts a query string off the final segment at its first `?`, and then
//! scans the table: an endpoint qualifies when its method matches, its
//! segment count equals the incoming count, and every segment is either
//! byte-identical or a placeholder. The last qualifying endpoint in
//! registration order wins, so callers should not register two endpoints
//! whose shapes overlap for one method. Placeholder bindings are merged with
//! the `&`-separated `key=value` pairs of the query string, the query pairs
//! taking precedence.

use vstd::prelude::*;
use vstd::string::StringSliceAdditionalSpecFns;
use crate::byteseq::{
    seq_views, pair_views, spec_split, first_index_of, split_bytes, clone_bytes, bytes_range,
    bytes_eq, find_first,
};
use crate::method::Method;
use crate::params::assoc_lookup;

verus! {

/// An ASCII uppercase letter, which a placeholder's interior may not hold.
pub open spec fn is_upper(b: u8) -> bool {
    65 <= b && b <= 90
}

/// A placeholder segment: somewhere in it, a `{`...`}` span whose interior
/// holds no ASCII uppercase letter.
pub open spec fn is_placeholder(s: Seq<u8>) -> bool {
    exists|i: int, j: int|
        0 <= i < j < s.len() && s[i] == 123 && s[j] == 125 && (forall|k: int|
            i < k < j ==> !is_upper(s[k]))
}

/// The parameter name a placeholder segment binds: the segment with every
/// brace removed.
pub open spec fn spec_strip_braces(s: Seq<u8>) -> Seq<u8>
    decreases s.len(),
{
    if s.len() == 0 {
        Seq::empty()
    } else {
        let head = if s[0] == 123 || s[0] == 125 {
            Seq::<u8>::empty()
        } else {
            seq![s[0]]
        };
        head + spec_strip_braces(s.skip(1))
    }
}

/// Relies on `regex::Regex::is_match` with the pattern `\{([^A-Z]*?)\}`:
/// it reports whether the text holds a brace-delimited span that is free of
/// ASCII uppercase letters. The match is equivalent over bytes because the
/// bytes `{`, `}` and `A`..`Z` decode only to themselves, and every other
/// byte (or undecodable sequence) decodes to characters outside `A`..`Z`.
#[verifier::external_body]
fn placeholder_matches(seg: &Vec<u8>) -> (r: bool)
    ensures
        r == is_placeholder(seg@),
{
    let re = regex::Regex::new("\\{([^A-Z]*?)\\}").unwrap();
    re.is_match(&String::from_utf8_lossy(seg))
}

/// The mathematical shape of an endpoint: a method and a segment pattern.
pub ghost struct EndpointView {
    pub method: Method,
    pub path: Seq<Seq<u8>>,
}

/// One registered route key: a method and an ordered segment pattern.
pub struct Endpoint {
    pub method: Method,
    pub path: Vec<Vec<u8>>,
}

impl View for Endpoint {
    type V = EndpointView;

    open spec fn view(&self) -> EndpointView {
        EndpointView { method: self.method, path: seq_views(self.path@) }
    }
}

impl PartialEq for Endpoint {
    fn eq(&self, other: &Endpoint) -> (r: bool) {
        if !(self.method == other.method) {
            proof {
                assert(self@.method != other@.method);
            }
            return false;
        }
        if self.path.len() != other.path.len() {
            proof {
                assert(seq_views(self.path@).len() == self.path@.len());
                assert(seq_views(other.path@).len() == other.path@.len());
                assert(self@.path.len() != other@.path.len());
            }
            return false;
        }
        let mut i: usize = 0;
        while i < self.path.len()
            invariant
                i <= self.path@.len(),
                self.path@.len() == other.path@.len(),
                self.method == other.method,
                forall|k: int| 0 <= k < i ==> self.path@[k]@ == other.path@[k]@,
            decreases self.path@.len() - i,
        {
            if !bytes_eq(self.path[i].as_slice(), other.path[i].as_slice()) {
                proof {
                    assert(seq_views(self.path@)[i as int] == self.path@[i as int]@);
                    assert(seq_views(other.path@)[i as int] == other.path@[i as int]@);
                    assert(self@.path != other@.path);
                }
                return false;
            }
            i += 1;
        }
        proof {
            assert(seq_views(self.path@) =~= seq_views(other.path@));
        }
        true
    }
}

impl vstd::std_specs::cmp::PartialEqSpecImpl for Endpoint {
    open spec fn obeys_eq_spec() -> bool {
        true
    }

    open spec fn eq_spec(&self, other: &Endpoint) -> bool {
        self@ == other@
    }
}

/// Splitting a template or path on `/`, with a trailing empty segment
/// dropped unless it is the only one.
pub open spec fn spec_norm(ss: Seq<Seq<u8>>) -> Seq<Seq<u8>> {
    if ss.len() > 1 && ss.last().len() == 0 {
        ss.drop_last()
    } else {
        ss
    }
}

/// The segments a path template yields.
pub open spec fn spec_template_segments(path: Seq<u8>) -> Seq<Seq<u8>> {
    spec_norm(spec_split(path, 47))
}

impl Endpoint {
    /// Builds the route key for a method and a path template such as
    /// `/items/{id}`.
    pub fn new(method: Method, path: &str) -> (r: Endpoint)
        ensures
            r@.method == method,
            r@.path == spec_template_segments(path.spec_bytes()),
    {
        let bytes = path.as_bytes();
        let segs = split_and_normalize(bytes);
        Endpoint { method, path: segs }
    }

    /// An independent copy of this endpoint.
    pub fn dup(&self) -> (r: Endpoint)
        ensures
            r@ == self@,
    {
        let mut path: Vec<Vec<u8>> = Vec::new();
        let mut i: usize = 0;
        while i < self.path.len()
            invariant
                i <= self.path@.len(),
                seq_views(path@) =~= seq_views(self.path@).take(i as int),
            decreases self.path@.len() - i,
        {
            let c = clone_bytes(&self.path[i]);
            proof {
                assert(seq_views(path@.push(c)) =~= seq_views(path@).push(c@));
                assert(seq_views(self.path@).take(i + 1) =~= seq_views(self.path@).take(
                    i as int,
                ).push(self.path@[i as int]@));
            }
            path.push(c);
            i += 1;
        }
        proof {
            assert(seq_views(path@) =~= seq_views(self.path@));
        }
        Endpoint { method: self.method, path }
    }
}

/// Splits on `/` and drops a trailing empty segment unless it is the only
/// segment.
fn split_and_normalize(bytes: &[u8]) -> (r: Vec<Vec<u8>>)
    ensures
        seq_views(r@) == spec_norm(spec_split(bytes@, 47)),
        r@.len() >= 1,
{
    let mut segs = split_bytes(bytes, 47);
    if segs.len() > 1 && segs[segs.len() - 1].len() == 0 {
        proof {
            assert(seq_views(segs@).last().len() == 0);
            assert(seq_views(segs@.drop_last()) =~= seq_views(segs@).drop_last());
        }
        segs.pop();
    }
    segs
}

/// One incoming segment matched against one template segment: byte-identical
/// or the template segment is a placeholder.
pub open spec fn seg_matches(tseg: Seq<u8>, pseg: Seq<u8>) -> bool {
    tseg == pseg || is_placeholder(tseg)
}

/// An endpoint qualifies for a request: same method, same segment count,
/// and every segment matches.
pub open spec fn endpoint_matches(e: EndpointView, m: Method, segs: Seq<Seq<u8>>) -> bool {
    &&& e.method == m
    &&& e.path.len() == segs.len()
    &&& forall|i: int| 0 <= i < segs.len() ==> seg_matches(e.path[i], segs[i])
}

/// The index of the winning endpoint: the last qualifying one in
/// registration order.
pub open spec fn spec_find_match(t: Seq<EndpointView>, m: Method, segs: Seq<Seq<u8>>) -> Option<
    int,
>
    decreases t.len(),
{
    if t.len() == 0 {
        None
    } else if endpoint_matches(t.last(), m, segs) {
        Some(t.len() - 1)
    } else {
        spec_find_match(t.drop_last(), m, segs)
    }
}

pub proof fn lemma_find_match_matches(t: Seq<EndpointView>, m: Method, segs: Seq<Seq<u8>>)
    ensures
        match spec_find_match(t, m, segs) {
            Some(i) => 0 <= i < t.len() && endpoint_matches(t[i], m, segs),
            None => forall|j: int| 0 <= j < t.len() ==> !endpoint_matches(t[j], m, segs),
        },
    decreases t.len(),
{
    if t.len() > 0 && !endpoint_matches(t.last(), m, segs) {
        lemma_find_match_matches(t.drop_last(), m, segs);
        assert(forall|j: int| 0 <= j < t.len() - 1 ==> t.drop_last()[j] == t[j]);
    }
}

/// The scan returns the last qualifying index.
pub proof fn lemma_find_match_last(t: Seq<EndpointView>, m: Method, segs: Seq<Seq<u8>>, k: int)
    requires
        0 <= k < t.len(),
        endpoint_matches(t[k], m, segs),
        forall|j: int| k < j < t.len() ==> !endpoint_matches(t[j], m, segs),
    ensures
        spec_find_match(t, m, segs) == Some(k),
    decreases t.len(),
{
    if k < t.len() - 1 {
        lemma_find_match_last(t.drop_last(), m, segs, k);
    }
}

/// No qualifying endpoint, no match.
pub proof fn lemma_find_match_none(t: Seq<EndpointView>, m: Method, segs: Seq<Seq<u8>>)
    requires
        forall|j: int| 0 <= j < t.len() ==> !endpoint_matches(t[j], m, segs),
    ensures
        spec_find_match(t, m, segs) is None,
    decreases t.len(),
{
    if t.len() > 0 {
        lemma_find_match_none(t.drop_last(), m, segs);
    }
}

/// The bindings a matched pattern extracts: one pair per placeholder
/// segment, in segment order.
pub open spec fn spec_path_params(es: Seq<Seq<u8>>, ss: Seq<Seq<u8>>) -> Seq<(Seq<u8>, Seq<u8>)>
    decreases es.len(),
{
    if es.len() == 0 {
        Seq::empty()
    } else {
        let head = if is_placeholder(es[0]) {
            seq![(spec_strip_braces(es[0]), ss[0])]
        } else {
            Seq::<(Seq<u8>, Seq<u8>)>::empty()
        };
        head + spec_path_params(es.skip(1), ss.skip(1))
    }
}

/// The `key=value` pair a query piece contributes; a piece without `=`
/// contributes none.
pub open spec fn spec_kv_of(p: Seq<u8>) -> Option<(Seq<u8>, Seq<u8>)> {
    let e = first_index_of(p, 61);
    if e < 0 {
        None
    } else {
        Some((p.take(e), p.skip(e + 1)))
    }
}

/// The pairs of a sequence of query pieces, in order.
pub open spec fn spec_pairs_of(ps: Seq<Seq<u8>>) -> Seq<(Seq<u8>, Seq<u8>)>
    decreases ps.len(),
{
    if ps.len() == 0 {
        Seq::empty()
    } else {
        let head = match spec_kv_of(ps[0]) {
            Some(p) => seq![p],
            None => Seq::<(Seq<u8>, Seq<u8>)>::empty(),
        };
        head + spec_pairs_of(ps.skip(1))
    }
}

/// The pairs of a query string: `&`-separated `key=value` pieces.
pub open spec fn spec_query_pairs(q: Seq<u8>) -> Seq<(Seq<u8>, Seq<u8>)> {
    spec_pairs_of(spec_split(q, 38))
}

/// The request segments and query pairs a raw path yields: split on `/`,
/// normalized, and the final segment cut at its first `?`.
pub open spec fn spec_request_segments(path: Seq<u8>) -> (Seq<Seq<u8>>, Seq<(Seq<u8>, Seq<u8>)>) {
    let norm = spec_norm(spec_split(path, 47));
    let last = norm.last();
    let q = first_index_of(last, 63);
    if q >= 0 {
        (norm.update(norm.len() - 1, last.take(q)), spec_query_pairs(last.skip(q + 1)))
    } else {
        (norm, Seq::empty())
    }
}

/// What resolving a request against a table yields: the winning endpoint,
/// if any, and its placeholder bindings followed by the query pairs.
pub open spec fn spec_resolve(t: Seq<EndpointView>, m: Method, path: Seq<u8>) -> (
    Option<EndpointView>,
    Seq<(Seq<u8>, Seq<u8>)>,
) {
    let (segs, qp) = spec_request_segments(path);
    match spec_find_match(t, m, segs) {
        None => (None, Seq::empty()),
        Some(i) => (Some(t[i]), spec_path_params(t[i].path, segs) + qp),
    }
}

/// View of a sequence of endpoints.
pub open spec fn endpoint_views(s: Seq<Endpoint>) -> Seq<EndpointView> {
    s.map_values(|e: Endpoint| e@)
}

/// The registered routes, in registration order.
pub struct RouteTable {
    pub endpoints: Vec<Endpoint>,
}

impl View for RouteTable {
    type V = Seq<EndpointView>;

    open spec fn view(&self) -> Seq<EndpointView> {
        endpoint_views(self.endpoints@)
    }
}

impl RouteTable {
    /// An empty table.
    pub fn new() -> (r: RouteTable)
        ensures
            r@ == Seq::<EndpointView>::empty(),
    {
        let r = RouteTable { endpoints: Vec::new() };
        proof {
            assert(r@ =~= Seq::<EndpointView>::empty());
        }
        r
    }

    /// Registers one endpoint for a method and a path template.
    pub fn register(&mut self, method: Method, path: &str)
        ensures
            final(self)@ == old(self)@.push(
                EndpointView { method, path: spec_template_segments(path.spec_bytes()) },
            ),
    {
        let e = Endpoint::new(method, path);
        proof {
            assert(endpoint_views(self.endpoints@.push(e)) =~= endpoint_views(
                self.endpoints@,
            ).push(e@));
        }
        self.endpoints.push(e);
    }

    /// Resolves a request to the index of the winning endpoint and the merged
    /// parameter bindings: placeholder bindings first, query pairs after, so
    /// that a query pair wins a lookup for a shared name.
    pub fn resolve_entry(&self, method: Method, path: &Vec<u8>) -> (r: (
        Option<usize>,
        Vec<(Vec<u8>, Vec<u8>)>,
    ))
        ensures
            ({
                let (segs, qp) = spec_request_segments(path@);
                match r.0 {
                    Some(i) => i < self@.len() && spec_find_match(self@, method, segs) == Some(
                        i as int,
                    ) && pair_views(r.1@) == spec_path_params(self@[i as int].path, segs) + qp,
                    None => spec_find_match(self@, method, segs) is None && r.1@.len() == 0,
                }
            }),
    {
        let ghost gpair = spec_request_segments(path@);
        let mut segs = split_and_normalize(path.as_slice());
        let mut qpairs: Vec<(Vec<u8>, Vec<u8>)> = Vec::new();
        let li = segs.len() - 1;
        let last_len = segs[li].len();
        match find_first(segs[li].as_slice(), 63) {
            Some(q) => {
                let base = bytes_range(segs[li].as_slice(), 0, q);
                let qs = bytes_range(segs[li].as_slice(), q + 1, last_len);
                proof {
                    let norm = spec_norm(spec_split(path@, 47));
                    assert(norm.last() == segs@[li as int]@);
                    assert(segs@[li as int]@.subrange(0, q as int) =~= norm.last().take(q as int));
                    assert(segs@[li as int]@.subrange(q + 1, segs@[li as int]@.len() as int)
                        =~= norm.last().skip(q + 1));
                }
                qpairs = parse_query(&qs);
                proof {
                    assert(seq_views(segs@.update(li as int, base)) =~= seq_views(segs@).update(
                        li as int,
                        base@,
                    ));
                }
                segs[li] = base;
                proof {
                    assert(seq_views(segs@) == gpair.0);
                    assert(pair_views(qpairs@) == gpair.1);
                }
            },
            None => {
                proof {
                    assert(seq_views(segs@) == gpair.0);
                    assert(pair_views(qpairs@) =~= gpair.1);
                }
            },
        }

        let n = self.endpoints.len();
        let mut best: Option<usize> = None;
        let mut i: usize = 0;
        proof {
            assert(self@.take(0) =~= Seq::<EndpointView>::empty());
        }
        while i < n
            invariant
                i <= n,
                n == self.endpoints@.len(),
                self@.len() == n,
                seq_views(segs@) == gpair.0,
                pair_views(qpairs@) == gpair.1,
                match best {
                    Some(bi) => bi < i && spec_find_match(self@.take(i as int), method, gpair.0)
                        == Some(bi as int),
                    None => spec_find_match(self@.take(i as int), method, gpair.0) is None,
                },
            decreases n - i,
        {
            proof {
                assert(self@.take(i + 1).drop_last() =~= self@.take(i as int));
                assert(self@.take(i + 1).last() == self@[i as int]);
                assert(self@[i as int] == self.endpoints@[i as int]@);
            }
            if endpoint_matches_exec(&self.endpoints[i], method, &segs) {
                best = Some(i);
            }
            i += 1;
        }
        proof {
            assert(self@.take(n as int) =~= self@);
        }
        match best {
            Some(bi) => {
                proof {
                    lemma_find_match_matches(self@, method, gpair.0);
                }
                let mut pp = extract_path_params(&self.endpoints[bi].path, &segs);
                proof {
                    assert(pair_views(pp@ + qpairs@) =~= pair_views(pp@) + pair_views(qpairs@));
                }
                pp.append(&mut qpairs);
                (Some(bi), pp)
            },
            None => (None, Vec::new()),
        }
    }

    /// Resolves a request to the winning endpoint itself and the merged
    /// parameter bindings, or to no endpoint and no bindings.
    pub fn resolve(&self, method: Method, path: &Vec<u8>) -> (r: (
        Option<Endpoint>,
        Vec<(Vec<u8>, Vec<u8>)>,
    ))
        ensures
            ({
                let rs = spec_resolve(self@, method, path@);
                &&& match r.0 {
                    Some(e) => rs.0 == Some(e@),
                    None => rs.0 is None,
                }
                &&& pair_views(r.1@) == rs.1
            }),
    {
        let (idx, params) = self.resolve_entry(method, path);
        match idx {
            Some(i) => (Some(self.endpoints[i].dup()), params),
            None => {
                proof {
                    assert(pair_views(params@) =~= Seq::<(Seq<u8>, Seq<u8>)>::empty());
                }
                (None, params)
            },
        }
    }
}

/// One endpoint held against the request segments.
fn endpoint_matches_exec(e: &Endpoint, method: Method, segs: &Vec<Vec<u8>>) -> (r: bool)
    ensures
        r == endpoint_matches(e@, method, seq_views(segs@)),
{
    if !(e.method == method) {
        return false;
    }
    if e.path.len() != segs.len() {
        return false;
    }
    let mut i: usize = 0;
    while i < segs.len()
        invariant
            i <= segs@.len(),
            e.path@.len() == segs@.len(),
            forall|k: int| 0 <= k < i ==> seg_matches(e.path@[k]@, segs@[k]@),
        decreases segs@.len() - i,
    {
        if !bytes_eq(e.path[i].as_slice(), segs[i].as_slice()) {
            if !placeholder_matches(&e.path[i]) {
                proof {
                    assert(e@.path[i as int] == e.path@[i as int]@);
                    assert(seq_views(segs@)[i as int] == segs@[i as int]@);
                    assert(!seg_matches(e@.path[i as int], seq_views(segs@)[i as int]));
                }
                return false;
            }
        }
        i += 1;
    }
    true
}

/// The parameter name of a placeholder segment: the segment with every brace
/// removed.
pub fn strip_braces(v: &Vec<u8>) -> (r: Vec<u8>)
    ensures
        r@ == spec_strip_braces(v@),
{
    let mut out: Vec<u8> = Vec::new();
    let mut j: usize = 0;
    proof {
        assert(v@.skip(0) =~= v@);
        assert(out@ + spec_strip_braces(v@) =~= spec_strip_braces(v@));
    }
    while j < v.len()
        invariant
            j <= v@.len(),
            spec_strip_braces(v@) == out@ + spec_strip_braces(v@.skip(j as int)),
        decreases v@.len() - j,
    {
        let ghost rem = v@.skip(j as int);
        proof {
            assert(rem[0] == v@[j as int]);
            assert(rem.skip(1) =~= v@.skip(j + 1));
        }
        let b = v[j];
        if b != 123 && b != 125 {
            proof {
                assert(out@.push(b) + spec_strip_braces(v@.skip(j + 1)) =~= out@ + (seq![b]
                    + spec_strip_braces(v@.skip(j + 1))));
            }
            out.push(b);
        } else {
            proof {
                assert(out@ + spec_strip_braces(v@.skip(j + 1)) =~= out@ + (Seq::<u8>::empty()
                    + spec_strip_braces(v@.skip(j + 1))));
            }
        }
        j += 1;
    }
    proof {
        assert(v@.skip(v@.len() as int) =~= Seq::<u8>::empty());
        assert(out@ + Seq::<u8>::empty() =~= out@);
    }
    out
}

/// Walks a matched pattern and binds each placeholder segment's name to the
/// incoming segment at its position.
fn extract_path_params(es: &Vec<Vec<u8>>, ss: &Vec<Vec<u8>>) -> (r: Vec<(Vec<u8>, Vec<u8>)>)
    requires
        es@.len() == ss@.len(),
    ensures
        pair_views(r@) == spec_path_params(seq_views(es@), seq_views(ss@)),
{
    let ghost ges = seq_views(es@);
    let ghost gss = seq_views(ss@);
    let mut out: Vec<(Vec<u8>, Vec<u8>)> = Vec::new();
    let mut j: usize = 0;
    proof {
        assert(ges.skip(0) =~= ges);
        assert(gss.skip(0) =~= gss);
        assert(pair_views(out@) + spec_path_params(ges, gss) =~= spec_path_params(ges, gss));
    }
    while j < es.len()
        invariant
            j <= es@.len(),
            es@.len() == ss@.len(),
            ges == seq_views(es@),
            gss == seq_views(ss@),
            spec_path_params(ges, gss) == pair_views(out@) + spec_path_params(
                ges.skip(j as int),
                gss.skip(j as int),
            ),
        decreases es@.len() - j,
    {
        proof {
            assert(ges.skip(j as int)[0] == ges[j as int]);
            assert(ges.skip(j as int).skip(1) =~= ges.skip(j + 1));
            assert(gss.skip(j as int).skip(1) =~= gss.skip(j + 1));
        }
        if placeholder_matches(&es[j]) {
            let name = strip_braces(&es[j]);
            let value = clone_bytes(&ss[j]);
            proof {
                assert(pair_views(out@.push((name, value))) =~= pair_views(out@).push(
                    (name@, value@),
                ));
                assert(pair_views(out@).push((name@, value@)) + spec_path_params(
                    ges.skip(j + 1),
                    gss.skip(j + 1),
                ) =~= pair_views(out@) + (seq![(name@, value@)] + spec_path_params(
                    ges.skip(j + 1),
                    gss.skip(j + 1),
                )));
            }
            out.push((name, value));
        } else {
            proof {
                assert(pair_views(out@) + spec_path_params(ges.skip(j + 1), gss.skip(j + 1))
                    =~= pair_views(out@) + (Seq::<(Seq<u8>, Seq<u8>)>::empty() + spec_path_params(
                    ges.skip(j + 1),
                    gss.skip(j + 1),
                )));
            }
        }
        j += 1;
    }
    proof {
        assert(ges.skip(ges.len() as int) =~= Seq::<Seq<u8>>::empty());
        assert(pair_views(out@) + Seq::<(Seq<u8>, Seq<u8>)>::empty() =~= pair_views(out@));
    }
    out
}

/// Parses a query string into its `key=value` pairs, in order.
pub fn parse_query(q: &Vec<u8>) -> (r: Vec<(Vec<u8>, Vec<u8>)>)
    ensures
        pair_views(r@) == spec_query_pairs(q@),
{
    let pieces = split_bytes(q.as_slice(), 38);
    let ghost gps = seq_views(pieces@);
    let mut out: Vec<(Vec<u8>, Vec<u8>)> = Vec::new();
    let mut j: usize = 0;
    proof {
        assert(gps.skip(0) =~= gps);
        assert(pair_views(out@) + spec_pairs_of(gps) =~= spec_pairs_of(gps));
    }
    while j < pieces.len()
        invariant
            j <= pieces@.len(),
            gps == seq_views(pieces@),
            spec_pairs_of(gps) == pair_views(out@) + spec_pairs_of(gps.skip(j as int)),
        decreases pieces@.len() - j,
    {
        let piece = &pieces[j];
        proof {
            assert(gps.skip(j as int)[0] == piece@);
            assert(gps.skip(j as int).skip(1) =~= gps.skip(j + 1));
        }
        match find_first(piece.as_slice(), 61) {
            Some(eq_pos) => {
                let piece_len = piece.len();
                let key = bytes_range(piece.as_slice(), 0, eq_pos);
                let value = bytes_range(piece.as_slice(), eq_pos + 1, piece_len);
                proof {
                    assert(piece@.subrange(0, eq_pos as int) =~= piece@.take(eq_pos as int));
                    assert(piece@.subrange(eq_pos + 1, piece@.len() as int) =~= piece@.skip(
                        eq_pos + 1,
                    ));
                    assert(spec_kv_of(gps.skip(j as int)[0]) == Some((key@, value@)));
                    assert(pair_views(out@.push((key, value))) =~= pair_views(out@).push(
                        (key@, value@),
                    ));
                    assert(pair_views(out@).push((key@, value@)) + spec_pairs_of(gps.skip(j + 1))
                        =~= pair_views(out@) + (seq![(key@, value@)] + spec_pairs_of(
                        gps.skip(j + 1),
                    )));
                }
                out.push((key, value));
            },
            None => {
                proof {
                    assert(spec_kv_of(gps.skip(j as int)[0]) is None);
                    assert(pair_views(out@) + spec_pairs_of(gps.skip(j + 1)) =~= pair_views(out@)
                        + (Seq::<(Seq<u8>, Seq<u8>)>::empty() + spec_pairs_of(gps.skip(j + 1))));
                }
            },
        }
        j += 1;
    }
    proof {
        assert(gps.skip(gps.len() as int) =~= Seq::<Seq<u8>>::empty());
        assert(pair_views(out@) + Seq::<(Seq<u8>, Seq<u8>)>::empty() =~= pair_views(out@));
    }
    out
}

/// Law: resolution is a function of the table, method and path alone, so
/// resolving the same request twice against an unchanged table gives
/// identical results.
pub proof fn lemma_resolve_idempotent(
    t: Seq<EndpointView>,
    m: Method,
    path: Seq<u8>,
    r1: (Option<EndpointView>, Seq<(Seq<u8>, Seq<u8>)>),
    r2: (Option<EndpointView>, Seq<(Seq<u8>, Seq<u8>)>),
)
    requires
        r1 == spec_resolve(t, m, path),
        r2 == spec_resolve(t, m, path),
    ensures
        r1 == r2,
{
}

/// An endpoint without placeholder segments.
pub open spec fn literal_only(e: EndpointView) -> bool {
    forall|i: int| 0 <= i < e.path.len() ==> !is_placeholder(e.path[i])
}

/// A pattern without placeholders binds nothing.
pub proof fn lemma_path_params_literal(es: Seq<Seq<u8>>, ss: Seq<Seq<u8>>)
    requires
        forall|i: int| 0 <= i < es.len() ==> !is_placeholder(es[i]),
    ensures
        spec_path_params(es, ss) == Seq::<(Seq<u8>, Seq<u8>)>::empty(),
    decreases es.len(),
{
    if es.len() > 0 {
        assert(forall|i: int|
            0 <= i < es.skip(1).len() ==> !is_placeholder(es.skip(1)[i]));
        lemma_path_params_literal(es.skip(1), ss.skip(1));
        assert(spec_path_params(es, ss) =~= Seq::<(Seq<u8>, Seq<u8>)>::empty());
    }
}

/// Law: a registered literal-only endpoint, requested by its method and its
/// exact path and not shadowed by any other qualifying endpoint, resolves to
/// itself with no parameter bindings.
pub proof fn lemma_literal_exact_resolve(t: Seq<EndpointView>, m: Method, path: Seq<u8>, k: int)
    requires
        0 <= k < t.len(),
        t[k].method == m,
        literal_only(t[k]),
        spec_request_segments(path).0 == t[k].path,
        spec_request_segments(path).1 == Seq::<(Seq<u8>, Seq<u8>)>::empty(),
        forall|j: int| 0 <= j < t.len() && j != k ==> !endpoint_matches(t[j], m, t[k].path),
    ensures
        spec_resolve(t, m, path) == (Some(t[k]), Seq::<(Seq<u8>, Seq<u8>)>::empty()),
{
    let segs = spec_request_segments(path).0;
    assert(endpoint_matches(t[k], m, segs));
    lemma_find_match_last(t, m, segs, k);
    lemma_path_params_literal(t[k].path, segs);
    assert(spec_path_params(t[k].path, segs) + spec_request_segments(path).1 =~= Seq::<(
        Seq<u8>,
        Seq<u8>,
    )>::empty());
}

/// No binding comes out of a pattern for a name no placeholder carries.
pub proof fn lemma_path_params_absent(es: Seq<Seq<u8>>, ss: Seq<Seq<u8>>, name: Seq<u8>)
    requires
        forall|j: int|
            0 <= j < es.len() && is_placeholder(es[j]) ==> spec_strip_braces(es[j]) != name,
    ensures
        assoc_lookup(spec_path_params(es, ss), name) is None,
    decreases es.len(),
{
    if es.len() > 0 {
        assert(forall|j: int| 0 <= j < es.skip(1).len() ==> es.skip(1)[j] == es[j + 1]);
        lemma_path_params_absent(es.skip(1), ss.skip(1), name);
        let head = if is_placeholder(es[0]) {
            seq![(spec_strip_braces(es[0]), ss[0])]
        } else {
            Seq::<(Seq<u8>, Seq<u8>)>::empty()
        };
        let rest = spec_path_params(es.skip(1), ss.skip(1));
        crate::params::lemma_assoc_lookup_concat(head, rest, name);
        if is_placeholder(es[0]) {
            assert(head.last().0 == spec_strip_braces(es[0]));
            assert(spec_strip_braces(es[0]) != name);
            assert(head.drop_last() =~= Seq::<(Seq<u8>, Seq<u8>)>::empty());
            assert(assoc_lookup(head.drop_last(), name) is None);
            assert(assoc_lookup(head, name) is None);
        } else {
            assert(assoc_lookup(head, name) is None);
        }
        assert(spec_path_params(es, ss) == head + rest);
        assert(assoc_lookup(spec_path_params(es, ss), name) is None);
    }
}

/// Law: a placeholder segment binds its name to the incoming segment at its
/// position, provided no later placeholder reuses the name.
pub proof fn lemma_placeholder_binds(es: Seq<Seq<u8>>, ss: Seq<Seq<u8>>, i: int)
    requires
        0 <= i < es.len(),
        es.len() == ss.len(),
        is_placeholder(es[i]),
        forall|j: int|
            i < j < es.len() && is_placeholder(es[j]) ==> spec_strip_braces(es[j])
                != spec_strip_braces(es[i]),
    ensures
        assoc_lookup(spec_path_params(es, ss), spec_strip_braces(es[i])) == Some(ss[i]),
    decreases i,
{
    let name = spec_strip_braces(es[i]);
    let head = if is_placeholder(es[0]) {
        seq![(spec_strip_braces(es[0]), ss[0])]
    } else {
        Seq::<(Seq<u8>, Seq<u8>)>::empty()
    };
    let rest = spec_path_params(es.skip(1), ss.skip(1));
    crate::params::lemma_assoc_lookup_concat(head, rest, name);
    if i == 0 {
        assert(forall|j: int|
            0 <= j < es.skip(1).len() && is_placeholder(es.skip(1)[j]) ==> spec_strip_braces(
                es.skip(1)[j],
            ) != name);
        lemma_path_params_absent(es.skip(1), ss.skip(1), name);
        assert(head.last() == (name, ss[0]));
    } else {
        assert(es.skip(1)[i - 1] == es[i]);
        assert(forall|j: int|
            i - 1 < j < es.skip(1).len() && is_placeholder(es.skip(1)[j]) ==> spec_strip_braces(
                es.skip(1)[j],
            ) != name);
        lemma_placeholder_binds(es.skip(1), ss.skip(1), i - 1);
        assert(ss.skip(1)[i - 1] == ss[i]);
    }
}

/// Law: when endpoint `k` wins the resolution of `path`, each of its
/// placeholder segments binds its name to the incoming segment at its
/// position — provided no later placeholder reuses the name and no query
/// pair shadows it, since a later binding wins a lookup.
pub proof fn lemma_resolve_binds_placeholder(
    t: Seq<EndpointView>,
    m: Method,
    path: Seq<u8>,
    k: int,
    i: int,
)
    requires
        spec_find_match(t, m, spec_request_segments(path).0) == Some(k),
        0 <= i < t[k].path.len(),
        is_placeholder(t[k].path[i]),
        forall|j: int|
            i < j < t[k].path.len() && is_placeholder(t[k].path[j]) ==> spec_strip_braces(
                t[k].path[j],
            ) != spec_strip_braces(t[k].path[i]),
        assoc_lookup(spec_request_segments(path).1, spec_strip_braces(t[k].path[i])) is None,
    ensures
        assoc_lookup(spec_resolve(t, m, path).1, spec_strip_braces(t[k].path[i])) == Some(
            spec_request_segments(path).0[i],
        ),
{
    let segs = spec_request_segments(path).0;
    let qp = spec_request_segments(path).1;
    let name = spec_strip_braces(t[k].path[i]);
    lemma_find_match_matches(t, m, segs);
    assert(t[k].path.len() == segs.len());
    lemma_placeholder_binds(t[k].path, segs, i);
    crate::params::lemma_assoc_lookup_concat(spec_path_params(t[k].path, segs), qp, name);
}

/// Law: the query string is parsed independently of path matching. Against
/// one table, a path that carries `?` and a query resolves to the same
/// endpoint as the bare path; on a match its bindings are the bare path's
/// followed by the query pairs, and as a mapping the query pairs take
/// precedence over placeholder bindings of the same name.
pub proof fn lemma_query_independent(
    t: Seq<EndpointView>,
    m: Method,
    bare: Seq<u8>,
    with_q: Seq<u8>,
    q: Seq<u8>,
)
    requires
        ({
            let normb = spec_norm(spec_split(bare, 47));
            &&& forall|k: int| 0 <= k < normb.last().len() ==> normb.last()[k] != 63
            &&& spec_norm(spec_split(with_q, 47)) == normb.update(
                normb.len() - 1,
                normb.last() + seq![63u8] + q,
            )
        }),
    ensures
        spec_resolve(t, m, with_q).0 == spec_resolve(t, m, bare).0,
        spec_resolve(t, m, bare).0 is Some ==> spec_resolve(t, m, with_q).1 == spec_resolve(
            t,
            m,
            bare,
        ).1 + spec_query_pairs(q),
        spec_resolve(t, m, bare).0 is Some ==> crate::params::assoc_map(
            spec_resolve(t, m, with_q).1,
        ) == crate::params::assoc_map(spec_resolve(t, m, bare).1).union_prefer_right(
            crate::params::assoc_map(spec_query_pairs(q)),
        ),
        spec_resolve(t, m, bare).0 is None ==> spec_resolve(t, m, with_q).1 == Seq::<(
            Seq<u8>,
            Seq<u8>,
        )>::empty(),
{
    let normb = spec_norm(spec_split(bare, 47));
    crate::byteseq::lemma_split_nonempty(bare, 47);
    assert(normb.len() >= 1);
    let lb = normb.last();
    let li = normb.len() - 1;
    let ext = lb + seq![63u8] + q;
    let normw = spec_norm(spec_split(with_q, 47));
    assert(normw == normb.update(li, ext));
    assert(normw.len() == normb.len());
    assert(normw.last() == ext);
    assert(ext[lb.len() as int] == 63) by {
        assert(ext[lb.len() as int] == (lb + seq![63u8])[lb.len() as int]);
    }
    assert(forall|k: int| 0 <= k < lb.len() ==> ext[k] == lb[k]);
    crate::byteseq::lemma_first_index_is(ext, 63, lb.len() as int);
    assert(ext.take(lb.len() as int) =~= lb);
    assert(ext.skip(lb.len() as int + 1) =~= q);
    assert(normw.update(normw.len() - 1, lb) =~= normb);
    crate::byteseq::lemma_first_index_none(lb, 63);
    assert(spec_request_segments(with_q).0 == normb);
    assert(spec_request_segments(with_q).1 == spec_query_pairs(q));
    assert(spec_request_segments(bare).0 == normb);
    assert(spec_request_segments(bare).1 == Seq::<(Seq<u8>, Seq<u8>)>::empty());
    match spec_find_match(t, m, normb) {
        None => {
        },
        Some(i) => {
            let pp = spec_path_params(t[i].path, normb);
            assert(spec_resolve(t, m, bare).1 =~= pp);
            assert(spec_resolve(t, m, with_q).1 == pp + spec_query_pairs(q));
            crate::params::lemma_assoc_map_concat(pp, spec_query_pairs(q));
        },
    }
}

/// Law: a request whose segment count matches no registered endpoint
/// resolves to no endpoint and no bindings.
pub proof fn lemma_count_mismatch_no_match(t: Seq<EndpointView>, m: Method, path: Seq<u8>)
    requires
        forall|j: int|
            0 <= j < t.len() ==> t[j].path.len() != spec_request_segments(path).0.len(),
    ensures
        spec_resolve(t, m, path) == (None::<EndpointView>, Seq::<(Seq<u8>, Seq<u8>)>::empty()),
{
    lemma_find_match_none(t, m, spec_request_segments(path).0);
}

} // verus!
