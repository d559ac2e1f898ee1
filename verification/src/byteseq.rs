//! Byte-sequence utilities shared by the framer, decoder, router and encoder:
//! splitting on a separator byte, trimming ASCII whitespace, locating bytes,
//! and copying ranges, each specified over `Seq<u8>`.

use vstd::prelude::*;

verus! {

/// View of a sequence of byte vectors as a sequence of byte sequences.
pub open spec fn seq_views(s: Seq<Vec<u8>>) -> Seq<Seq<u8>> {
    s.map_values(|v: Vec<u8>| v@)
}

/// View of a sequence of byte-vector pairs as a sequence of byte-sequence pairs.
pub open spec fn pair_views(s: Seq<(Vec<u8>, Vec<u8>)>) -> Seq<(Seq<u8>, Seq<u8>)> {
    s.map_values(|p: (Vec<u8>, Vec<u8>)| (p.0@, p.1@))
}

/// ASCII whitespace, as trimmed from header names and values.
pub open spec fn is_space(b: u8) -> bool {
    b == 9 || b == 10 || b == 11 || b == 12 || b == 13 || b == 32
}

/// Splitting on a separator byte, in the manner of `str::split`: the result
/// has one entry per separator-free run, keeps empty runs, and is never empty.
pub open spec fn spec_split(s: Seq<u8>, sep: u8) -> Seq<Seq<u8>>
    decreases s.len(),
{
    if s.len() == 0 {
        seq![Seq::<u8>::empty()]
    } else if s[0] == sep {
        seq![Seq::<u8>::empty()] + spec_split(s.skip(1), sep)
    } else {
        let rest = spec_split(s.skip(1), sep);
        rest.update(0, seq![s[0]] + rest[0])
    }
}

pub proof fn lemma_split_nonempty(s: Seq<u8>, sep: u8)
    ensures
        spec_split(s, sep).len() >= 1,
    decreases s.len(),
{
    if s.len() > 0 {
        lemma_split_nonempty(s.skip(1), sep);
    }
}

/// A sequence without the separator splits into itself alone.
pub proof fn lemma_split_no_sep(s: Seq<u8>, sep: u8)
    requires
        forall|i: int| 0 <= i < s.len() ==> s[i] != sep,
    ensures
        spec_split(s, sep) == seq![s],
    decreases s.len(),
{
    if s.len() == 0 {
        assert(spec_split(s, sep) =~~= seq![s]);
    } else {
        lemma_split_no_sep(s.skip(1), sep);
        let rest = spec_split(s.skip(1), sep);
        assert(rest.update(0, seq![s[0]] + rest[0]) =~~= seq![s]);
    }
}

/// Splitting at the first separator occurrence peels off the prefix.
pub proof fn lemma_split_first_sep(s: Seq<u8>, sep: u8, k: int)
    requires
        0 <= k < s.len(),
        s[k] == sep,
        forall|i: int| 0 <= i < k ==> s[i] != sep,
    ensures
        spec_split(s, sep) == seq![s.take(k)] + spec_split(s.skip(k + 1), sep),
    decreases k,
{
    if k == 0 {
        assert(s.take(0) =~= Seq::<u8>::empty());
        assert(spec_split(s, sep) =~~= seq![s.take(0)] + spec_split(s.skip(1), sep));
    } else {
        let t = s.skip(1);
        assert(t[k - 1] == sep);
        lemma_split_first_sep(t, sep, k - 1);
        assert(t.skip(k) =~= s.skip(k + 1));
        let rest = spec_split(t, sep);
        assert(rest == seq![t.take(k - 1)] + spec_split(s.skip(k + 1), sep));
        assert(seq![s[0]] + t.take(k - 1) =~= s.take(k));
        assert(rest.update(0, seq![s[0]] + rest[0]) =~~= seq![s.take(k)] + spec_split(
            s.skip(k + 1),
            sep,
        ));
    }
}

/// Index of the first occurrence of `b` in `s`, or `-1` when absent.
pub open spec fn first_index_of(s: Seq<u8>, b: u8) -> int
    decreases s.len(),
{
    if s.len() == 0 {
        -1
    } else if s[0] == b {
        0
    } else {
        let r = first_index_of(s.skip(1), b);
        if r < 0 {
            -1
        } else {
            r + 1
        }
    }
}

pub proof fn lemma_first_index_is(s: Seq<u8>, b: u8, i: int)
    requires
        0 <= i < s.len(),
        s[i] == b,
        forall|k: int| 0 <= k < i ==> s[k] != b,
    ensures
        first_index_of(s, b) == i,
    decreases i,
{
    if i > 0 {
        lemma_first_index_is(s.skip(1), b, i - 1);
    }
}

pub proof fn lemma_first_index_in_range(s: Seq<u8>, b: u8)
    ensures
        first_index_of(s, b) >= 0 ==> 0 <= first_index_of(s, b) < s.len() && s[first_index_of(
            s,
            b,
        )] == b,
    decreases s.len(),
{
    if s.len() > 0 && s[0] != b {
        lemma_first_index_in_range(s.skip(1), b);
    }
}

pub proof fn lemma_first_index_none(s: Seq<u8>, b: u8)
    requires
        forall|k: int| 0 <= k < s.len() ==> s[k] != b,
    ensures
        first_index_of(s, b) == -1,
    decreases s.len(),
{
    if s.len() > 0 {
        lemma_first_index_none(s.skip(1), b);
    }
}

/// The input with leading ASCII whitespace removed.
pub open spec fn drop_leading_spaces(s: Seq<u8>) -> Seq<u8>
    decreases s.len(),
{
    if s.len() > 0 && is_space(s[0]) {
        drop_leading_spaces(s.skip(1))
    } else {
        s
    }
}

/// The input with trailing ASCII whitespace removed.
pub open spec fn drop_trailing_spaces(s: Seq<u8>) -> Seq<u8>
    decreases s.len(),
{
    if s.len() > 0 && is_space(s.last()) {
        drop_trailing_spaces(s.take(s.len() - 1))
    } else {
        s
    }
}

/// The input with whitespace removed from both ends.
pub open spec fn spec_trim(s: Seq<u8>) -> Seq<u8> {
    drop_trailing_spaces(drop_leading_spaces(s))
}

pub proof fn lemma_drop_leading(s: Seq<u8>, a: int)
    requires
        0 <= a <= s.len(),
        forall|k: int| 0 <= k < a ==> is_space(s[k]),
        a < s.len() ==> !is_space(s[a]),
    ensures
        drop_leading_spaces(s) == s.skip(a),
    decreases a,
{
    if a == 0 {
        assert(s.skip(0) =~= s);
    } else {
        lemma_drop_leading(s.skip(1), a - 1);
        assert(s.skip(1).skip(a - 1) =~= s.skip(a));
    }
}

pub proof fn lemma_drop_trailing(s: Seq<u8>, b: int)
    requires
        0 <= b <= s.len(),
        forall|k: int| b <= k < s.len() ==> is_space(s[k]),
        b > 0 ==> !is_space(s[b - 1]),
    ensures
        drop_trailing_spaces(s) == s.take(b),
    decreases s.len(),
{
    if b == s.len() {
        assert(s.take(b) =~= s);
    } else {
        lemma_drop_trailing(s.take(s.len() - 1), b);
        assert(s.take(s.len() - 1).take(b) =~= s.take(b));
    }
}

/// True exactly when the two byte slices hold the same bytes.
pub fn bytes_eq(a: &[u8], b: &[u8]) -> (r: bool)
    ensures
        r == (a@ == b@),
{
    if a.len() != b.len() {
        return false;
    }
    let mut i: usize = 0;
    while i < a.len()
        invariant
            i <= a.len(),
            a.len() == b.len(),
            forall|k: int| 0 <= k < i ==> a@[k] == b@[k],
        decreases a.len() - i,
    {
        if a[i] != b[i] {
            return false;
        }
        i += 1;
    }
    proof {
        assert(a@ =~= b@);
    }
    true
}

/// The bytes of `v` in positions `a..b`, as a fresh vector.
pub fn bytes_range(v: &[u8], a: usize, b: usize) -> (r: Vec<u8>)
    requires
        a <= b <= v@.len(),
    ensures
        r@ == v@.subrange(a as int, b as int),
{
    let mut out: Vec<u8> = Vec::new();
    let mut i: usize = a;
    while i < b
        invariant
            a <= i <= b <= v@.len(),
            out@ =~= v@.subrange(a as int, i as int),
        decreases b - i,
    {
        out.push(v[i]);
        i += 1;
        proof {
            assert(out@ =~= v@.subrange(a as int, i as int));
        }
    }
    out
}

/// A fresh copy of a byte vector.
pub fn clone_bytes(v: &Vec<u8>) -> (r: Vec<u8>)
    ensures
        r@ == v@,
{
    let r = bytes_range(v.as_slice(), 0, v.len());
    proof {
        assert(v@.subrange(0, v@.len() as int) =~= v@);
    }
    r
}

/// Position of the first occurrence of `b` in `v`, if any.
pub fn find_first(v: &[u8], b: u8) -> (r: Option<usize>)
    ensures
        match r {
            Some(i) => i == first_index_of(v@, b) && i < v@.len() && v@[i as int] == b,
            None => first_index_of(v@, b) == -1,
        },
{
    let mut i: usize = 0;
    while i < v.len()
        invariant
            i <= v.len(),
            forall|k: int| 0 <= k < i ==> v@[k] != b,
        decreases v.len() - i,
    {
        if v[i] == b {
            proof {
                lemma_first_index_is(v@, b, i as int);
            }
            return Some(i);
        }
        i += 1;
    }
    proof {
        lemma_first_index_none(v@, b);
    }
    None
}

/// Splits `v` on the separator byte, in the manner of `str::split`.
pub fn split_bytes(v: &[u8], sep: u8) -> (r: Vec<Vec<u8>>)
    ensures
        seq_views(r@) == spec_split(v@, sep),
        r@.len() >= 1,
{
    let mut out: Vec<Vec<u8>> = Vec::new();
    let mut start: usize = 0;
    let mut j: usize = 0;
    proof {
        assert(v@.skip(0) =~= v@);
        assert(seq_views(out@) + spec_split(v@, sep) =~= spec_split(v@, sep));
    }
    while j < v.len()
        invariant
            start <= j <= v@.len(),
            forall|k: int| start <= k < j ==> v@[k] != sep,
            spec_split(v@, sep) == seq_views(out@) + spec_split(v@.skip(start as int), sep),
        decreases v.len() - j,
    {
        if v[j] == sep {
            let piece = bytes_range(v, start, j);
            proof {
                let tail = v@.skip(start as int);
                lemma_split_first_sep(tail, sep, j - start);
                assert(tail.take(j - start) =~= v@.subrange(start as int, j as int));
                assert(tail.skip(j - start + 1) =~= v@.skip(j + 1));
                assert(seq_views(out@.push(piece)) =~= seq_views(out@) + seq![piece@]);
            }
            out.push(piece);
            start = j + 1;
        }
        j += 1;
    }
    let last_piece = bytes_range(v, start, v.len());
    proof {
        let tail = v@.skip(start as int);
        lemma_split_no_sep(tail, sep);
        assert(tail =~= v@.subrange(start as int, v@.len() as int));
        assert(seq_views(out@.push(last_piece)) =~= seq_views(out@) + seq![last_piece@]);
        lemma_split_nonempty(v@, sep);
    }
    out.push(last_piece);
    proof {
        assert(seq_views(out@) =~= spec_split(v@, sep));
    }
    out
}

/// Removes ASCII whitespace from both ends of `v`.
pub fn trim_bytes(v: &[u8]) -> (r: Vec<u8>)
    ensures
        r@ == spec_trim(v@),
{
    let mut a: usize = 0;
    while a < v.len() && is_space_byte(v[a])
        invariant
            a <= v@.len(),
            forall|k: int| 0 <= k < a ==> is_space(v@[k]),
        decreases v.len() - a,
    {
        a += 1;
    }
    proof {
        lemma_drop_leading(v@, a as int);
    }
    let mut b: usize = v.len();
    while b > a && is_space_byte(v[b - 1])
        invariant
            a <= b <= v@.len(),
            forall|k: int| b <= k < v@.len() ==> is_space(v@[k]),
        decreases b,
    {
        b -= 1;
    }
    let r = bytes_range(v, a, b);
    proof {
        let lead = v@.skip(a as int);
        if b == a {
            lemma_drop_trailing(lead, 0);
        } else {
            lemma_drop_trailing(lead, b - a);
        }
        assert(lead.take(b - a) =~= v@.subrange(a as int, b as int));
    }
    r
}

/// Exec test for the whitespace class used by `spec_trim`.
pub fn is_space_byte(b: u8) -> (r: bool)
    ensures
        r == is_space(b),
{
    b == 9 || b == 10 || b == 11 || b == 12 || b == 13 || b == 32
}

} // verus!
