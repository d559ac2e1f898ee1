//! Parameter bindings: association lists of byte-string pairs in which the
//! last binding for a key wins, together with the mapping they denote.

use vstd::prelude::*;
use vstd::map::*;
use crate::byteseq::{pair_views, bytes_eq};

verus! {

/// The value bound to `k`, the last binding winning.
pub open spec fn assoc_lookup(ps: Seq<(Seq<u8>, Seq<u8>)>, k: Seq<u8>) -> Option<Seq<u8>>
    decreases ps.len(),
{
    if ps.len() == 0 {
        None
    } else if ps.last().0 == k {
        Some(ps.last().1)
    } else {
        assoc_lookup(ps.drop_last(), k)
    }
}

/// The mapping the list denotes, later bindings overriding earlier ones.
pub open spec fn assoc_map(ps: Seq<(Seq<u8>, Seq<u8>)>) -> Map<Seq<u8>, Seq<u8>>
    decreases ps.len(),
{
    if ps.len() == 0 {
        Map::empty()
    } else {
        assoc_map(ps.drop_last()).insert(ps.last().0, ps.last().1)
    }
}

/// Looking a key up in a concatenation prefers the second list.
pub proof fn lemma_assoc_lookup_concat(a: Seq<(Seq<u8>, Seq<u8>)>, b: Seq<(Seq<u8>, Seq<u8>)>, k: Seq<u8>)
    ensures
        assoc_lookup(a + b, k) == (match assoc_lookup(b, k) {
            Some(v) => Some(v),
            None => assoc_lookup(a, k),
        }),
    decreases b.len(),
{
    if b.len() == 0 {
        assert(a + b =~= a);
    } else {
        assert((a + b).drop_last() =~= a + b.drop_last());
        assert((a + b).last() == b.last());
        lemma_assoc_lookup_concat(a, b.drop_last(), k);
    }
}

/// The mapping of a concatenation: the second list's bindings take
/// precedence over the first's.
pub proof fn lemma_assoc_map_concat(a: Seq<(Seq<u8>, Seq<u8>)>, b: Seq<(Seq<u8>, Seq<u8>)>)
    ensures
        assoc_map(a + b) == assoc_map(a).union_prefer_right(assoc_map(b)),
    decreases b.len(),
{
    if b.len() == 0 {
        assert(a + b =~= a);
        assert(assoc_map(a).union_prefer_right(assoc_map(b)) =~= assoc_map(a));
    } else {
        assert((a + b).drop_last() =~= a + b.drop_last());
        assert((a + b).last() == b.last());
        lemma_assoc_map_concat(a, b.drop_last());
        assert(assoc_map(a).union_prefer_right(assoc_map(b.drop_last())).insert(
            b.last().0,
            b.last().1,
        ) =~= assoc_map(a).union_prefer_right(assoc_map(b)));
    }
}

/// Lookup agrees with the denoted mapping.
pub proof fn lemma_assoc_lookup_map(ps: Seq<(Seq<u8>, Seq<u8>)>, k: Seq<u8>)
    ensures
        match assoc_lookup(ps, k) {
            Some(v) => assoc_map(ps).contains_key(k) && assoc_map(ps)[k] == v,
            None => !assoc_map(ps).contains_key(k),
        },
    decreases ps.len(),
{
    if ps.len() > 0 {
        lemma_assoc_lookup_map(ps.drop_last(), k);
    }
}

/// The binding for `k` among the collected parameters, the last one winning.
pub fn param_get<'a>(ps: &'a Vec<(Vec<u8>, Vec<u8>)>, k: &[u8]) -> (r: Option<&'a Vec<u8>>)
    ensures
        match r {
            Some(v) => assoc_lookup(pair_views(ps@), k@) == Some(v@),
            None => assoc_lookup(pair_views(ps@), k@) is None,
        },
{
    let mut i: usize = ps.len();
    proof {
        assert(pair_views(ps@).take(ps@.len() as int) =~= pair_views(ps@));
    }
    while i > 0
        invariant
            i <= ps@.len(),
            assoc_lookup(pair_views(ps@), k@) == assoc_lookup(
                pair_views(ps@).take(i as int),
                k@,
            ),
        decreases i,
    {
        proof {
            assert(pair_views(ps@).take(i as int).last() == (ps@[i - 1].0@, ps@[i - 1].1@));
            assert(pair_views(ps@).take(i as int).drop_last() =~= pair_views(ps@).take(
                i - 1,
            ));
        }
        if bytes_eq(ps[i - 1].0.as_slice(), k) {
            return Some(&ps[i - 1].1);
        }
        i -= 1;
    }
    None
}

} // verus!
