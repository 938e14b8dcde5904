//! Byte-wise lexical ordering on byte sequences, as applied by sorted
//! storage to the keys this library produces.

use vstd::prelude::*;
use crate::key::concat_bytes;

verus! {

/// Strict byte-wise lexical order: `a` comes before `b` when, at the first
/// position where they differ, `a` has the smaller byte, or when `a` is a
/// proper prefix of `b`.
pub open spec fn lex_lt(a: Seq<u8>, b: Seq<u8>) -> bool
    decreases a.len(),
{
    if b.len() == 0 {
        false
    } else if a.len() == 0 {
        true
    } else if a[0] < b[0] {
        true
    } else if a[0] > b[0] {
        false
    } else {
        lex_lt(a.drop_first(), b.drop_first())
    }
}

/// A shared prefix does not affect the lexical comparison of what follows it.
pub proof fn lemma_lex_lt_prepend(p: Seq<u8>, a: Seq<u8>, b: Seq<u8>)
    ensures
        lex_lt(p + a, p + b) == lex_lt(a, b),
    decreases p.len(),
{
    if p.len() == 0 {
        assert(p + a =~= a);
        assert(p + b =~= b);
    } else {
        assert((p + a).drop_first() =~= p.drop_first() + a);
        assert((p + b).drop_first() =~= p.drop_first() + b);
        lemma_lex_lt_prepend(p.drop_first(), a, b);
    }
}

/// Appending anything after two equal-length, lexically ordered sequences
/// keeps the order.
pub proof fn lemma_lex_lt_append(a: Seq<u8>, b: Seq<u8>, x: Seq<u8>, y: Seq<u8>)
    requires
        a.len() == b.len(),
        lex_lt(a, b),
    ensures
        lex_lt(a + x, b + y),
    decreases a.len(),
{
    if a[0] == b[0] {
        assert((a + x).drop_first() =~= a.drop_first() + x);
        assert((b + y).drop_first() =~= b.drop_first() + y);
        lemma_lex_lt_append(a.drop_first(), b.drop_first(), x, y);
    }
}

/// Concatenations of chunk lists compare lexically by their first differing
/// chunk: when all chunks before position `k` agree and the chunks at `k`
/// have equal length and are lexically ordered, so are the concatenations.
pub proof fn lemma_concat_lex_lt(xs: Seq<Seq<u8>>, ys: Seq<Seq<u8>>, k: int)
    requires
        xs.len() == ys.len(),
        0 <= k < xs.len(),
        forall|i: int| 0 <= i < k ==> xs[i] == ys[i],
        xs[k].len() == ys[k].len(),
        lex_lt(xs[k], ys[k]),
    ensures
        lex_lt(concat_bytes(xs), concat_bytes(ys)),
    decreases k,
{
    if k == 0 {
        lemma_lex_lt_append(
            xs[0],
            ys[0],
            concat_bytes(xs.drop_first()),
            concat_bytes(ys.drop_first()),
        );
    } else {
        assert(xs.drop_first()[k - 1] == xs[k]);
        assert(ys.drop_first()[k - 1] == ys[k]);
        lemma_concat_lex_lt(xs.drop_first(), ys.drop_first(), k - 1);
        assert(xs[0] == ys[0]);
        lemma_lex_lt_prepend(
            xs[0],
            concat_bytes(xs.drop_first()),
            concat_bytes(ys.drop_first()),
        );
    }
}

} // verus!
