//! Sortedness under an ordering given as a relation, and the fact an
//! insertion sort rests on.

use vstd::prelude::*;

verus! {

/// Every element is related by `le` to every later one.
pub open spec fn sorted_by<T>(s: Seq<T>, le: spec_fn(T, T) -> bool) -> bool {
    forall|i: int, j: int| 0 <= i < j < s.len() ==> le(#[trigger] s[i], #[trigger] s[j])
}

/// Inserting `x` where everything before it is below it and everything from
/// there on is above it keeps a sorted sequence sorted.
pub proof fn lemma_insert_sorted<T>(s: Seq<T>, p: int, x: T, le: spec_fn(T, T) -> bool)
    requires
        sorted_by(s, le),
        0 <= p <= s.len(),
        forall|k: int| 0 <= k < p ==> le(#[trigger] s[k], x),
        forall|k: int| p <= k < s.len() ==> le(x, #[trigger] s[k]),
    ensures
        sorted_by(s.insert(p, x), le),
{
    let t = s.insert(p, x);
    assert forall|i: int, j: int| 0 <= i < j < t.len() implies le(#[trigger] t[i], #[trigger] t[j]) by {
        if j < p {
            assert(t[i] == s[i] && t[j] == s[j]);
        } else if j == p {
            assert(t[i] == s[i] && t[j] == x);
        } else if i < p {
            assert(t[i] == s[i] && t[j] == s[j - 1]);
        } else if i == p {
            assert(t[i] == x && t[j] == s[j - 1]);
        } else {
            assert(t[i] == s[i - 1] && t[j] == s[j - 1]);
        }
    }
}

} // verus!
