//! Lists put into an order: what it means that one list arranges another,
//! and that a list stands in a given order.

use vstd::prelude::*;

verus! {

/// `out` arranges `src`: it is as long, and each holds every element of the
/// other.
pub open spec fn arranges<T>(out: Seq<T>, src: Seq<T>) -> bool {
    &&& out.len() == src.len()
    &&& forall|j: int| 0 <= j < out.len() ==> src.contains(#[trigger] out[j])
    &&& forall|k: int| 0 <= k < src.len() ==> out.contains(#[trigger] src[k])
}

/// Every element of the list stands before all later ones.
pub open spec fn ordered<T>(s: Seq<T>, before: spec_fn(T, T) -> bool) -> bool {
    forall|i: int, j: int| 0 <= i < j < s.len() ==> before(#[trigger] s[i], #[trigger] s[j])
}

/// An arrangement stays one when an element is put into it that is appended
/// to the list it arranges.
pub proof fn lemma_arranges_insert<T>(out: Seq<T>, src: Seq<T>, p: int, x: T)
    requires
        arranges(out, src),
        0 <= p <= out.len(),
    ensures
        arranges(out.insert(p, x), src.push(x)),
{
    let out2 = out.insert(p, x);
    let src2 = src.push(x);
    assert forall|j: int| 0 <= j < out2.len() implies src2.contains(#[trigger] out2[j]) by {
        if j == p {
            assert(src2[src.len() as int] == x);
        } else {
            let o = if j < p {
                out[j]
            } else {
                out[j - 1]
            };
            assert(out2[j] == o);
            assert(src.contains(o));
            let k = src.index_of(o);
            assert(src2[k] == o);
        }
    }
    assert forall|k: int| 0 <= k < src2.len() implies out2.contains(#[trigger] src2[k]) by {
        if k == src.len() {
            assert(out2[p] == x);
        } else {
            assert(out.contains(src[k]));
            let j = out.index_of(src[k]);
            if j < p {
                assert(out2[j] == src[k]);
            } else {
                assert(out2[j + 1] == src[k]);
            }
        }
    }
}

/// A list stays in order when an element is put in at a position where all
/// before it stand before the element and the element stands before all
/// after it.
pub proof fn lemma_ordered_insert<T>(s: Seq<T>, before: spec_fn(T, T) -> bool, p: int, x: T)
    requires
        ordered(s, before),
        0 <= p <= s.len(),
        forall|q: int| 0 <= q < p ==> before(#[trigger] s[q], x),
        forall|q: int| p <= q < s.len() ==> before(x, #[trigger] s[q]),
    ensures
        ordered(s.insert(p, x), before),
{
    let s2 = s.insert(p, x);
    assert forall|a: int, b: int| 0 <= a < b < s2.len() implies before(
        #[trigger] s2[a],
        #[trigger] s2[b],
    ) by {
        if a < p && b > p {
            assert(s2[a] == s[a]);
            assert(s2[b] == s[b - 1]);
        } else if a < p && b < p {
            assert(s2[a] == s[a]);
            assert(s2[b] == s[b]);
        } else if a > p {
            assert(s2[a] == s[a - 1]);
            assert(s2[b] == s[b - 1]);
        } else if a == p {
            assert(s2[b] == s[b - 1]);
        } else {
            assert(s2[a] == s[a]);
        }
    }
}

} // verus!
