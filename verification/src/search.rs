//! Finding the first item of a sequence that meets a condition.

use vstd::prelude::*;

verus! {

/// The position of the first item of `s` that meets `p`, or `s.len()` where
/// none does.
pub open spec fn first_at<A>(s: Seq<A>, p: spec_fn(A) -> bool) -> int
    decreases s.len(),
{
    if s.len() == 0 || p(s[0]) {
        0
    } else {
        1 + first_at(s.skip(1), p)
    }
}

/// `first_at` is within the sequence or at its end, no earlier item meets the
/// condition, and the item at it does.
pub proof fn lemma_first_at<A>(s: Seq<A>, p: spec_fn(A) -> bool)
    ensures
        0 <= first_at(s, p) <= s.len(),
        forall|j: int| 0 <= j < first_at(s, p) ==> !p(#[trigger] s[j]),
        first_at(s, p) < s.len() ==> p(s[first_at(s, p)]),
    decreases s.len(),
{
    if s.len() == 0 || p(s[0]) {
    } else {
        let t = s.skip(1);
        lemma_first_at(t, p);
        assert forall|j: int| 0 <= j < first_at(s, p) implies !p(#[trigger] s[j]) by {
            if j > 0 {
                assert(t[j - 1] == s[j]);
            }
        }
        if first_at(s, p) < s.len() {
            assert(t[first_at(t, p)] == s[first_at(s, p)]);
        }
    }
}

/// A position that no item before it meets the condition, and that is the end
/// or holds an item that does, is `first_at`.
pub proof fn lemma_first_at_is<A>(s: Seq<A>, p: spec_fn(A) -> bool, i: int)
    requires
        0 <= i <= s.len(),
        forall|j: int| 0 <= j < i ==> !p(#[trigger] s[j]),
        i < s.len() ==> p(s[i]),
    ensures
        first_at(s, p) == i,
{
    lemma_first_at(s, p);
    let d = first_at(s, p);
    if d < i {
        assert(!p(s[d]));
    } else if i < d {
        assert(p(s[i]));
    }
}

} // verus!
