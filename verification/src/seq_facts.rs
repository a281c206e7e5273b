//! Two facts about growing a sequence one element at a time, shared by the
//! loops that collect distinct values.
use vstd::prelude::*;

verus! {

broadcast use vstd::seq_lib::lemma_seq_contains_after_push;

/// Pushing a value that is not there yet keeps the elements distinct, and the
/// result holds exactly the old elements and the new one.
pub(crate) proof fn lemma_push_fresh<A>(s: Seq<A>, a: A)
    requires
        s.no_duplicates(),
        !s.contains(a),
    ensures
        s.push(a).no_duplicates(),
        forall|y: A| #[trigger] s.push(a).contains(y) <==> (s.contains(y) || y == a),
{
    assert forall|p: int, q: int| 0 <= p < q < s.push(a).len() implies s.push(a)[p] != s.push(a)[q] by {
        if q == s.len() {
            assert(s.contains(s[p]));
        }
    }
}

/// The first `i + 1` elements are the first `i` and the element at `i`; in a
/// sequence without duplicates that element is not among the first `i`.
pub(crate) proof fn lemma_take_next<A>(s: Seq<A>, i: int)
    requires
        0 <= i < s.len(),
    ensures
        s.take(i + 1) == s.take(i).push(s[i]),
        forall|y: A| #[trigger] s.take(i + 1).contains(y) <==> (s.take(i).contains(y) || y == s[i]),
        s.no_duplicates() ==> !s.take(i).contains(s[i]),
{
    assert(s.take(i + 1) =~= s.take(i).push(s[i]));
    if s.no_duplicates() && s.take(i).contains(s[i]) {
        let j = choose|j: int| 0 <= j < i && #[trigger] s.take(i)[j] == s[i];
        assert(s[j] == s[i]);
    }
}

} // verus!
