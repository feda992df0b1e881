//! Small facts about `Seq::filter` that the index and the report lean on.

use vstd::prelude::*;

verus! {

/// Filtering after appending one element appends it exactly when it passes.
pub proof fn lemma_filter_push<A>(s: Seq<A>, pred: spec_fn(A) -> bool, x: A)
    ensures
        s.push(x).filter(pred) == if pred(x) {
            s.filter(pred).push(x)
        } else {
            s.filter(pred)
        },
{
    reveal(Seq::filter);
    assert(s.push(x).drop_last() =~= s);
    assert(s.push(x).last() == x);
}

/// Whatever the filtered sequence holds came out of the original.
pub proof fn lemma_filter_sub<A>(s: Seq<A>, pred: spec_fn(A) -> bool, x: A)
    requires
        s.filter(pred).contains(x),
    ensures
        s.contains(x),
        pred(x),
    decreases s.len(),
{
    reveal(Seq::filter);
    if s.len() > 0 {
        let dl = s.drop_last();
        if dl.filter(pred).contains(x) {
            lemma_filter_sub(dl, pred, x);
            let j = choose|j: int| 0 <= j < dl.len() && dl[j] == x;
            assert(s[j] == x);
        } else {
            assert(pred(s.last()) && x == s.last());
            assert(s[s.len() - 1] == x);
        }
    }
}

} // verus!
