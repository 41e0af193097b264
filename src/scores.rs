use vstd::prelude::*;

verus! {

pub open spec fn sorted_descending(s: Seq<usize>) -> bool {
    forall|i: int, j: int| 0 <= i < j < s.len() ==> s[i] >= s[j]
}

/// The scores from best to worst; equal scores keep the order in which they
/// were recorded.
pub fn sort_descending(scores: &Vec<usize>) -> (r: Vec<usize>)
    ensures
        sorted_descending(r@),
        r@.to_multiset() == scores@.to_multiset(),
{
    broadcast use vstd::seq_lib::group_to_multiset_ensures;

    let mut r: Vec<usize> = Vec::new();
    let mut i: usize = 0;
    while i < scores.len()
        invariant
            i <= scores@.len(),
            sorted_descending(r@),
            r@.to_multiset() == scores@.subrange(0, i as int).to_multiset(),
        decreases scores@.len() - i,
    {
        let x = scores[i];
        let mut j: usize = 0;
        while j < r.len() && r[j] >= x
            invariant
                j <= r@.len(),
                forall|k: int| 0 <= k < j ==> r@[k] >= x,
            decreases r@.len() - j,
        {
            j = j + 1;
        }
        proof {
            vstd::seq_lib::to_multiset_insert(r@, j as int, x);
            assert(scores@.subrange(0, i + 1) == scores@.subrange(0, i as int).push(x));
            vstd::seq_lib::to_multiset_build(scores@.subrange(0, i as int), x);
        }
        r.insert(j, x);
        i = i + 1;
    }
    assert(scores@.subrange(0, scores@.len() as int) == scores@);
    r
}

} // verus!
