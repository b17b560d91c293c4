//! Counting.
use vstd::prelude::*;

verus! {

/// Different indices below a number are no more than that number.
pub proof fn lemma_indices_fit(indices: Seq<int>, count: int)
    requires
        indices.no_duplicates(),
        forall|k: int| 0 <= k < indices.len() ==> 0 <= #[trigger] indices[k] < count,
        0 <= count,
    ensures
        indices.len() <= count,
{
    let range = vstd::set_lib::set_int_range(0, count);
    vstd::set_lib::lemma_int_range(0, count);
    indices.unique_seq_to_set();
    assert(indices.to_set().subset_of(range)) by {
        assert forall|x: int| indices.to_set().contains(x) implies range.contains(x) by {
            let k = choose|k: int| 0 <= k < indices.len() && indices[k] == x;
            assert(0 <= indices[k] < count);
        }
    }
    vstd::set_lib::lemma_len_subset(indices.to_set(), range);
}

} // verus!
