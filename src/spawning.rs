use vstd::prelude::*;

verus! {

/// Where a joining player spawns, among `spawn_count` player spawn points of
/// which those at the indices in `taken` are held by other players: the
/// first free one, or the first one when all are taken.
pub fn free_spawn_index(spawn_count: usize, taken: &Vec<usize>) -> (r: usize)
    requires
        spawn_count > 0,
    ensures
        r < spawn_count,
        !taken@.contains(r) ==> forall|i: usize| i < r ==> #[trigger] taken@.contains(i),
        taken@.contains(r) ==> r == 0 && forall|i: usize| i < spawn_count ==> #[trigger] taken@.contains(i),
{
    let mut i: usize = 0;
    while i < spawn_count
        invariant
            i <= spawn_count,
            forall|k: usize| k < i ==> #[trigger] taken@.contains(k),
        decreases spawn_count - i,
    {
        let mut held = false;
        let mut j: usize = 0;
        while j < taken.len()
            invariant
                j <= taken@.len(),
                held == exists|t: int| 0 <= t < j && taken@[t] == i,
            decreases taken@.len() - j,
        {
            if taken[j] == i {
                held = true;
            }
            j = j + 1;
        }
        if !held {
            assert(!taken@.contains(i));
            return i;
        }
        assert(taken@[taken@.index_of(i)] == i);
        i = i + 1;
    }
    0
}

} // verus!
