use vstd::arithmetic::div_mod::lemma_small_mod;
use vstd::prelude::*;

verus! {

/// Number of segments of a subpath with `group_count` manipulator groups:
/// one per group when it is closed, one fewer when it is open (and none for
/// an empty subpath).
pub open spec fn segment_count(group_count: usize, closed: bool) -> usize {
    if !closed && group_count > 0 {
        (group_count - 1) as usize
    } else {
        group_count
    }
}

/// A closed subpath has one segment per manipulator group, an open one with
/// at least one group has one segment fewer than groups, and an empty one
/// has none.
pub proof fn law_segment_count(group_count: usize, closed: bool, count: usize)
    requires
        count == segment_count(group_count, closed),
    ensures
        closed ==> count == group_count,
        !closed && group_count > 0 ==> count + 1 == group_count,
        group_count == 0 ==> count == 0,
{
}

/// The number of segments of a subpath.
pub fn len_segments(group_count: usize, closed: bool) -> (count: usize)
    ensures
        count == segment_count(group_count, closed),
        closed ==> count == group_count,
        !closed && group_count > 0 ==> count + 1 == group_count,
        group_count == 0 ==> count == 0,
{
    proof {
        law_segment_count(group_count, closed, segment_count(group_count, closed));
    }
    if !closed && group_count > 0 {
        group_count - 1
    } else {
        group_count
    }
}

/// The manipulator groups each segment of a subpath runs between, in order:
/// segment `i` runs from group `i` to group `(i + 1) % group_count`.
pub fn segment_endpoints(group_count: usize, closed: bool) -> (pairs: Vec<(usize, usize)>)
    ensures
        pairs@.len() == segment_count(group_count, closed),
        forall|i: int|
            0 <= i < pairs@.len() ==> #[trigger] pairs@[i] == (i as usize, ((i + 1) % (
            group_count as int)) as usize),
        // an open subpath never wraps around
        !closed ==> forall|i: int| 0 <= i < pairs@.len() ==> (#[trigger] pairs@[i]).1 == i + 1,
        // consecutive segments meet at a manipulator group
        forall|i: int| 0 <= i < pairs@.len() - 1 ==> (#[trigger] pairs@[i]).1 == pairs@[i + 1].0,
        // a closed subpath ends where it starts
        closed && group_count > 0 ==> pairs@[pairs@.len() - 1].1 == 0,
        closed ==> pairs@.len() == group_count,
        !closed && group_count > 0 ==> pairs@.len() + 1 == group_count,
        group_count == 0 ==> pairs@.len() == 0,
{
    let count = len_segments(group_count, closed);
    let mut pairs: Vec<(usize, usize)> = Vec::new();
    let mut i: usize = 0;
    while i < count
        invariant
            count == segment_count(group_count, closed),
            count <= group_count,
            i <= count,
            pairs@.len() == i,
            forall|j: int|
                0 <= j < i ==> #[trigger] pairs@[j] == (j as usize, ((j + 1) % (
                group_count as int)) as usize),
        decreases count - i,
    {
        pairs.push((i, (i + 1) % group_count));
        i = i + 1;
    }
    assert forall|j: int| 0 <= j < pairs@.len() - 1 implies (#[trigger] pairs@[j]).1 == pairs@[j
        + 1].0 by {
        assert(pairs@[j + 1] == ((j + 1) as usize, ((j + 2) % (group_count as int)) as usize));
        lemma_small_mod((j + 1) as nat, group_count as nat);
    }
    if !closed {
        assert forall|j: int| 0 <= j < pairs@.len() implies (#[trigger] pairs@[j]).1 == j + 1 by {
            lemma_small_mod((j + 1) as nat, group_count as nat);
        }
    }
    if closed && group_count > 0 {
        assert(pairs@[count - 1] == ((count - 1) as usize, ((count as int) % (group_count as int)) as usize));
    }
    pairs
}

} // verus!
