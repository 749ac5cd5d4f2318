use vstd::prelude::*;

verus! {

/// One self-intersection met while walking a segment: its index in the list
/// of self-intersections and the integer factor its integral term gets.
#[derive(Clone, Copy, Debug, PartialEq, Eq)]
pub struct Crossing {
    pub intersection: usize,
    pub coefficient: i8,
}

/// How the signed integral of one segment is assembled. The segment runs
/// from manipulator group `start_index` to `end_index`; its integral is
/// `start_coefficient * F(0) + sum(crossing.coefficient * F(t_crossing)) +
/// end_coefficient * F(1)` for the segment's antiderivative `F`.
#[derive(Debug, PartialEq, Eq)]
pub struct SegmentTerms {
    pub start_index: usize,
    pub end_index: usize,
    pub start_coefficient: i8,
    pub crossings: Vec<Crossing>,
    pub end_coefficient: i8,
}

/// Number of the first `upto` self-intersections that lie on a segment
/// with index below `k`.
pub open spec fn count_below(segs: Seq<usize>, k: int, upto: int) -> nat
    decreases upto,
{
    if upto <= 0 {
        0
    } else {
        count_below(segs, k, upto - 1) + if (segs[upto - 1] as int) < k {
            1nat
        } else {
            0nat
        }
    }
}

/// Number of self-intersections walked before segment `k` is entered: those
/// on the segments `0 .. k`.
pub open spec fn crossings_before(segs: Seq<usize>, k: int) -> nat {
    count_below(segs, k, segs.len() as int)
}

/// The indices, in increasing order, of the first `upto` self-intersections
/// that lie on segment `k`.
pub open spec fn crossings_on_segment(segs: Seq<usize>, k: int, upto: int) -> Seq<int>
    decreases upto,
{
    if upto <= 0 {
        Seq::empty()
    } else {
        let prev = crossings_on_segment(segs, k, upto - 1);
        if segs[upto - 1] as int == k {
            prev.push(upto - 1)
        } else {
            prev
        }
    }
}

/// The indices, in increasing order, of all self-intersections on segment `k`.
pub open spec fn crossings_of(segs: Seq<usize>, k: int) -> Seq<int> {
    crossings_on_segment(segs, k, segs.len() as int)
}

/// The running sign after `flips` sign changes, starting from `+1`.
pub open spec fn parity_sign(flips: nat) -> int {
    if flips % 2 == 0 {
        1
    } else {
        -1
    }
}

/// `terms` is how segment `k` of a closed walk over `n` manipulator groups
/// is assembled: the running sign enters the segment as the sign after all
/// earlier crossings, each crossing counts twice with the sign before it and
/// flips it, and the segment leaves with the flipped sign.
pub open spec fn segment_terms_spec(terms: SegmentTerms, segs: Seq<usize>, n: int, k: int) -> bool {
    let before = crossings_before(segs, k);
    let on = crossings_of(segs, k);
    &&& terms.start_index == k
    &&& terms.end_index == (k + 1) % n
    &&& terms.start_coefficient == -parity_sign(before)
    &&& terms.end_coefficient == parity_sign(crossings_before(segs, k + 1))
    &&& terms.crossings@.len() == on.len()
    &&& forall|c: int|
        0 <= c < on.len() ==> {
            &&& (#[trigger] terms.crossings@[c]).intersection == on[c]
            &&& terms.crossings@[c].coefficient == 2 * parity_sign((before + c) as nat)
        }
}

proof fn lemma_count_below_step(segs: Seq<usize>, k: int, upto: int)
    requires
        0 <= upto <= segs.len(),
    ensures
        count_below(segs, k, upto) + crossings_on_segment(segs, k, upto).len() == count_below(
            segs,
            k + 1,
            upto,
        ),
    decreases upto,
{
    if upto > 0 {
        lemma_count_below_step(segs, k, upto - 1);
    }
}

proof fn lemma_nothing_below_zero(segs: Seq<usize>, upto: int)
    ensures
        count_below(segs, 0, upto) == 0,
    decreases upto,
{
    if upto > 0 {
        lemma_nothing_below_zero(segs, upto - 1);
    }
}

proof fn lemma_parity_step(flips: nat)
    ensures
        parity_sign(flips + 1) == -parity_sign(flips),
{
}

/// Walking segment `k` flips the running sign once per self-intersection on
/// it: the count of crossings before segment `k + 1` is the count before
/// segment `k` plus the crossings on `k`, so the sign that leaves segment
/// `k` is the one that enters segment `k + 1`.
pub proof fn lemma_sign_carries_over(segs: Seq<usize>, k: int)
    ensures
        crossings_before(segs, k + 1) == crossings_before(segs, k) + crossings_of(segs, k).len(),
        parity_sign(crossings_before(segs, k + 1)) == parity_sign(
            (crossings_before(segs, k) + crossings_of(segs, k).len()) as nat,
        ),
{
    lemma_count_below_step(segs, k, segs.len() as int);
}

proof fn lemma_crossings_on_segment_facts(segs: Seq<usize>, k: int, upto: int)
    requires
        0 <= upto <= segs.len(),
    ensures
        forall|c: int|
            0 <= c < crossings_on_segment(segs, k, upto).len() ==> {
                let j = #[trigger] crossings_on_segment(segs, k, upto)[c];
                &&& 0 <= j < upto
                &&& segs[j] as int == k
                &&& crossings_on_segment(segs, k, j).len() == c
            },
        forall|c1: int, c2: int|
            0 <= c1 < c2 < crossings_on_segment(segs, k, upto).len() ==> #[trigger] crossings_on_segment(
                segs,
                k,
                upto,
            )[c1] < #[trigger] crossings_on_segment(segs, k, upto)[c2],
    decreases upto,
{
    if upto > 0 {
        lemma_crossings_on_segment_facts(segs, k, upto - 1);
        let prev = crossings_on_segment(segs, k, upto - 1);
        let cur = crossings_on_segment(segs, k, upto);
        if segs[upto - 1] as int == k {
            assert(cur == prev.push(upto - 1));
            assert forall|c: int| 0 <= c < cur.len() implies {
                let j = #[trigger] cur[c];
                &&& 0 <= j < upto
                &&& segs[j] as int == k
                &&& crossings_on_segment(segs, k, j).len() == c
            } by {
                if c < prev.len() {
                    assert(cur[c] == prev[c]);
                } else {
                    assert(cur[c] == upto - 1);
                }
            }
        }
    }
}

proof fn lemma_crossing_found(segs: Seq<usize>, j: int, upto: int)
    requires
        0 <= j < upto <= segs.len(),
    ensures
        crossings_on_segment(segs, segs[j] as int, j).len() < crossings_on_segment(
            segs,
            segs[j] as int,
            upto,
        ).len(),
        crossings_on_segment(segs, segs[j] as int, upto)[crossings_on_segment(
            segs,
            segs[j] as int,
            j,
        ).len() as int] == j,
    decreases upto,
{
    let k = segs[j] as int;
    if upto - 1 > j {
        lemma_crossing_found(segs, j, upto - 1);
        let prev = crossings_on_segment(segs, k, upto - 1);
        if segs[upto - 1] as int == k {
            assert(crossings_on_segment(segs, k, upto) == prev.push(upto - 1));
        }
    } else {
        assert(crossings_on_segment(segs, k, upto) == crossings_on_segment(segs, k, j).push(j));
    }
}

/// The crossings of the segments partition the self-intersections: the
/// crossings listed on segment `k` are exactly the self-intersections on
/// segment `k`, in list order, each listed at the position given by the
/// number of earlier self-intersections on the same segment.
pub proof fn lemma_crossings_partition(segs: Seq<usize>, k: int)
    ensures
        forall|c: int|
            0 <= c < crossings_of(segs, k).len() ==> {
                let j = #[trigger] crossings_of(segs, k)[c];
                &&& 0 <= j < segs.len()
                &&& segs[j] as int == k
            },
        forall|c1: int, c2: int|
            0 <= c1 < c2 < crossings_of(segs, k).len() ==> #[trigger] crossings_of(segs, k)[c1]
                < #[trigger] crossings_of(segs, k)[c2],
        forall|j: int|
            0 <= j < segs.len() && segs[j] as int == k ==> {
                &&& #[trigger] crossings_on_segment(segs, k, j).len() < crossings_of(segs, k).len()
                &&& crossings_of(segs, k)[crossings_on_segment(segs, k, j).len() as int] == j
            },
{
    lemma_crossings_on_segment_facts(segs, k, segs.len() as int);
    assert forall|j: int| 0 <= j < segs.len() && segs[j] as int == k implies {
        &&& #[trigger] crossings_on_segment(segs, k, j).len() < crossings_of(segs, k).len()
        &&& crossings_of(segs, k)[crossings_on_segment(segs, k, j).len() as int] == j
    } by {
        lemma_crossing_found(segs, j, segs.len() as int);
    }
}

/// The result of `signed_segment_terms` as a predicate on the entries.
pub open spec fn signed_terms_spec(group_count: int, segs: Seq<usize>, terms: Seq<SegmentTerms>) -> bool {
    &&& terms.len() == group_count
    &&& forall|k: int|
        0 <= k < group_count ==> segment_terms_spec(#[trigger] terms[k], segs, group_count, k)
}

/// The walk of the signed area: the running sign enters the first segment
/// as `+1` (start coefficient `-1`), every crossing counts twice with the
/// current sign and flips it, a segment is left with the sign it was entered
/// with flipped once per crossing, and the next segment is entered with the
/// sign the previous one was left with. The crossings of segment `k` are
/// exactly the self-intersections on segment `k`, in list order.
pub proof fn law_running_sign(group_count: int, segs: Seq<usize>, terms: Seq<SegmentTerms>)
    requires
        group_count >= 0,
        signed_terms_spec(group_count, segs, terms),
    ensures
        group_count > 0 ==> terms[0].start_coefficient == -1,
        forall|k: int|
            0 <= k < group_count ==> #[trigger] terms[k].start_coefficient == 1
                || terms[k].start_coefficient == -1,
        forall|k: int|
            0 <= k < group_count - 1 ==> #[trigger] terms[k].end_coefficient == -terms[k
                + 1].start_coefficient,
        forall|k: int|
            0 <= k < group_count && terms[k].crossings@.len() > 0 ==> (#[trigger] terms[k].crossings@[0]).coefficient
                == -2 * terms[k].start_coefficient,
        forall|k: int, c: int|
            0 <= k < group_count && 0 <= c < terms[k].crossings@.len() - 1 ==> #[trigger] terms[k].crossings@[c
                + 1].coefficient == -terms[k].crossings@[c].coefficient,
        forall|k: int|
            0 <= k < group_count && terms[k].crossings@.len() == 0 ==> #[trigger] terms[k].end_coefficient
                == -terms[k].start_coefficient,
        forall|k: int|
            0 <= k < group_count && terms[k].crossings@.len() > 0 ==> 2 * #[trigger] terms[k].end_coefficient
                == -terms[k].crossings@.last().coefficient,
        forall|k: int, c: int|
            0 <= k < group_count && 0 <= c < terms[k].crossings@.len() ==> {
                let j = (#[trigger] terms[k].crossings@[c]).intersection;
                &&& j < segs.len()
                &&& segs[j as int] == k
            },
        forall|k: int, c1: int, c2: int|
            0 <= k < group_count && 0 <= c1 < c2 < terms[k].crossings@.len() ==> (
            #[trigger] terms[k].crossings@[c1]).intersection < (
            #[trigger] terms[k].crossings@[c2]).intersection,
        forall|j: int|
            0 <= j < segs.len() && #[trigger] segs[j] < group_count ==> exists|c: int|
                0 <= c < terms[segs[j] as int].crossings@.len() && (#[trigger] terms[segs[j] as int].crossings@[c]).intersection == j,
{
    if group_count > 0 {
        lemma_nothing_below_zero(segs, segs.len() as int);
        assert(segment_terms_spec(terms[0], segs, group_count, 0));
    }
    assert forall|k: int| 0 <= k < group_count - 1 implies #[trigger] terms[k].end_coefficient
        == -terms[k + 1].start_coefficient by {
        assert(segment_terms_spec(terms[k], segs, group_count, k));
        assert(segment_terms_spec(terms[k + 1], segs, group_count, k + 1));
    }
    assert forall|k: int| 0 <= k < group_count implies #[trigger] terms[k].start_coefficient == 1
        || terms[k].start_coefficient == -1 by {
        assert(segment_terms_spec(terms[k], segs, group_count, k));
    }
    assert forall|k: int, c: int|
        0 <= k < group_count && 0 <= c < terms[k].crossings@.len() - 1 implies #[trigger] terms[k].crossings@[c
        + 1].coefficient == -terms[k].crossings@[c].coefficient by {
        assert(segment_terms_spec(terms[k], segs, group_count, k));
        let before = crossings_before(segs, k);
        lemma_parity_step((before + c) as nat);
        assert(terms[k].crossings@[c + 1].coefficient == 2 * parity_sign((before + c + 1) as nat));
    }
    assert forall|k: int| 0 <= k < group_count && terms[k].crossings@.len() > 0 implies (
    #[trigger] terms[k].crossings@[0]).coefficient == -2 * terms[k].start_coefficient by {
        assert(segment_terms_spec(terms[k], segs, group_count, k));
        assert(terms[k].crossings@[0].coefficient == 2 * parity_sign((crossings_before(segs, k) + 0) as nat));
    }
    assert forall|k: int| 0 <= k < group_count && terms[k].crossings@.len() == 0 implies #[trigger] terms[k].end_coefficient
        == -terms[k].start_coefficient by {
        assert(segment_terms_spec(terms[k], segs, group_count, k));
        lemma_sign_carries_over(segs, k);
    }
    assert forall|k: int| 0 <= k < group_count && terms[k].crossings@.len() > 0 implies 2
        * #[trigger] terms[k].end_coefficient == -terms[k].crossings@.last().coefficient by {
        assert(segment_terms_spec(terms[k], segs, group_count, k));
        lemma_sign_carries_over(segs, k);
        let before = crossings_before(segs, k);
        let len = terms[k].crossings@.len();
        lemma_parity_step((before + len - 1) as nat);
        assert(terms[k].crossings@.last() == terms[k].crossings@[len - 1]);
        assert(terms[k].crossings@[len - 1].coefficient == 2 * parity_sign((before + (len - 1)) as nat));
    }
    assert forall|k: int, c: int| 0 <= k < group_count && 0 <= c < terms[k].crossings@.len() implies {
        let j = (#[trigger] terms[k].crossings@[c]).intersection;
        &&& j < segs.len()
        &&& segs[j as int] == k
    } by {
        assert(segment_terms_spec(terms[k], segs, group_count, k));
        lemma_crossings_partition(segs, k);
        assert(crossings_of(segs, k)[c] == terms[k].crossings@[c].intersection);
    }
    assert forall|k: int, c1: int, c2: int|
        0 <= k < group_count && 0 <= c1 < c2 < terms[k].crossings@.len() implies (
        #[trigger] terms[k].crossings@[c1]).intersection < (
        #[trigger] terms[k].crossings@[c2]).intersection by {
        assert(segment_terms_spec(terms[k], segs, group_count, k));
        lemma_crossings_partition(segs, k);
        assert(crossings_of(segs, k)[c1] < crossings_of(segs, k)[c2]);
    }
    assert forall|j: int| 0 <= j < segs.len() && #[trigger] segs[j] < group_count implies exists|c: int|
        0 <= c < terms[segs[j] as int].crossings@.len() && (#[trigger] terms[segs[j] as int].crossings@[c]).intersection == j by {
        let k = segs[j] as int;
        assert(segment_terms_spec(terms[k], segs, group_count, k));
        lemma_crossings_partition(segs, k);
        let c = crossings_on_segment(segs, k, j).len() as int;
        assert(crossings_on_segment(segs, k, j).len() < crossings_of(segs, k).len());
        assert(terms[k].crossings@[c].intersection == j);
    }
}

/// How the signed area of a subpath, always taken as closed, is assembled:
/// one entry per manipulator group `k`, for the segment from group `k` to
/// group `(k + 1) % group_count`. `intersection_segments[j]` is the segment
/// index of the `j`-th self-intersection; the running sign starts at `+1`
/// and flips at every self-intersection in walking order (segment by
/// segment, and in list order within a segment). Self-intersections whose
/// segment index is `group_count` or more are never walked.
pub fn signed_segment_terms(group_count: usize, intersection_segments: &Vec<usize>) -> (terms: Vec<
    SegmentTerms,
>)
    ensures
        terms@.len() == group_count,
        forall|k: int|
            0 <= k < group_count ==> segment_terms_spec(
                #[trigger] terms@[k],
                intersection_segments@,
                group_count as int,
                k,
            ),
        forall|k: int, c: int|
            0 <= k < group_count && 0 <= c < terms@[k].crossings@.len() - 1 ==> #[trigger] terms@[k].crossings@[c
                + 1].coefficient == -terms@[k].crossings@[c].coefficient,
        group_count > 0 ==> terms@[0].start_coefficient == -1,
        forall|k: int|
            0 <= k < group_count - 1 ==> #[trigger] terms@[k].end_coefficient == -terms@[k
                + 1].start_coefficient,
        forall|k: int|
            0 <= k < group_count && terms@[k].crossings@.len() > 0 ==> (#[trigger] terms@[k].crossings@[0]).coefficient
                == -2 * terms@[k].start_coefficient,
        forall|k: int|
            0 <= k < group_count && terms@[k].crossings@.len() == 0 ==> #[trigger] terms@[k].end_coefficient
                == -terms@[k].start_coefficient,
        forall|k: int|
            0 <= k < group_count && terms@[k].crossings@.len() > 0 ==> 2 * #[trigger] terms@[k].end_coefficient
                == -terms@[k].crossings@.last().coefficient,
        forall|k: int, c: int|
            0 <= k < group_count && 0 <= c < terms@[k].crossings@.len() ==> {
                let j = (#[trigger] terms@[k].crossings@[c]).intersection;
                &&& j < intersection_segments@.len()
                &&& intersection_segments@[j as int] == k
            },
        forall|j: int|
            0 <= j < intersection_segments@.len() && #[trigger] intersection_segments@[j] < group_count ==> exists|c: int|
                0 <= c < terms@[intersection_segments@[j] as int].crossings@.len() && (#[trigger] terms@[intersection_segments@[j] as int].crossings@[c]).intersection == j,
{
    let ghost segs = intersection_segments@;
    let m = intersection_segments.len();
    let mut terms: Vec<SegmentTerms> = Vec::new();
    // the running sign is `-1` exactly when `negative` holds
    let mut negative = false;
    let mut k: usize = 0;
    proof {
        lemma_nothing_below_zero(segs, segs.len() as int);
    }
    while k < group_count
        invariant
            segs == intersection_segments@,
            m == segs.len(),
            k <= group_count,
            terms@.len() == k,
            negative == (crossings_before(segs, k as int) % 2 == 1),
            forall|i: int|
                0 <= i < k ==> segment_terms_spec(#[trigger] terms@[i], segs, group_count as int, i),
        decreases group_count - k,
    {
        let start_coefficient: i8 = if negative {
            1
        } else {
            -1
        };
        let mut crossings: Vec<Crossing> = Vec::new();
        let ghost before = crossings_before(segs, k as int);
        let mut j: usize = 0;
        while j < m
            invariant
                segs == intersection_segments@,
                m == segs.len(),
                k < group_count,
                before == crossings_before(segs, k as int),
                j <= m,
                crossings@.len() == crossings_on_segment(segs, k as int, j as int).len(),
                negative == ((before + crossings@.len()) % 2 == 1),
                forall|c: int|
                    0 <= c < crossings@.len() ==> (#[trigger] crossings@[c]).intersection
                        == crossings_on_segment(segs, k as int, j as int)[c]
                        && crossings@[c].coefficient == 2 * parity_sign((before + c) as nat),
            decreases m - j,
        {
            let ghost prev = crossings_on_segment(segs, k as int, j as int);
            if intersection_segments[j] == k {
                let coefficient: i8 = if negative {
                    -2
                } else {
                    2
                };
                crossings.push(Crossing { intersection: j, coefficient });
                negative = !negative;
                assert(crossings_on_segment(segs, k as int, j + 1) == prev.push(j as int));
            } else {
                assert(crossings_on_segment(segs, k as int, j + 1) == prev);
            }
            j = j + 1;
        }
        proof {
            lemma_sign_carries_over(segs, k as int);
        }
        let end_coefficient: i8 = if negative {
            -1
        } else {
            1
        };
        let end_index = (k + 1) % group_count;
        let entry = SegmentTerms {
            start_index: k,
            end_index,
            start_coefficient,
            crossings,
            end_coefficient,
        };
        assert(segment_terms_spec(entry, segs, group_count as int, k as int));
        terms.push(entry);
        assert(terms@[k as int] == entry);
        k = k + 1;
    }
    assert forall|k: int, c: int|
        0 <= k < group_count && 0 <= c < terms@[k].crossings@.len()
            - 1 implies #[trigger] terms@[k].crossings@[c + 1].coefficient
        == -terms@[k].crossings@[c].coefficient by {
        assert(segment_terms_spec(terms@[k], segs, group_count as int, k));
        let before = crossings_before(segs, k);
        lemma_parity_step((before + c) as nat);
        assert(terms@[k].crossings@[c + 1].coefficient == 2 * parity_sign((before + c + 1) as nat));
    }
    proof {
        law_running_sign(group_count as int, segs, terms@);
    }
    terms
}

/// The terms of the centroid integrals of a subpath, always taken as closed:
/// the same walk as `signed_segment_terms`, and no centroid at all when the
/// subpath has no manipulator group.
pub fn centroid_segment_terms(group_count: usize, intersection_segments: &Vec<usize>) -> (terms:
    Option<Vec<SegmentTerms>>)
    ensures
        terms is None <==> group_count == 0,
        terms matches Some(t) ==> {
            &&& t@.len() == group_count
            &&& forall|k: int|
                0 <= k < group_count ==> segment_terms_spec(
                    #[trigger] t@[k],
                    intersection_segments@,
                    group_count as int,
                    k,
                )
            &&& t@[0].start_coefficient == -1
            &&& forall|k: int|
                0 <= k < group_count - 1 ==> #[trigger] t@[k].end_coefficient == -t@[k
                    + 1].start_coefficient
        },
{
    if group_count == 0 {
        None
    } else {
        Some(signed_segment_terms(group_count, intersection_segments))
    }
}

} // verus!
