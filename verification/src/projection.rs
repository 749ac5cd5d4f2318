use vstd::prelude::*;

verus! {

/// The IEEE 754 totalOrder relation ("strictly before") on the bit patterns
/// of two binary64 values: patterns with the sign bit set come before those
/// without; among patterns without the sign bit the larger pattern comes
/// later, among patterns with it the larger pattern (larger magnitude) comes
/// earlier.
pub open spec fn total_order_before(a: u64, b: u64) -> bool {
    let sign = 0x8000_0000_0000_0000u64;
    if a < sign && b < sign {
        a < b
    } else if a >= sign && b >= sign {
        a > b
    } else {
        a >= sign
    }
}

/// The signed integer whose order is the totalOrder of binary64 bit patterns.
pub open spec fn order_key_of(bits: u64) -> int {
    if bits < 0x8000_0000_0000_0000u64 {
        bits as int
    } else {
        0x7FFF_FFFF_FFFF_FFFFint - bits
    }
}

/// Maps the bit pattern of a binary64 value to a signed integer that orders
/// values as the IEEE 754 totalOrder relation does, so that a distance can
/// stand in verified code as the integer it is ordered by.
pub fn total_order_key(bits: u64) -> (key: i64)
    ensures
        key == order_key_of(bits),
{
    if bits < 0x8000_0000_0000_0000u64 {
        bits as i64
    } else {
        -1 - ((bits - 0x8000_0000_0000_0000u64) as i64)
    }
}

/// Keys order bit patterns exactly as totalOrder does, and distinct bit
/// patterns get distinct keys.
pub proof fn lemma_total_order_key(a: u64, b: u64)
    ensures
        order_key_of(a) < order_key_of(b) <==> total_order_before(a, b),
        order_key_of(a) == order_key_of(b) <==> a == b,
        i64::MIN <= order_key_of(a) <= i64::MAX,
{
}

/// The index of the first smallest key, or `0` when there is none.
pub fn first_minimum(keys: &Vec<i64>) -> (index: usize)
    ensures
        keys@.len() == 0 ==> index == 0,
        keys@.len() > 0 ==> {
            &&& index < keys@.len()
            &&& forall|i: int| 0 <= i < keys@.len() ==> keys@[index as int] <= #[trigger] keys@[i]
            &&& forall|i: int| 0 <= i < index ==> keys@[index as int] < #[trigger] keys@[i]
        },
{
    let mut best: usize = 0;
    let mut i: usize = 1;
    while i < keys.len()
        invariant
            keys@.len() > 0 ==> {
                &&& best < i <= keys@.len()
                &&& forall|j: int| 0 <= j < i ==> keys@[best as int] <= #[trigger] keys@[j]
                &&& forall|j: int| 0 <= j < best ==> keys@[best as int] < #[trigger] keys@[j]
            },
            keys@.len() == 0 ==> best == 0,
        decreases keys@.len() - i,
    {
        if keys[i] < keys[best] {
            best = i;
        }
        i = i + 1;
    }
    best
}

/// The segment a projection onto a subpath picks: none for a subpath without
/// manipulator groups; otherwise the first segment whose distance key is
/// smallest, or segment `0` when the subpath has no segment.
/// `distance_keys[i]` is the key of the distance from the point to its
/// projection onto segment `i`.
pub fn project_segment(group_count: usize, distance_keys: &Vec<i64>) -> (segment: Option<usize>)
    ensures
        segment is None <==> group_count == 0,
        segment matches Some(s) ==> {
            &&& distance_keys@.len() == 0 ==> s == 0
            &&& distance_keys@.len() > 0 ==> {
                &&& s < distance_keys@.len()
                &&& forall|i: int|
                    0 <= i < distance_keys@.len() ==> distance_keys@[s as int]
                        <= #[trigger] distance_keys@[i]
                &&& forall|i: int| 0 <= i < s ==> distance_keys@[s as int] < #[trigger] distance_keys@[i]
            }
        },
{
    if group_count == 0 {
        None
    } else {
        Some(first_minimum(distance_keys))
    }
}

} // verus!
