use bezier_rs::projection::{first_minimum, project_segment, total_order_key};

#[test]
fn keys_order_floats_as_total_order_does() {
    let values = [
        f64::NEG_INFINITY,
        -3.5,
        -1.0,
        -f64::MIN_POSITIVE,
        -0.0,
        0.0,
        f64::MIN_POSITIVE,
        0.25,
        1.0,
        1e300,
        f64::INFINITY,
        f64::NAN,
    ];
    for a in values {
        for b in values {
            let ka = total_order_key(a.to_bits());
            let kb = total_order_key(b.to_bits());
            assert_eq!(ka.cmp(&kb), a.total_cmp(&b), "{} {}", a, b);
        }
    }
}

#[test]
fn key_of_positive_and_negative_patterns() {
    assert_eq!(total_order_key(0), 0);
    assert_eq!(total_order_key(1.0f64.to_bits()), 1.0f64.to_bits() as i64);
    assert_eq!(total_order_key(0x8000_0000_0000_0000), -1);
    assert_eq!(total_order_key(u64::MAX), i64::MIN);
}

#[test]
fn first_minimum_picks_the_earliest_smallest() {
    assert_eq!(first_minimum(&vec![]), 0);
    assert_eq!(first_minimum(&vec![5]), 0);
    assert_eq!(first_minimum(&vec![4, 2, 7, 2, 3]), 1);
    assert_eq!(first_minimum(&vec![9, 8, 7, -1]), 3);
}

#[test]
fn project_onto_empty_subpath_is_none() {
    assert_eq!(project_segment(0, &vec![]), None);
}

#[test]
fn project_onto_single_group_is_segment_zero() {
    assert_eq!(project_segment(1, &vec![]), Some(0));
}

#[test]
fn project_picks_the_closest_segment() {
    let distances = [3.0f64, 0.5, 2.0, 0.5];
    let keys: Vec<i64> = distances.iter().map(|d| total_order_key(d.to_bits())).collect();
    assert_eq!(project_segment(4, &keys), Some(1));
}
