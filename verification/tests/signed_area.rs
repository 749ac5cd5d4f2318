use bezier_rs::signed_area::{centroid_segment_terms, signed_segment_terms, Crossing, SegmentTerms};

/// Sums the terms of one segment with the antiderivative `f` and the
/// parameter values of the self-intersections.
fn segment_sum(terms: &SegmentTerms, ts: &[f64], f: impl Fn(f64) -> f64) -> f64 {
    let mut sum = terms.start_coefficient as f64 * f(0.0);
    for c in &terms.crossings {
        sum += c.coefficient as f64 * f(ts[c.intersection]);
    }
    sum + terms.end_coefficient as f64 * f(1.0)
}

// The quadratic from (0, 0) over (0, 1) to (1, 1): x = t^2, y = 2t - t^2.
fn quadratic_area(t: f64) -> f64 {
    2.0 * t.powi(3) / 3.0 - t.powi(4) / 2.0
}
fn quadratic_x(t: f64) -> f64 {
    4.0 * t.powi(5) / 5.0 - t.powi(6) / 3.0
}
fn quadratic_y(t: f64) -> f64 {
    t.powi(4) - 6.0 * t.powi(5) / 5.0 + t.powi(6) / 3.0
}
// The closing line from (1, 1) to (0, 0): x = y = 1 - t.
fn line_area(t: f64) -> f64 {
    -(t - t * t / 2.0)
}
fn line_xy(t: f64) -> f64 {
    (1.0 - t).powi(3) / 3.0
}

#[test]
fn two_groups_without_intersections() {
    let terms = signed_segment_terms(2, &vec![]);
    assert_eq!(
        terms,
        vec![
            SegmentTerms { start_index: 0, end_index: 1, start_coefficient: -1, crossings: vec![], end_coefficient: 1 },
            SegmentTerms { start_index: 1, end_index: 0, start_coefficient: -1, crossings: vec![], end_coefficient: 1 },
        ]
    );
}

#[test]
fn area_of_quadratic_closed_by_a_line_is_minus_one_third() {
    let terms = signed_segment_terms(2, &vec![]);
    let area = segment_sum(&terms[0], &[], quadratic_area) + segment_sum(&terms[1], &[], line_area);
    assert!((area - (-1.0 / 3.0)).abs() < 0.000000001);
}

#[test]
fn centroid_of_quadratic_closed_by_a_line() {
    let terms = centroid_segment_terms(2, &vec![]).unwrap();
    let x_sum = segment_sum(&terms[0], &[], quadratic_x) + segment_sum(&terms[1], &[], line_xy);
    let y_sum = segment_sum(&terms[0], &[], quadratic_y) + segment_sum(&terms[1], &[], line_xy);
    let area = segment_sum(&terms[0], &[], quadratic_area) + segment_sum(&terms[1], &[], line_area);
    // the x integrand is negated, as in the centroid of a subpath
    let centroid = (-x_sum / area, y_sum / area);
    assert!((centroid.0 - 0.4).abs() < 0.000000001);
    assert!((centroid.1 - 0.6).abs() < 0.000000001);
}

#[test]
fn no_centroid_without_manipulator_groups() {
    assert_eq!(centroid_segment_terms(0, &vec![0, 1]), None);
    assert_eq!(signed_segment_terms(0, &vec![0, 1]), vec![]);
}

#[test]
fn sign_flips_at_every_crossing_in_walking_order() {
    // intersections on segments 1, 0, 1, 5 (never walked), 0
    let terms = signed_segment_terms(3, &vec![1, 0, 1, 5, 0]);
    assert_eq!(terms.len(), 3);
    // segment 0: enters with +1, crosses at intersections 1 and 4
    assert_eq!(terms[0].start_index, 0);
    assert_eq!(terms[0].end_index, 1);
    assert_eq!(terms[0].start_coefficient, -1);
    assert_eq!(
        terms[0].crossings,
        vec![Crossing { intersection: 1, coefficient: 2 }, Crossing { intersection: 4, coefficient: -2 }]
    );
    assert_eq!(terms[0].end_coefficient, 1);
    // segment 1: enters with +1 again, crosses at intersections 0 and 2
    assert_eq!(terms[1].start_coefficient, -1);
    assert_eq!(
        terms[1].crossings,
        vec![Crossing { intersection: 0, coefficient: 2 }, Crossing { intersection: 2, coefficient: -2 }]
    );
    assert_eq!(terms[1].end_coefficient, 1);
    // segment 2 closes the walk back to group 0
    assert_eq!(terms[2].end_index, 0);
    assert_eq!(terms[2].crossings, vec![]);
    assert_eq!(terms[2].start_coefficient, -1);
    assert_eq!(terms[2].end_coefficient, 1);
}

#[test]
fn odd_crossings_carry_the_sign_into_the_next_segment() {
    let terms = signed_segment_terms(3, &vec![0, 2, 2]);
    assert_eq!(terms[0].start_coefficient, -1);
    assert_eq!(terms[0].crossings, vec![Crossing { intersection: 0, coefficient: 2 }]);
    assert_eq!(terms[0].end_coefficient, -1);
    assert_eq!(terms[1].start_coefficient, 1);
    assert_eq!(terms[1].end_coefficient, -1);
    assert_eq!(terms[2].start_coefficient, 1);
    assert_eq!(
        terms[2].crossings,
        vec![Crossing { intersection: 1, coefficient: -2 }, Crossing { intersection: 2, coefficient: 2 }]
    );
    assert_eq!(terms[2].end_coefficient, -1);
}
