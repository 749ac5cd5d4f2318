use bezier_rs::lookup_table::{lookup_table_samples, LookupSample, TValueType, DEFAULT_LUT_STEP_SIZE};

#[test]
fn default_table_has_eleven_parametric_samples() {
    let samples = lookup_table_samples(None, None);
    assert_eq!(samples.len(), DEFAULT_LUT_STEP_SIZE + 1);
    assert_eq!(samples.len(), 11);
    for (i, sample) in samples.iter().enumerate() {
        assert_eq!(*sample, LookupSample::GlobalParametric { step: i, steps: 10 });
    }
}

#[test]
fn euclidean_table_with_given_steps() {
    let samples = lookup_table_samples(Some(4), Some(TValueType::Euclidean));
    assert_eq!(
        samples,
        vec![
            LookupSample::GlobalEuclidean { step: 0, steps: 4 },
            LookupSample::GlobalEuclidean { step: 1, steps: 4 },
            LookupSample::GlobalEuclidean { step: 2, steps: 4 },
            LookupSample::GlobalEuclidean { step: 3, steps: 4 },
            LookupSample::GlobalEuclidean { step: 4, steps: 4 },
        ]
    );
}

#[test]
fn parametric_table_given_explicitly() {
    let samples = lookup_table_samples(Some(2), Some(TValueType::Parametric));
    assert_eq!(
        samples,
        vec![
            LookupSample::GlobalParametric { step: 0, steps: 2 },
            LookupSample::GlobalParametric { step: 1, steps: 2 },
            LookupSample::GlobalParametric { step: 2, steps: 2 },
        ]
    );
}

#[test]
fn zero_steps_gives_a_single_sample() {
    let samples = lookup_table_samples(Some(0), None);
    assert_eq!(samples, vec![LookupSample::GlobalParametric { step: 0, steps: 0 }]);
}

#[test]
fn samples_are_equidistant_and_reach_both_ends() {
    let samples = lookup_table_samples(Some(7), Some(TValueType::Euclidean));
    let fractions: Vec<f64> = samples
        .iter()
        .map(|s| match s {
            LookupSample::GlobalParametric { step, steps } | LookupSample::GlobalEuclidean { step, steps } => *step as f64 / *steps as f64,
        })
        .collect();
    assert_eq!(fractions[0], 0.0);
    assert_eq!(fractions[7], 1.0);
    for w in fractions.windows(2) {
        assert!((w[1] - w[0] - 1.0 / 7.0).abs() < 1e-12);
    }
}
