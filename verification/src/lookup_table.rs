use vstd::prelude::*;

verus! {

/// How a position along a whole subpath is measured.
#[derive(Clone, Copy, Debug, PartialEq, Eq)]
pub enum TValueType {
    /// By the curve parameter of the segments.
    Parametric,
    /// By arc length.
    Euclidean,
}

/// Number of steps a look-up table takes when the caller gives none.
pub const DEFAULT_LUT_STEP_SIZE: usize = 10;

/// One sample position of a look-up table: the global `t` value
/// `step / steps`, measured as the variant says.
#[derive(Clone, Copy, Debug, PartialEq, Eq)]
pub enum LookupSample {
    GlobalParametric { step: usize, steps: usize },
    GlobalEuclidean { step: usize, steps: usize },
}

impl LookupSample {
    /// The numerator of the sample's global `t`.
    pub open spec fn step(self) -> usize {
        match self {
            LookupSample::GlobalParametric { step, .. } => step,
            LookupSample::GlobalEuclidean { step, .. } => step,
        }
    }

    /// The denominator of the sample's global `t`.
    pub open spec fn steps(self) -> usize {
        match self {
            LookupSample::GlobalParametric { steps, .. } => steps,
            LookupSample::GlobalEuclidean { steps, .. } => steps,
        }
    }
}

/// The step count a look-up table uses for the optional argument.
pub open spec fn step_count(steps: Option<usize>) -> usize {
    match steps {
        Some(s) => s,
        None => DEFAULT_LUT_STEP_SIZE,
    }
}

/// The measure a look-up table uses for the optional argument.
pub open spec fn measure(tvalue_type: Option<TValueType>) -> TValueType {
    match tvalue_type {
        Some(k) => k,
        None => TValueType::Parametric,
    }
}

/// The sample at `step / steps` measured by `kind`.
pub open spec fn sample_of(kind: TValueType, step: usize, steps: usize) -> LookupSample {
    match kind {
        TValueType::Parametric => LookupSample::GlobalParametric { step, steps },
        TValueType::Euclidean => LookupSample::GlobalEuclidean { step, steps },
    }
}

/// The table a look-up over `steps` and `tvalue_type` yields, as a predicate
/// on the samples.
pub open spec fn lookup_table_spec(
    steps: Option<usize>,
    tvalue_type: Option<TValueType>,
    samples: Seq<LookupSample>,
) -> bool {
    &&& samples.len() == step_count(steps) + 1
    &&& forall|i: int|
        0 <= i < samples.len() ==> #[trigger] samples[i] == sample_of(
            measure(tvalue_type),
            i as usize,
            step_count(steps),
        )
}

/// A look-up table asked for `s` steps has the `s + 1` samples
/// `0/s, 1/s, ..., s/s`; asked for none it has the 11 samples
/// `0/10, ..., 10/10`. All samples are euclidean when euclidean positions
/// were asked for, and parametric otherwise.
pub proof fn law_lookup_table(
    steps: Option<usize>,
    tvalue_type: Option<TValueType>,
    samples: Seq<LookupSample>,
)
    requires
        lookup_table_spec(steps, tvalue_type, samples),
    ensures
        (steps is Some) ==> samples.len() == steps->0 + 1,
        (steps is None) ==> samples.len() == 11,
        tvalue_type == Some(TValueType::Euclidean) ==> forall|i: int|
            0 <= i < samples.len() ==> #[trigger] samples[i] == (LookupSample::GlobalEuclidean {
                step: i as usize,
                steps: (samples.len() - 1) as usize,
            }),
        tvalue_type != Some(TValueType::Euclidean) ==> forall|i: int|
            0 <= i < samples.len() ==> #[trigger] samples[i] == (LookupSample::GlobalParametric {
                step: i as usize,
                steps: (samples.len() - 1) as usize,
            }),
{
}

/// The sample positions of a look-up table of a subpath: `steps + 1`
/// equidistant global `t` values `0/steps, 1/steps, ..., steps/steps`, all
/// measured in the same way. A missing step count means
/// `DEFAULT_LUT_STEP_SIZE`, a missing measure means parametric.
pub fn lookup_table_samples(steps: Option<usize>, tvalue_type: Option<TValueType>) -> (samples: Vec<
    LookupSample,
>)
    requires
        step_count(steps) < usize::MAX,
    ensures
        samples@.len() == step_count(steps) + 1,
        forall|i: int|
            0 <= i < samples@.len() ==> #[trigger] samples@[i] == sample_of(
                measure(tvalue_type),
                i as usize,
                step_count(steps),
            ),
        samples@[0].step() == 0,
        samples@[samples@.len() - 1].step() == samples@[samples@.len() - 1].steps(),
        forall|i: int|
            0 <= i < samples@.len() - 1 ==> #[trigger] samples@[i + 1].step() == samples@[i].step()
                + 1 && samples@[i + 1].steps() == samples@[i].steps(),
        (steps is Some) ==> samples@.len() == steps->0 + 1,
        (steps is None) ==> samples@.len() == 11,
        tvalue_type == Some(TValueType::Euclidean) ==> forall|i: int|
            0 <= i < samples@.len() ==> #[trigger] samples@[i] == (LookupSample::GlobalEuclidean {
                step: i as usize,
                steps: (samples@.len() - 1) as usize,
            }),
        tvalue_type != Some(TValueType::Euclidean) ==> forall|i: int|
            0 <= i < samples@.len() ==> #[trigger] samples@[i] == (LookupSample::GlobalParametric {
                step: i as usize,
                steps: (samples@.len() - 1) as usize,
            }),
{
    let n: usize = match steps {
        Some(s) => s,
        None => DEFAULT_LUT_STEP_SIZE,
    };
    let kind = match tvalue_type {
        Some(k) => k,
        None => TValueType::Parametric,
    };
    let mut samples: Vec<LookupSample> = Vec::new();
    let mut t: usize = 0;
    while t <= n
        invariant
            n == step_count(steps),
            n < usize::MAX,
            kind == measure(tvalue_type),
            t <= n + 1,
            samples@.len() == t,
            forall|i: int|
                0 <= i < t ==> #[trigger] samples@[i] == sample_of(kind, i as usize, n),
        decreases n + 1 - t,
    {
        let sample = match kind {
            TValueType::Parametric => LookupSample::GlobalParametric { step: t, steps: n },
            TValueType::Euclidean => LookupSample::GlobalEuclidean { step: t, steps: n },
        };
        samples.push(sample);
        t = t + 1;
    }
    assert(samples@[0] == sample_of(kind, 0, n));
    assert(samples@[n as int] == sample_of(kind, n, n));
    assert forall|i: int| 0 <= i < samples@.len() - 1 implies #[trigger] samples@[i + 1].step()
        == samples@[i].step() + 1 && samples@[i + 1].steps() == samples@[i].steps() by {
        assert(samples@[i] == sample_of(kind, i as usize, n));
        assert(samples@[i + 1] == sample_of(kind, (i + 1) as usize, n));
    }
    proof {
        law_lookup_table(steps, tvalue_type, samples@);
    }
    samples
}

} // verus!
