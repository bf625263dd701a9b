//! The scalar solver: Newton's iteration on Kepler's equation for one pair of
//! mean anomaly and eccentricity.
//!
//! The solver owns the order of the operations, the starting estimate, the
//! convergence test and the iteration cap. The operations themselves act on
//! bit patterns and are carried out by the caller's arithmetic, a function
//! from an [`Operation`] to its result. Nothing is assumed of it beyond what
//! it promises of itself, so every contract here is a relation between the
//! patterns that went into the operations and the patterns that came out.
//!
//! An eccentricity outside `[0, 1)` is passed through unchecked, and a run
//! that uses up its evaluations returns its last estimate without a signal.

use crate::precision::{
    below, is_finite, is_zero, lemma_zero_within, less_than, magnitude_within, within, Precision,
};
use vstd::prelude::*;

verus! {

/// The largest number of estimates that one run evaluates.
pub const MAX_ITERATIONS: u8 = 20;

/// One operation of the solver with its operands, each a bit pattern.
#[derive(Debug, PartialEq, Eq)]
pub enum Operation<P> {
    /// The sine of an angle in radians.
    Sin(P),
    /// The cosine of an angle in radians.
    Cos(P),
    /// The sum of two numbers.
    Add(P, P),
    /// The first number less the second.
    Sub(P, P),
    /// The product of two numbers.
    Mul(P, P),
    /// The first number divided by the second.
    Div(P, P),
}

/// One estimate of the eccentric anomaly, evaluated: its sine, its cosine and
/// what it leaves of Kepler's equation.
#[derive(Debug, PartialEq, Eq)]
pub struct Sample<P> {
    pub sin: P,
    pub cos: P,
    pub residual: P,
}

/// The arithmetic carries out every operation on every operand.
pub open spec fn total<P, A: Fn(Operation<P>) -> P>(arith: &A) -> bool {
    forall|op: Operation<P>| #[trigger] arith.requires((op,))
}

/// `result` is what the arithmetic may give for `op`.
pub open spec fn yields<P, A: Fn(Operation<P>) -> P>(
    arith: &A,
    op: Operation<P>,
    result: P,
) -> bool {
    arith.ensures((op,), result)
}

/// The arithmetic gives one result for one operation.
pub open spec fn deterministic<P, A: Fn(Operation<P>) -> P>(arith: &A) -> bool {
    forall|op: Operation<P>, first: P, second: P|
        #![trigger yields(arith, op, first), yields(arith, op, second)]
        yields(arith, op, first) && yields(arith, op, second) ==> first == second
}

/// The operations that lead from `mean` and `ecc` to the starting estimate
/// `guess`: `offset` is the eccentricity times the damping factor, and the
/// estimate is the mean anomaly plus the offset where the mean anomaly is
/// below pi, the mean anomaly less the offset elsewhere.
pub open spec fn seed_steps<P, A>(arith: &A, mean: P, ecc: P, offset: P, guess: P) -> bool where
    P: Precision,
    A: Fn(Operation<P>) -> P,
{
    &&& yields(arith, Operation::Mul(ecc, P::damping_pattern()), offset)
    &&& if below(mean, P::pi_pattern()) {
        yields(arith, Operation::Add(mean, offset), guess)
    } else {
        yields(arith, Operation::Sub(mean, offset), guess)
    }
}

/// `guess` is a starting estimate for `mean` and `ecc`.
pub open spec fn seeded<P, A>(arith: &A, mean: P, ecc: P, guess: P) -> bool where
    P: Precision,
    A: Fn(Operation<P>) -> P,
{
    exists|offset: P| seed_steps(arith, mean, ecc, offset, guess)
}

/// The starting estimate of the eccentric anomaly.
pub fn initial_guess<P, A>(mean: P, ecc: P, arith: &A) -> (guess: P) where
    P: Precision,
    A: Fn(Operation<P>) -> P,

    requires
        total(arith),
    ensures
        seeded(arith, mean, ecc, guess),
{
    let offset = arith(Operation::Mul(ecc, P::damping()));
    let guess = if less_than(mean, P::pi()) {
        arith(Operation::Add(mean, offset))
    } else {
        arith(Operation::Sub(mean, offset))
    };
    assert(seed_steps(arith, mean, ecc, offset, guess));
    guess
}

/// The operations that lead from the estimate `anomaly` to `sample`: the sine
/// and the cosine of the estimate, then `swing = ecc * sin`,
/// `lead = anomaly - swing` and the residual `lead - mean`.
pub open spec fn sample_steps<P, A>(
    arith: &A,
    anomaly: P,
    mean: P,
    ecc: P,
    swing: P,
    lead: P,
    sample: Sample<P>,
) -> bool where
    P: Precision,
    A: Fn(Operation<P>) -> P,
{
    &&& yields(arith, Operation::Sin(anomaly), sample.sin)
    &&& yields(arith, Operation::Cos(anomaly), sample.cos)
    &&& yields(arith, Operation::Mul(ecc, sample.sin), swing)
    &&& yields(arith, Operation::Sub(anomaly, swing), lead)
    &&& yields(arith, Operation::Sub(lead, mean), sample.residual)
}

/// `sample` is the estimate `anomaly` evaluated.
pub open spec fn sampled<P, A>(
    arith: &A,
    anomaly: P,
    mean: P,
    ecc: P,
    sample: Sample<P>,
) -> bool where
    P: Precision,
    A: Fn(Operation<P>) -> P,
{
    exists|swing: P, lead: P| sample_steps(arith, anomaly, mean, ecc, swing, lead, sample)
}

/// Evaluates one estimate of the eccentric anomaly.
pub fn evaluate<P, A>(anomaly: P, mean: P, ecc: P, arith: &A) -> (sample: Sample<P>) where
    P: Precision,
    A: Fn(Operation<P>) -> P,

    requires
        total(arith),
    ensures
        sampled(arith, anomaly, mean, ecc, sample),
{
    let sin = arith(Operation::Sin(anomaly));
    let cos = arith(Operation::Cos(anomaly));
    let swing = arith(Operation::Mul(ecc, sin));
    let lead = arith(Operation::Sub(anomaly, swing));
    let residual = arith(Operation::Sub(lead, mean));
    let sample = Sample { sin, cos, residual };
    assert(sample_steps(arith, anomaly, mean, ecc, swing, lead, sample));
    sample
}

/// Whether the residual of `sample` is within the tolerance, so that its
/// estimate is accepted.
pub open spec fn accepted<P: Precision>(sample: Sample<P>) -> bool {
    within(sample.residual, P::tolerance_pattern())
}

/// Tests the residual of a sample against the tolerance.
pub fn converged<P: Precision>(sample: &Sample<P>) -> (done: bool)
    ensures
        done == accepted(*sample),
{
    magnitude_within(sample.residual, P::tolerance())
}

/// The operations that lead from an evaluated estimate to the next one:
/// `pull = ecc * cos`, `slope = 1 - pull`, `step = residual / slope` and
/// `next = anomaly - step`.
pub open spec fn newton_steps<P, A>(
    arith: &A,
    anomaly: P,
    ecc: P,
    sample: Sample<P>,
    pull: P,
    slope: P,
    step: P,
    next: P,
) -> bool where
    P: Precision,
    A: Fn(Operation<P>) -> P,
{
    &&& yields(arith, Operation::Mul(ecc, sample.cos), pull)
    &&& yields(arith, Operation::Sub(P::one_pattern(), pull), slope)
    &&& yields(arith, Operation::Div(sample.residual, slope), step)
    &&& yields(arith, Operation::Sub(anomaly, step), next)
}

/// `next` is the Newton step from the estimate `anomaly` and its sample.
pub open spec fn refined<P, A>(
    arith: &A,
    anomaly: P,
    ecc: P,
    sample: Sample<P>,
    next: P,
) -> bool where
    P: Precision,
    A: Fn(Operation<P>) -> P,
{
    exists|pull: P, slope: P, step: P|
        newton_steps(arith, anomaly, ecc, sample, pull, slope, step, next)
}

/// Takes one Newton step from an evaluated estimate.
pub fn newton_step<P, A>(anomaly: P, ecc: P, sample: &Sample<P>, arith: &A) -> (next: P) where
    P: Precision,
    A: Fn(Operation<P>) -> P,

    requires
        total(arith),
    ensures
        refined(arith, anomaly, ecc, *sample, next),
{
    let pull = arith(Operation::Mul(ecc, sample.cos));
    let slope = arith(Operation::Sub(P::one(), pull));
    let step = arith(Operation::Div(sample.residual, slope));
    let next = arith(Operation::Sub(anomaly, step));
    assert(newton_steps(arith, anomaly, ecc, *sample, pull, slope, step, next));
    next
}

/// The estimate at index `i` of a run was evaluated, found wanting and
/// refined into the estimate that follows it.
pub open spec fn advances<P, A>(
    arith: &A,
    mean: P,
    ecc: P,
    estimates: Seq<P>,
    samples: Seq<Sample<P>>,
    i: int,
) -> bool where
    P: Precision,
    A: Fn(Operation<P>) -> P,
{
    &&& sampled(arith, estimates[i], mean, ecc, samples[i])
    &&& !accepted(samples[i])
    &&& refined(arith, estimates[i], ecc, samples[i], estimates[i + 1])
}

/// `estimates` and `samples` are a run of the solver on `mean` and `ecc`,
/// from its first evaluation to its last.
///
/// The run starts from a starting estimate and evaluates at least one and at
/// most [`MAX_ITERATIONS`] estimates. Every estimate but the last was found
/// wanting and refined; the last was accepted, or was the last that the cap
/// allows.
pub open spec fn is_run<P, A>(
    arith: &A,
    mean: P,
    ecc: P,
    estimates: Seq<P>,
    samples: Seq<Sample<P>>,
) -> bool where
    P: Precision,
    A: Fn(Operation<P>) -> P,
{
    &&& 1 <= estimates.len() <= MAX_ITERATIONS
    &&& samples.len() == estimates.len()
    &&& seeded(arith, mean, ecc, estimates[0])
    &&& forall|i: int|
        0 <= i < estimates.len() - 1 ==> #[trigger] advances(
            arith,
            mean,
            ecc,
            estimates,
            samples,
            i,
        )
    &&& sampled(arith, estimates.last(), mean, ecc, samples.last())
    &&& accepted(samples.last()) || estimates.len() == MAX_ITERATIONS
}

/// `out` is the sine and the cosine of the eccentric anomaly that the solver
/// finds for `mean` and `ecc`: those of the last estimate of a run.
pub open spec fn solves<P, A>(arith: &A, mean: P, ecc: P, out: (P, P)) -> bool where
    P: Precision,
    A: Fn(Operation<P>) -> P,
{
    exists|estimates: Seq<P>, samples: Seq<Sample<P>>|
        #[trigger] is_run(arith, mean, ecc, estimates, samples) && out == (
            samples.last().sin,
            samples.last().cos,
        )
}

/// Solves Kepler's equation for one pair of mean anomaly and eccentricity and
/// returns the sine and the cosine of the eccentric anomaly.
///
/// Newton's iteration runs from the starting estimate until a residual is
/// within the tolerance, for at most [`MAX_ITERATIONS`] evaluations; the last
/// estimate evaluated is the one returned.
pub fn compute_eccentric_anomaly<P, A>(mean: P, ecc: P, arith: &A) -> (out: (P, P)) where
    P: Precision,
    A: Fn(Operation<P>) -> P,

    requires
        total(arith),
    ensures
        solves(arith, mean, ecc, out),
{
    let mut anomaly = initial_guess(mean, ecc, arith);
    let mut taken: u8 = 0;
    let ghost mut estimates: Seq<P> = seq![anomaly];
    let ghost mut samples: Seq<Sample<P>> = Seq::empty();
    loop
        invariant
            total(arith),
            taken < MAX_ITERATIONS,
            estimates.len() == taken + 1,
            samples.len() == taken,
            estimates.last() == anomaly,
            seeded(arith, mean, ecc, estimates[0]),
            forall|i: int|
                0 <= i < taken ==> #[trigger] advances(arith, mean, ecc, estimates, samples, i),
        decreases MAX_ITERATIONS - taken,
    {
        let sample = evaluate(anomaly, mean, ecc, arith);
        let ghost evaluated = samples.push(sample);
        if converged(&sample) || taken + 1 == MAX_ITERATIONS {
            proof {
                assert forall|i: int| 0 <= i < estimates.len() - 1 implies #[trigger] advances(
                    arith,
                    mean,
                    ecc,
                    estimates,
                    evaluated,
                    i,
                ) by {
                    assert(advances(arith, mean, ecc, estimates, samples, i));
                }
                assert(is_run(arith, mean, ecc, estimates, evaluated));
            }
            return (sample.sin, sample.cos);
        }
        let next = newton_step(anomaly, ecc, &sample, arith);
        proof {
            let ghost extended = estimates.push(next);
            assert forall|i: int| 0 <= i < taken + 1 implies #[trigger] advances(
                arith,
                mean,
                ecc,
                extended,
                evaluated,
                i,
            ) by {
                if i < taken {
                    assert(advances(arith, mean, ecc, estimates, samples, i));
                }
            }
            estimates = extended;
            samples = evaluated;
        }
        anomaly = next;
        taken = taken + 1;
    }
}

/// With a deterministic arithmetic a pair has one starting estimate.
pub proof fn lemma_seed_unique<P, A>(arith: &A, mean: P, ecc: P, first: P, second: P) where
    P: Precision,
    A: Fn(Operation<P>) -> P,

    requires
        deterministic(arith),
        seeded(arith, mean, ecc, first),
        seeded(arith, mean, ecc, second),
    ensures
        first == second,
{
    let offset1 = choose|offset: P| seed_steps(arith, mean, ecc, offset, first);
    let offset2 = choose|offset: P| seed_steps(arith, mean, ecc, offset, second);
    assert(offset1 == offset2);
}

/// With a deterministic arithmetic an estimate has one sample.
pub proof fn lemma_sample_unique<P, A>(
    arith: &A,
    anomaly: P,
    mean: P,
    ecc: P,
    first: Sample<P>,
    second: Sample<P>,
) where
    P: Precision,
    A: Fn(Operation<P>) -> P,

    requires
        deterministic(arith),
        sampled(arith, anomaly, mean, ecc, first),
        sampled(arith, anomaly, mean, ecc, second),
    ensures
        first == second,
{
    let (swing1, lead1) = choose|swing: P, lead: P|
        sample_steps(arith, anomaly, mean, ecc, swing, lead, first);
    let (swing2, lead2) = choose|swing: P, lead: P|
        sample_steps(arith, anomaly, mean, ecc, swing, lead, second);
    assert(first.sin == second.sin);
    assert(first.cos == second.cos);
    assert(swing1 == swing2);
    assert(lead1 == lead2);
}

/// With a deterministic arithmetic an evaluated estimate has one Newton
/// step.
pub proof fn lemma_step_unique<P, A>(
    arith: &A,
    anomaly: P,
    ecc: P,
    sample: Sample<P>,
    first: P,
    second: P,
) where
    P: Precision,
    A: Fn(Operation<P>) -> P,

    requires
        deterministic(arith),
        refined(arith, anomaly, ecc, sample, first),
        refined(arith, anomaly, ecc, sample, second),
    ensures
        first == second,
{
    let (pull1, slope1, step1) = choose|pull: P, slope: P, step: P|
        newton_steps(arith, anomaly, ecc, sample, pull, slope, step, first);
    let (pull2, slope2, step2) = choose|pull: P, slope: P, step: P|
        newton_steps(arith, anomaly, ecc, sample, pull, slope, step, second);
    assert(pull1 == pull2);
    assert(slope1 == slope2);
    assert(step1 == step2);
}

/// With a deterministic arithmetic two runs on one pair agree on every
/// evaluation that both have made.
proof fn lemma_runs_agree<P, A>(
    arith: &A,
    mean: P,
    ecc: P,
    estimates1: Seq<P>,
    samples1: Seq<Sample<P>>,
    estimates2: Seq<P>,
    samples2: Seq<Sample<P>>,
    i: int,
) where
    P: Precision,
    A: Fn(Operation<P>) -> P,

    requires
        deterministic(arith),
        is_run(arith, mean, ecc, estimates1, samples1),
        is_run(arith, mean, ecc, estimates2, samples2),
        0 <= i < estimates1.len(),
        i < estimates2.len(),
    ensures
        estimates1[i] == estimates2[i],
        samples1[i] == samples2[i],
    decreases i,
{
    if i == 0 {
        lemma_seed_unique(arith, mean, ecc, estimates1[0], estimates2[0]);
    } else {
        lemma_runs_agree(arith, mean, ecc, estimates1, samples1, estimates2, samples2, i - 1);
        assert(advances(arith, mean, ecc, estimates1, samples1, i - 1));
        assert(advances(arith, mean, ecc, estimates2, samples2, i - 1));
        lemma_step_unique(
            arith,
            estimates1[i - 1],
            ecc,
            samples1[i - 1],
            estimates1[i],
            estimates2[i],
        );
    }
    if i < estimates1.len() - 1 {
        assert(advances(arith, mean, ecc, estimates1, samples1, i));
    }
    if i < estimates2.len() - 1 {
        assert(advances(arith, mean, ecc, estimates2, samples2, i));
    }
    lemma_sample_unique(arith, estimates1[i], mean, ecc, samples1[i], samples2[i]);
}

/// With a deterministic arithmetic a pair has one run.
pub proof fn lemma_run_unique<P, A>(
    arith: &A,
    mean: P,
    ecc: P,
    estimates1: Seq<P>,
    samples1: Seq<Sample<P>>,
    estimates2: Seq<P>,
    samples2: Seq<Sample<P>>,
) where
    P: Precision,
    A: Fn(Operation<P>) -> P,

    requires
        deterministic(arith),
        is_run(arith, mean, ecc, estimates1, samples1),
        is_run(arith, mean, ecc, estimates2, samples2),
    ensures
        estimates1 == estimates2,
        samples1 == samples2,
{
    let len1 = estimates1.len() as int;
    let len2 = estimates2.len() as int;
    if len1 < len2 {
        lemma_runs_agree(arith, mean, ecc, estimates1, samples1, estimates2, samples2, len1 - 1);
        assert(advances(arith, mean, ecc, estimates2, samples2, len1 - 1));
    }
    if len2 < len1 {
        lemma_runs_agree(arith, mean, ecc, estimates1, samples1, estimates2, samples2, len2 - 1);
        assert(advances(arith, mean, ecc, estimates1, samples1, len2 - 1));
    }
    assert forall|i: int| 0 <= i < len1 implies estimates1[i] == estimates2[i] && samples1[i]
        == samples2[i] by {
        lemma_runs_agree(arith, mean, ecc, estimates1, samples1, estimates2, samples2, i);
    }
    assert(estimates1 =~= estimates2);
    assert(samples1 =~= samples2);
}

/// The solver is a function of its inputs wherever the arithmetic is: with a
/// deterministic arithmetic one pair of mean anomaly and eccentricity has one
/// answer.
pub proof fn lemma_solution_unique<P, A>(
    arith: &A,
    mean: P,
    ecc: P,
    first: (P, P),
    second: (P, P),
) where
    P: Precision,
    A: Fn(Operation<P>) -> P,

    requires
        deterministic(arith),
        solves(arith, mean, ecc, first),
        solves(arith, mean, ecc, second),
    ensures
        first == second,
{
    let (estimates1, samples1) = choose|estimates: Seq<P>, samples: Seq<Sample<P>>|
        #[trigger] is_run(arith, mean, ecc, estimates, samples) && first == (
            samples.last().sin,
            samples.last().cos,
        );
    let (estimates2, samples2) = choose|estimates: Seq<P>, samples: Seq<Sample<P>>|
        #[trigger] is_run(arith, mean, ecc, estimates, samples) && second == (
            samples.last().sin,
            samples.last().cos,
        );
    lemma_run_unique(arith, mean, ecc, estimates1, samples1, estimates2, samples2);
}

/// A circular orbit is solved by its mean anomaly: the starting estimate is
/// the mean anomaly itself, its residual is zero, and the run returns the
/// sine and the cosine of the mean anomaly after one evaluation.
///
/// The hypotheses are what floating-point arithmetic gives for an
/// eccentricity of zero and a mean anomaly that is finite and not zero: a
/// finite number times the eccentricity is zero, the sine of the mean anomaly
/// is finite, a zero added to or taken from the mean anomaly leaves it as it
/// is, and the mean anomaly less itself is zero.
pub proof fn lemma_circular_orbit<P, A>(arith: &A, mean: P, ecc: P, out: (P, P)) where
    P: Precision,
    A: Fn(Operation<P>) -> P,

    requires
        forall|x: P, r: P|
            is_finite(x) && #[trigger] yields(arith, Operation::Mul(ecc, x), r) ==> is_zero(r),
        forall|r: P| #[trigger] yields(arith, Operation::Sin(mean), r) ==> is_finite(r),
        forall|z: P, r: P|
            is_zero(z) && #[trigger] yields(arith, Operation::Add(mean, z), r) ==> r == mean,
        forall|z: P, r: P|
            is_zero(z) && #[trigger] yields(arith, Operation::Sub(mean, z), r) ==> r == mean,
        forall|r: P| #[trigger] yields(arith, Operation::Sub(mean, mean), r) ==> is_zero(r),
        solves(arith, mean, ecc, out),
    ensures
        yields(arith, Operation::Sin(mean), out.0),
        yields(arith, Operation::Cos(mean), out.1),
{
    P::lemma_constants();
    let (estimates, samples) = choose|estimates: Seq<P>, samples: Seq<Sample<P>>|
        #[trigger] is_run(arith, mean, ecc, estimates, samples) && out == (
            samples.last().sin,
            samples.last().cos,
        );
    let offset = choose|offset: P| seed_steps(arith, mean, ecc, offset, estimates[0]);
    assert(estimates[0] == mean);
    if estimates.len() > 1 {
        assert(advances(arith, mean, ecc, estimates, samples, 0));
    }
    let (swing, lead) = choose|swing: P, lead: P|
        sample_steps(arith, mean, mean, ecc, swing, lead, samples[0]);
    assert(lead == mean);
    assert(is_zero(samples[0].residual));
    lemma_zero_within(samples[0].residual, P::tolerance_pattern());
}

} // verus!
