use kepler_kernel::binary::{Binary32, Binary64};
use kepler_kernel::solver::{
    compute_eccentric_anomaly, converged, evaluate, initial_guess, newton_step, Operation, Sample,
    MAX_ITERATIONS,
};
use std::cell::Cell;
use std::f64::consts::PI;

fn number(p: Binary64) -> f64 {
    f64::from_bits(p.bits)
}

fn pattern(x: f64) -> Binary64 {
    Binary64 { bits: x.to_bits() }
}

fn number32(p: Binary32) -> f32 {
    f32::from_bits(p.bits)
}

fn pattern32(x: f32) -> Binary32 {
    Binary32 { bits: x.to_bits() }
}

fn double_arithmetic(op: Operation<Binary64>) -> Binary64 {
    pattern(match op {
        Operation::Sin(x) => number(x).sin(),
        Operation::Cos(x) => number(x).cos(),
        Operation::Add(a, b) => number(a) + number(b),
        Operation::Sub(a, b) => number(a) - number(b),
        Operation::Mul(a, b) => number(a) * number(b),
        Operation::Div(a, b) => number(a) / number(b),
    })
}

fn single_arithmetic(op: Operation<Binary32>) -> Binary32 {
    pattern32(match op {
        Operation::Sin(x) => number32(x).sin(),
        Operation::Cos(x) => number32(x).cos(),
        Operation::Add(a, b) => number32(a) + number32(b),
        Operation::Sub(a, b) => number32(a) - number32(b),
        Operation::Mul(a, b) => number32(a) * number32(b),
        Operation::Div(a, b) => number32(a) / number32(b),
    })
}

/// Double-precision arithmetic that counts how often a sine is taken, which
/// is once for every estimate evaluated.
fn counting<'a>(evaluations: &'a Cell<u32>) -> impl Fn(Operation<Binary64>) -> Binary64 + 'a {
    move |op: Operation<Binary64>| {
        if matches!(op, Operation::Sin(_)) {
            evaluations.set(evaluations.get() + 1);
        }
        double_arithmetic(op)
    }
}

fn counting32<'a>(evaluations: &'a Cell<u32>) -> impl Fn(Operation<Binary32>) -> Binary32 + 'a {
    move |op: Operation<Binary32>| {
        if matches!(op, Operation::Sin(_)) {
            evaluations.set(evaluations.get() + 1);
        }
        single_arithmetic(op)
    }
}

/// An arithmetic that hands back the first operand of every operation but the
/// cosine, for which it hands back the pattern after its operand.
fn first_operand(op: Operation<Binary64>) -> Binary64 {
    match op {
        Operation::Cos(x) => Binary64 { bits: x.bits + 1 },
        Operation::Sin(x) => x,
        Operation::Add(a, _) | Operation::Sub(a, _) => a,
        Operation::Mul(a, _) | Operation::Div(a, _) => a,
    }
}

/// An arithmetic whose every sum is one and whose every difference is minus
/// one.
fn marking(op: Operation<Binary64>) -> Binary64 {
    match op {
        Operation::Add(_, _) => pattern(1.0),
        Operation::Sub(_, _) => pattern(-1.0),
        Operation::Sin(x) | Operation::Cos(x) => x,
        Operation::Mul(a, _) | Operation::Div(a, _) => a,
    }
}

fn solve(mean: f64, ecc: f64) -> (f64, f64) {
    let (sin, cos) = compute_eccentric_anomaly(pattern(mean), pattern(ecc), &double_arithmetic);
    (number(sin), number(cos))
}

fn solve32(mean: f32, ecc: f32) -> (f32, f32) {
    let (sin, cos) = compute_eccentric_anomaly(pattern32(mean), pattern32(ecc), &single_arithmetic);
    (number32(sin), number32(cos))
}

/// The iteration written out on numbers, with the count of its evaluations.
fn written_out(mean: f64, ecc: f64) -> (f64, f64, u32) {
    let mut e = if mean < PI { mean + ecc * 0.85 } else { mean - ecc * 0.85 };
    let mut sin = 0.0;
    let mut cos = 0.0;
    let mut evaluations = 0;
    for _ in 0..20 {
        sin = e.sin();
        cos = e.cos();
        evaluations += 1;
        let g = e - ecc * sin - mean;
        if g.abs() <= 1e-12 {
            break;
        }
        e = e - g / (1.0 - ecc * cos);
    }
    (sin, cos, evaluations)
}

fn written_out32(mean: f32, ecc: f32) -> (f32, f32) {
    let tol = 1e-12f64 as f32;
    let damping = 0.85f64 as f32;
    let mut e = if mean < PI as f32 { mean + ecc * damping } else { mean - ecc * damping };
    let mut sin = 0.0;
    let mut cos = 0.0;
    for _ in 0..20 {
        sin = e.sin();
        cos = e.cos();
        let g = e - ecc * sin - mean;
        if g.abs() <= tol {
            break;
        }
        e = e - g / (1.0 - ecc * cos);
    }
    (sin, cos)
}

fn same(a: f64, b: f64) -> bool {
    a.to_bits() == b.to_bits() || (a.is_nan() && b.is_nan())
}

fn same32(a: f32, b: f32) -> bool {
    a.to_bits() == b.to_bits() || (a.is_nan() && b.is_nan())
}

/// What an estimate leaves of Kepler's equation, as an angle in `[-pi, pi)`.
fn kepler_residual(sin: f64, cos: f64, mean: f64, ecc: f64) -> f64 {
    let e = sin.atan2(cos);
    let left = e - ecc * e.sin() - mean;
    (left + PI).rem_euclid(2.0 * PI) - PI
}

#[test]
fn the_cap_is_twenty() {
    assert_eq!(MAX_ITERATIONS, 20);
}

#[test]
fn residual_is_small_over_the_whole_ellipse_range() {
    for i in 0..100 {
        let ecc = 0.99 * f64::from(i) / 99.0;
        for j in 0..400 {
            let mean = 2.0 * PI * f64::from(j) / 400.0;
            let (sin, cos) = solve(mean, ecc);
            let left = kepler_residual(sin, cos, mean, ecc);
            assert!(left.abs() < 1e-9, "M = {mean}, e = {ecc}: residual {left:e}");
        }
    }
}

#[test]
fn sine_and_cosine_lie_on_the_unit_circle() {
    for i in 0..100 {
        let ecc = 0.99 * f64::from(i) / 99.0;
        for j in 0..400 {
            let mean = 2.0 * PI * f64::from(j) / 400.0;
            let (sin, cos) = solve(mean, ecc);
            assert!((sin * sin + cos * cos - 1.0).abs() < 1e-12, "M = {mean}, e = {ecc}");
            assert!((-1.0..=1.0).contains(&sin));
            assert!((-1.0..=1.0).contains(&cos));
        }
    }
}

#[test]
fn circular_orbit_returns_the_sine_and_cosine_of_the_mean_anomaly() {
    for j in 0..=1000 {
        let mean = 2.0 * PI * f64::from(j) / 1000.0;
        let (sin, cos) = solve(mean, 0.0);
        assert_eq!(sin.to_bits(), mean.sin().to_bits(), "M = {mean}");
        assert_eq!(cos.to_bits(), mean.cos().to_bits(), "M = {mean}");
    }
    assert_eq!(solve(1.0, 0.0), (0.8414709848078965, 0.5403023058681398));
    assert_eq!(solve(4.0, 0.0), (-0.7568024953079282, -0.6536436208636119));
}

#[test]
fn circular_orbit_takes_one_evaluation() {
    for mean in [0.25, 1.0, 3.0, PI, 4.0, 6.0] {
        let evaluations = Cell::new(0);
        compute_eccentric_anomaly(pattern(mean), pattern(0.0), &counting(&evaluations));
        assert_eq!(evaluations.get(), 1, "M = {mean}");
    }
}

#[test]
fn three_sample_scenario() {
    let means = [0.0, 1.57079632679, 3.14159265359];
    let eccs = [0.1, 0.5, 0.9];
    for (mean, ecc) in means.into_iter().zip(eccs) {
        let (sin, cos) = solve(mean, ecc);
        let left = kepler_residual(sin, cos, mean, ecc);
        assert!(left.abs() < 1e-9, "M = {mean}, e = {ecc}: residual {left:e}");
    }
    // A mean anomaly of zero is solved by an eccentric anomaly of zero, which
    // the iteration reaches to within its tolerance.
    let (sin, cos) = solve(0.0, 0.1);
    assert!(sin.abs() <= 1e-12);
    assert_eq!(cos, 1.0);
    assert_eq!(solve(1.57079632679, 0.5), (0.900367222591497, -0.4351308590330887));
}

#[test]
fn a_mean_anomaly_of_zero_is_solved_by_zero_at_every_eccentricity() {
    for i in 0..100 {
        let ecc = 0.99 * f64::from(i) / 99.0;
        let (sin, cos) = solve(0.0, ecc);
        assert!(sin.abs() <= 1e-11, "e = {ecc}: sin {sin:e}");
        assert_eq!(cos, 1.0, "e = {ecc}");
    }
}

#[test]
fn double_runs_are_the_iteration_written_out() {
    let eccs = [0.0, 1e-9, 0.1, 0.5, 0.9, 0.99, 0.999999, 1.0, 1.5, -0.3, f64::NAN, f64::INFINITY];
    let mut means = vec![-7.0, -1e-300, -0.0, f64::NAN, f64::INFINITY, f64::NEG_INFINITY, 1e6];
    for j in 0..200 {
        means.push(2.0 * PI * f64::from(j) / 200.0);
    }
    means.push(PI);
    means.push(f64::from_bits(PI.to_bits() - 1));
    for ecc in eccs {
        for &mean in &means {
            let evaluations = Cell::new(0);
            let (sin, cos) =
                compute_eccentric_anomaly(pattern(mean), pattern(ecc), &counting(&evaluations));
            let (want_sin, want_cos, want_evaluations) = written_out(mean, ecc);
            assert!(same(number(sin), want_sin), "M = {mean}, e = {ecc}: sine");
            assert!(same(number(cos), want_cos), "M = {mean}, e = {ecc}: cosine");
            assert_eq!(evaluations.get(), want_evaluations, "M = {mean}, e = {ecc}");
        }
    }
}

#[test]
fn single_runs_are_the_iteration_written_out() {
    let eccs = [0.0f32, 0.1, 0.5, 0.9, 0.99, 1.0, 1.5, -0.3, f32::NAN];
    let mut means = vec![-7.0f32, -0.0, f32::NAN, f32::INFINITY, 1e6];
    for j in 0..200u16 {
        means.push(2.0 * std::f32::consts::PI * f32::from(j) / 200.0);
    }
    means.push(std::f32::consts::PI);
    for ecc in eccs {
        for &mean in &means {
            let (sin, cos) = solve32(mean, ecc);
            let (want_sin, want_cos) = written_out32(mean, ecc);
            assert!(same32(sin, want_sin), "M = {mean}, e = {ecc}: sine");
            assert!(same32(cos, want_cos), "M = {mean}, e = {ecc}: cosine");
        }
    }
}

#[test]
fn single_runs_stay_close_to_double_runs() {
    for i in 0..10u8 {
        let ecc = 0.9 * f32::from(i) / 9.0;
        for j in 0..50u8 {
            let mean = 2.0 * std::f32::consts::PI * f32::from(j) / 50.0;
            let (sin, cos) = solve32(mean, ecc);
            let (want_sin, want_cos) = solve(f64::from(mean), f64::from(ecc));
            assert!((f64::from(sin) - want_sin).abs() < 1e-4, "M = {mean}, e = {ecc}");
            assert!((f64::from(cos) - want_cos).abs() < 1e-4, "M = {mean}, e = {ecc}");
        }
    }
}

#[test]
fn a_run_stops_after_twenty_evaluations() {
    // With a mean anomaly that is not a number no residual is within the
    // tolerance.
    let evaluations = Cell::new(0);
    let (sin, cos) =
        compute_eccentric_anomaly(pattern(f64::NAN), pattern(0.5), &counting(&evaluations));
    assert_eq!(evaluations.get(), 20);
    assert!(number(sin).is_nan());
    assert!(number(cos).is_nan());
    // A single step is never enough to put an eccentricity of two right.
    let evaluations = Cell::new(0);
    compute_eccentric_anomaly(pattern(f64::INFINITY), pattern(2.0), &counting(&evaluations));
    assert_eq!(evaluations.get(), 20);
}

#[test]
fn single_precision_runs_miss_a_tolerance_below_their_spacing() {
    // Near one the single-precision numbers lie more than the tolerance
    // apart, so a residual is accepted only where it is exactly zero, and a
    // run that never meets such a residual uses every evaluation.
    let mut capped = 0;
    for i in 0..10u8 {
        let ecc = 0.9 * f32::from(i) / 9.0;
        for j in 0..50u8 {
            let mean = 2.0 * std::f32::consts::PI * f32::from(j) / 50.0;
            let evaluations = Cell::new(0);
            compute_eccentric_anomaly(pattern32(mean), pattern32(ecc), &counting32(&evaluations));
            assert!((1..=20).contains(&evaluations.get()), "M = {mean}, e = {ecc}");
            if evaluations.get() == 20 {
                capped += 1;
                let in_double = Cell::new(0);
                compute_eccentric_anomaly(
                    pattern(f64::from(mean)),
                    pattern(f64::from(ecc)),
                    &counting(&in_double),
                );
                assert!(in_double.get() <= 8, "M = {mean}, e = {ecc}");
            }
        }
    }
    assert!(capped > 0);
}

#[test]
fn a_run_never_takes_more_than_twenty_evaluations() {
    for i in 0..=60 {
        let ecc = f64::from(i) / 40.0;
        for j in 0..100 {
            let mean = 2.0 * PI * f64::from(j) / 100.0;
            let evaluations = Cell::new(0);
            compute_eccentric_anomaly(pattern(mean), pattern(ecc), &counting(&evaluations));
            assert!((1..=20).contains(&evaluations.get()), "M = {mean}, e = {ecc}");
        }
    }
}

#[test]
fn runs_within_the_ellipse_range_meet_the_tolerance_early() {
    for i in 0..100 {
        let ecc = 0.99 * f64::from(i) / 99.0;
        for j in 0..400 {
            let mean = 2.0 * PI * f64::from(j) / 400.0;
            let evaluations = Cell::new(0);
            compute_eccentric_anomaly(pattern(mean), pattern(ecc), &counting(&evaluations));
            assert!(evaluations.get() <= 8, "M = {mean}, e = {ecc}: {}", evaluations.get());
        }
    }
}

#[test]
fn starting_estimate_leans_towards_pi() {
    let arith = double_arithmetic;
    assert_eq!(number(initial_guess(pattern(1.0), pattern(0.5), &arith)), 1.0 + 0.5 * 0.85);
    assert_eq!(number(initial_guess(pattern(1.0), pattern(0.5), &arith)), 1.425);
    assert_eq!(number(initial_guess(pattern(4.0), pattern(0.5), &arith)), 4.0 - 0.5 * 0.85);
    assert_eq!(number(initial_guess(pattern(4.0), pattern(0.5), &arith)), 3.575);
    assert_eq!(number(initial_guess(pattern(0.0), pattern(0.2), &arith)), 0.17);
    assert_eq!(number(initial_guess(pattern(-2.0), pattern(1.0), &arith)), -1.15);
}

#[test]
fn starting_estimate_turns_at_pi_itself() {
    let arith = double_arithmetic;
    let below = f64::from_bits(PI.to_bits() - 1);
    assert_eq!(number(initial_guess(pattern(below), pattern(1.0), &arith)), below + 0.85);
    assert_eq!(number(initial_guess(pattern(PI), pattern(1.0), &arith)), PI - 0.85);
    // A mean anomaly that is not a number is not below pi.
    let arith = marking;
    assert_eq!(number(initial_guess(pattern(f64::NAN), pattern(1.0), &arith)), -1.0);
    assert_eq!(number(initial_guess(pattern(3.0), pattern(1.0), &arith)), 1.0);
    assert_eq!(number(initial_guess(pattern(f64::NEG_INFINITY), pattern(1.0), &arith)), 1.0);
    assert_eq!(number(initial_guess(pattern(f64::INFINITY), pattern(1.0), &arith)), -1.0);
}

#[test]
fn a_sample_holds_sine_cosine_and_residual() {
    let arith = double_arithmetic;
    let sample = evaluate(pattern(1.0), pattern(0.5), pattern(0.25), &arith);
    assert_eq!(number(sample.sin), 1.0f64.sin());
    assert_eq!(number(sample.cos), 1.0f64.cos());
    assert_eq!(number(sample.residual), 1.0 - 0.25 * 1.0f64.sin() - 0.5);
    assert_eq!(number(sample.residual), 0.2896322537980258);
    let sample = evaluate(pattern(0.0), pattern(0.0), pattern(0.9), &arith);
    assert_eq!(sample, Sample { sin: pattern(0.0), cos: pattern(1.0), residual: pattern(0.0) });
}

#[test]
fn a_newton_step_divides_the_residual_by_the_slope() {
    let arith = double_arithmetic;
    let sample = Sample { sin: pattern(0.6), cos: pattern(0.8), residual: pattern(0.3) };
    let next = newton_step(pattern(2.0), pattern(0.5), &sample, &arith);
    assert_eq!(number(next), 2.0 - 0.3 / (1.0 - 0.5 * 0.8));
    assert_eq!(number(next), 1.5);
    let flat = Sample { sin: pattern(0.0), cos: pattern(1.0), residual: pattern(0.25) };
    let next = newton_step(pattern(2.0), pattern(1.0), &flat, &arith);
    assert_eq!(number(next), f64::NEG_INFINITY);
}

#[test]
fn a_sample_is_accepted_up_to_the_tolerance() {
    let with_residual =
        |g: f64| Sample { sin: pattern(0.0), cos: pattern(1.0), residual: pattern(g) };
    assert!(converged(&with_residual(0.0)));
    assert!(converged(&with_residual(-0.0)));
    assert!(converged(&with_residual(1e-13)));
    assert!(converged(&with_residual(1e-12)));
    assert!(converged(&with_residual(-1e-12)));
    assert!(!converged(&with_residual(f64::from_bits(1e-12f64.to_bits() + 1))));
    assert!(!converged(&with_residual(-f64::from_bits(1e-12f64.to_bits() + 1))));
    assert!(!converged(&with_residual(1e-11)));
    assert!(!converged(&with_residual(f64::NAN)));
    assert!(!converged(&with_residual(f64::INFINITY)));
    let single =
        |g: f32| Sample { sin: pattern32(0.0), cos: pattern32(1.0), residual: pattern32(g) };
    assert!(converged(&single(0.0)));
    assert!(converged(&single(1e-12)));
    assert!(!converged(&single(f32::from_bits(1e-12f32.to_bits() + 1))));
    assert!(!converged(&single(f32::EPSILON)));
}

#[test]
fn the_solver_applies_the_operations_it_is_given() {
    // Operations that hand back their first operand make the starting
    // estimate the mean anomaly, and every sample the estimate itself.
    let arith = first_operand;
    let out = compute_eccentric_anomaly(Binary64 { bits: 0 }, Binary64 { bits: 77 }, &arith);
    assert_eq!(out, (Binary64 { bits: 0 }, Binary64 { bits: 1 }));
    let out = compute_eccentric_anomaly(pattern(1.0), Binary64 { bits: 77 }, &arith);
    assert_eq!(out, (pattern(1.0), Binary64 { bits: pattern(1.0).bits + 1 }));
}
