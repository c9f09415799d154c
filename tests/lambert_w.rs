use scijava::{
    HALLEY_MAX_ITERATIONS, HalleyMonitor, HalleyVerdict, InitialMethod, Magnitude, RealClass,
    SeriesPlan, SpecialValue, initial_method, magnitude, magnitude_at_most, needs_refinement,
    series_plan, special_value, term_negligible,
};

#[test]
fn lambert_w_at_zero_and_infinity() {
    assert_eq!(special_value(RealClass::Zero, 0), SpecialValue::Argument);
    assert_eq!(special_value(RealClass::Zero, -1), SpecialValue::NegativeInfinity);
    assert_eq!(special_value(RealClass::Zero, 3), SpecialValue::NegativeInfinity);
    assert_eq!(special_value(RealClass::PositiveInfinity, 0), SpecialValue::Argument);
    assert_eq!(special_value(RealClass::PositiveInfinity, -1), SpecialValue::Logarithm);
    assert_eq!(special_value(RealClass::NotANumber, 0), SpecialValue::Logarithm);
}

#[test]
fn magnitude_conventions() {
    assert_eq!(magnitude(RealClass::Zero, 0), Magnitude::NegativeInfinity);
    assert_eq!(magnitude(RealClass::NegativeInfinity, 0), Magnitude::PositiveInfinity);
    // e = 2.718... = 0.679... * 2^2: floor(log2 e) = 1
    assert_eq!(magnitude(RealClass::Normal, 2), Magnitude::Finite(1));
    // 1 = 0.5 * 2^1
    assert_eq!(magnitude(RealClass::Normal, 1), Magnitude::Finite(0));
}

#[test]
fn methods_for_e_and_one_on_principal_branch() {
    // z = 1 (magnitude 0): ln(1 + z), since ln(ln 1) is not finite
    assert_eq!(initial_method(Magnitude::Finite(0), 0, false, false, true), InitialMethod::LogOnePlus);
    // z = 1.5 (magnitude 0, above 1) and z = e (magnitude 1): the log-log expansion
    assert_eq!(initial_method(Magnitude::Finite(0), 0, false, false, false), InitialMethod::LogLog);
    assert_eq!(initial_method(Magnitude::Finite(1), 0, false, false, false), InitialMethod::LogLog);
    assert!(needs_refinement(InitialMethod::LogLog, false));
    assert!(needs_refinement(InitialMethod::LogOnePlus, false));
    // z = 0.1: small argument
    assert_eq!(
        initial_method(Magnitude::Finite(-4), 0, false, false, true),
        InitialMethod::SmallArgument
    );
}

#[test]
fn seeds_at_extreme_magnitudes() {
    // W0(2^1000): log-log seed
    assert_eq!(initial_method(Magnitude::Finite(1000), 0, false, false, false), InitialMethod::LogLog);
    // W-1(-2^-20): negative log-log seed
    assert_eq!(
        initial_method(Magnitude::Finite(-20), -1, false, true, true),
        InitialMethod::NegativeLogLog
    );
    // W0(2^-2000): small argument
    assert_eq!(
        initial_method(Magnitude::Finite(-2000), 0, false, false, true),
        InitialMethod::SmallArgument
    );
}

#[test]
fn methods_near_branch_point_and_lower_branch() {
    assert_eq!(
        initial_method(Magnitude::Finite(-2), 0, true, true, true),
        InitialMethod::BranchPointSeries
    );
    assert_eq!(
        initial_method(Magnitude::Finite(-2), -1, true, true, true),
        InitialMethod::BranchPointSeries
    );
    assert_eq!(
        initial_method(Magnitude::Finite(-3), -1, false, true, true),
        InitialMethod::NegativeLogLog
    );
    assert_eq!(
        initial_method(Magnitude::Finite(-3), -1, false, false, true),
        InitialMethod::NotANumber
    );
    assert!(!needs_refinement(InitialMethod::BranchPointSeries, true));
    assert!(needs_refinement(InitialMethod::BranchPointSeries, false));
}

#[test]
fn unsupported_branches_are_not_a_number() {
    for k in [1, 2, -2, 5, 999] {
        let m = initial_method(Magnitude::Finite(0), k, true, true, true);
        assert_eq!(m, InitialMethod::NotANumber);
        assert!(!needs_refinement(m, false));
    }
}

#[test]
fn series_plan_sizes() {
    assert_eq!(
        series_plan(83, Magnitude::Finite(-20)),
        SeriesPlan { cancellation: 20, argument_precision: 103, sum_precision: 93, term_limit: 20 }
    );
    assert_eq!(
        series_plan(83, Magnitude::Finite(3)),
        SeriesPlan { cancellation: 0, argument_precision: 83, sum_precision: 83, term_limit: 2 }
    );
    // an exact zero loses all of the working precision, and no more
    assert_eq!(
        series_plan(83, Magnitude::NegativeInfinity),
        SeriesPlan { cancellation: 83, argument_precision: 166, sum_precision: 124, term_limit: 83 }
    );
    assert_eq!(series_plan(83, Magnitude::Finite(-5000)).cancellation, 83);
}

#[test]
fn series_terms_negligible_below_tolerance() {
    assert!(term_negligible(Magnitude::Finite(-60), 64));
    assert!(!term_negligible(Magnitude::Finite(-59), 64));
    assert!(term_negligible(Magnitude::NegativeInfinity, 64));
    assert!(!term_negligible(Magnitude::NotANumber, 64));
}

#[test]
fn halley_converges_on_small_step() {
    let mut m = HalleyMonitor::new(64);
    assert_eq!(m.observe(Magnitude::Finite(-10), Magnitude::Finite(0)), HalleyVerdict::Continue);
    assert_eq!(m.observe(Magnitude::Finite(-59), Magnitude::Finite(0)), HalleyVerdict::Converged);
    let mut m = HalleyMonitor::new(64);
    assert_eq!(m.observe(Magnitude::NegativeInfinity, Magnitude::Finite(0)), HalleyVerdict::Converged);
}

#[test]
fn halley_fails_after_budget() {
    let mut m = HalleyMonitor::new(64);
    let mut last = HalleyVerdict::Continue;
    let mut steps = 0;
    while m.may_step() {
        last = m.observe(Magnitude::NotANumber, Magnitude::NotANumber);
        steps += 1;
    }
    assert_eq!(steps, HALLEY_MAX_ITERATIONS);
    assert_eq!(last, HalleyVerdict::Failed);
}

fn mag64(x: f64) -> Magnitude {
    if x == 0.0 {
        Magnitude::NegativeInfinity
    } else {
        Magnitude::Finite(x.abs().log2().floor() as i64)
    }
}

/// W0(z) in double precision, seeded and refined as the evaluator decides.
fn w0(z: f64) -> (f64, HalleyVerdict) {
    let method = initial_method(mag64(z), 0, (z + (-1.0f64).exp()).abs() < 0.05, false, z <= 1.0);
    let mut w = match method {
        InitialMethod::SmallArgument => z * (1.0 - z),
        InitialMethod::LogOnePlus => (1.0 + z).ln(),
        InitialMethod::LogLog => {
            let l1 = z.ln();
            let l2 = l1.ln();
            l1 - l2 + l2 / l1 + l2 * (l2 - 2.0) / (2.0 * l1 * l1)
        }
        other => panic!("unexpected method {:?}", other),
    };
    assert!(needs_refinement(method, false));
    let mut m = HalleyMonitor::new(53);
    loop {
        let ew = w.exp();
        let wew = w * ew;
        let d = wew - z;
        let wn = w - d / (wew + ew - (w + 2.0) * d / (2.0 * w + 2.0));
        let verdict = m.observe(mag64(wn - w), mag64(wn));
        w = wn;
        if verdict != HalleyVerdict::Continue {
            return (w, verdict);
        }
    }
}

#[test]
fn omega_constant_halley_refinement() {
    // W(1) = 0.5671432904097838, from the seed the library picks for z = 1
    let (w, verdict) = w0(1.0);
    assert_eq!(verdict, HalleyVerdict::Converged);
    assert!((w - 0.5671432904097838).abs() < 1e-15);
}

#[test]
fn lambert_w_of_e_is_one() {
    let (w, verdict) = w0(std::f64::consts::E);
    assert_eq!(verdict, HalleyVerdict::Converged);
    assert!((w - 1.0).abs() < 1e-15);
    for z in [0.5f64, 0.75, 1.5, 2.0, 2.7, 10.0, 1e6] {
        let (w, verdict) = w0(z);
        assert_eq!(verdict, HalleyVerdict::Converged, "z = {}", z);
        assert!((w * w.exp() - z).abs() <= 1e-12 * z, "z = {}", z);
    }
}

#[test]
fn magnitude_comparison_with_infinities() {
    assert!(magnitude_at_most(Magnitude::NegativeInfinity, Magnitude::NegativeInfinity, 10));
    assert!(magnitude_at_most(Magnitude::Finite(5), Magnitude::PositiveInfinity, 10));
    assert!(!magnitude_at_most(Magnitude::PositiveInfinity, Magnitude::Finite(5), 10));
    assert!(magnitude_at_most(Magnitude::Finite(-5), Magnitude::Finite(5), 10));
    assert!(!magnitude_at_most(Magnitude::Finite(-4), Magnitude::Finite(5), 10));
    // i64::MAX <= i64::MIN - i64::MIN = 0 is false; i64::MIN <= i64::MAX - i64::MAX = 0 holds
    assert!(!magnitude_at_most(Magnitude::Finite(i64::MAX), Magnitude::Finite(i64::MIN), i64::MIN));
    assert!(magnitude_at_most(Magnitude::Finite(i64::MIN), Magnitude::Finite(i64::MAX), i64::MAX));
}
