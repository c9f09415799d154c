use scijava::{
    Digits, Endpoint, ErrorRule, GaussLegendrePlan, IntervalMap, QuadratureError, TanhSinhPlan,
    error_exponent, error_rule, gauss_legendre_plan, interval_map, tanh_sinh_plan,
    three_point_rule,
};

#[test]
fn gauss_legendre_degree_one_is_three_point_rule() {
    let nodes = three_point_rule();
    assert_eq!(nodes.len(), 3);
    // (sqrt(3/5), 5/9), (-sqrt(3/5), 5/9), (0, 8/9)
    assert!(!nodes[0].negative);
    assert_eq!((nodes[0].square_num, nodes[0].square_den), (3, 5));
    assert_eq!((nodes[0].weight_num, nodes[0].weight_den), (5, 9));
    assert!(nodes[1].negative);
    assert_eq!((nodes[1].square_num, nodes[1].square_den), (3, 5));
    assert_eq!((nodes[1].weight_num, nodes[1].weight_den), (5, 9));
    assert_eq!(nodes[2].square_num, 0);
    assert_eq!((nodes[2].weight_num, nodes[2].weight_den), (8, 9));
    let x: f64 = (3.0f64 / 5.0).sqrt();
    assert!((x - 0.7745966692414834).abs() < 1e-15);
}

#[test]
fn gauss_legendre_plan_degree_one_is_fixed() {
    let plan = gauss_legendre_plan(64, 1).unwrap();
    assert_eq!(
        plan,
        GaussLegendrePlan {
            fixed_rule: true,
            working_precision: 96,
            epsilon_exponent: -72,
            points: 3,
            roots: 0,
        }
    );
}

#[test]
fn gauss_legendre_plan_higher_degrees() {
    let plan = gauss_legendre_plan(53, 2).unwrap();
    assert!(!plan.fixed_rule);
    assert_eq!(plan.working_precision, 79);
    assert_eq!(plan.epsilon_exponent, -61);
    assert_eq!(plan.points, 6);
    assert_eq!(plan.roots, 3);
    let plan = gauss_legendre_plan(100, 5).unwrap();
    assert_eq!(plan.points, 48);
    assert_eq!(plan.roots, 24);
    assert_eq!(gauss_legendre_plan(100, 63).unwrap().points, 3u64 << 62);
    assert!(gauss_legendre_plan(100, 64).is_none());
}

#[test]
fn tanh_sinh_degree_one_begins_at_centre() {
    let plan = tanh_sinh_plan(64, 1).unwrap();
    assert_eq!(
        plan,
        TanhSinhPlan {
            working_precision: 94,
            tolerance_exponent: -74,
            offset_exponent: -1,
            step_exponent: -1,
            center_node: true,
            max_steps: 41,
        }
    );
}

#[test]
fn tanh_sinh_higher_degrees() {
    let plan = tanh_sinh_plan(128, 3).unwrap();
    assert!(!plan.center_node);
    assert_eq!(plan.offset_exponent, -3);
    assert_eq!(plan.step_exponent, -2);
    assert_eq!(plan.max_steps, 161);
    assert_eq!(tanh_sinh_plan(10, 59).unwrap().max_steps, 1 + 20 * (1u64 << 59));
    assert!(tanh_sinh_plan(10, 60).is_none());
}

#[test]
fn finite_interval_is_affine() {
    assert_eq!(interval_map(Endpoint::Finite, Endpoint::Finite, false), Ok(IntervalMap::Affine));
    // a = 2, b = 6: c = (b - a) / 2 = 2, d = (b + a) / 2 = 4
    let (a, b) = (2.0f64, 6.0f64);
    let (c, d) = ((b - a) / 2.0, (b + a) / 2.0);
    assert_eq!((c, d), (2.0, 4.0));
    assert_eq!(c * 0.5 + d, 5.0);
}

#[test]
fn canonical_interval_is_unchanged() {
    assert_eq!(interval_map(Endpoint::Finite, Endpoint::Finite, true), Ok(IntervalMap::Unchanged));
    assert_eq!(interval_map(Endpoint::Finite, Endpoint::Finite, true), Ok(IntervalMap::Unchanged));
}

#[test]
fn infinite_intervals() {
    assert_eq!(interval_map(Endpoint::NegativeInfinity, Endpoint::PositiveInfinity, false), Ok(IntervalMap::WholeLine));
    assert_eq!(interval_map(Endpoint::NegativeInfinity, Endpoint::Finite, false), Ok(IntervalMap::UpToFinite));
    assert_eq!(interval_map(Endpoint::Finite, Endpoint::PositiveInfinity, false), Ok(IntervalMap::FromFinite));
    assert_eq!(
        interval_map(Endpoint::PositiveInfinity, Endpoint::NegativeInfinity, false),
        Ok(IntervalMap::ReversedWholeLine)
    );
}

#[test]
fn incompatible_infinite_bounds_are_invalid() {
    for (a, b) in [
        (Endpoint::PositiveInfinity, Endpoint::Finite),
        (Endpoint::Finite, Endpoint::NegativeInfinity),
        (Endpoint::NegativeInfinity, Endpoint::NegativeInfinity),
        (Endpoint::PositiveInfinity, Endpoint::PositiveInfinity),
    ] {
        assert_eq!(interval_map(a, b, false), Err(QuadratureError::InvalidInterval));
    }
}

#[test]
fn error_rule_by_sequence_length() {
    assert_eq!(error_rule(1, false), ErrorRule::Epsilon);
    assert_eq!(error_rule(2, false), ErrorRule::LastDifference);
    assert_eq!(error_rule(3, true), ErrorRule::Zero);
    assert_eq!(error_rule(3, false), ErrorRule::Extrapolate);
    assert_eq!(error_rule(10, true), ErrorRule::Zero);
}

#[test]
fn error_exponent_clamps() {
    assert_eq!(error_exponent(53, Digits::Finite(-20)), -20);
    assert_eq!(error_exponent(53, Digits::Finite(-80)), -53);
    assert_eq!(error_exponent(53, Digits::Finite(3)), 0);
    assert_eq!(error_exponent(53, Digits::PositiveInfinity), 0);
    assert_eq!(error_exponent(53, Digits::NegativeInfinity), -53);
    assert_eq!(error_exponent(53, Digits::NotANumber), -53);
    // d1 = -4, d2 = -2: max(d1^2 / d2, 2 d1) = max(-8, -8) = -8
    let (d1, d2) = (-4.0f64, -2.0f64);
    let digits = (d1 * d1 / d2).max(2.0 * d1).floor() as i64;
    assert_eq!(error_exponent(53, Digits::Finite(digits)), -8);
}

#[test]
fn rounding_mode_codes() {
    assert_eq!(scijava::xlat_rounding(0), Some(scijava::RoundingMode::Up));
    assert_eq!(scijava::xlat_rounding(1), Some(scijava::RoundingMode::Down));
    assert_eq!(scijava::xlat_rounding(2), Some(scijava::RoundingMode::Nearest));
    assert_eq!(scijava::xlat_rounding(3), Some(scijava::RoundingMode::TowardZero));
    assert_eq!(scijava::xlat_rounding(4), None);
    assert_eq!(scijava::xlat_rounding(-1), None);
}
