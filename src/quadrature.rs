use vstd::arithmetic::power2::pow2;
use vstd::prelude::*;

verus! {

/// Where one end of an integration interval lies.
#[derive(PartialEq, Eq, Structural, Clone, Copy, Debug)]
pub enum Endpoint {
    NegativeInfinity,
    Finite,
    PositiveInfinity,
}

/// How nodes on the canonical interval [-1, 1] are carried onto [a, b].
#[derive(PartialEq, Eq, Structural, Clone, Copy, Debug)]
pub enum IntervalMap {
    /// a = -1 and b = 1: the nodes stay as they are.
    Unchanged,
    /// Both ends finite: `x -> c x + d`, `w -> c w`, with `c = (b - a) / 2`, `d = (b + a) / 2`.
    Affine,
    /// (-inf, +inf): `x -> x / sqrt(1 - x^2)`, `w -> w / ((1 - x^2) sqrt(1 - x^2))`.
    WholeLine,
    /// (-inf, b]: with `u = 2 / (x + 1)`, `x -> b - u + 1`, `w -> w u^2 / 2`.
    UpToFinite,
    /// [a, +inf): with `u = 2 / (x + 1)`, `x -> a + u - 1`, `w -> w u^2 / 2`.
    FromFinite,
    /// (+inf, -inf): the whole-line map, then every weight negated.
    ReversedWholeLine,
}

#[derive(PartialEq, Eq, Structural, Clone, Copy, Debug)]
pub enum QuadratureError {
    /// The two ends do not bound an interval that the nodes can be carried onto.
    InvalidInterval,
}

/// The map for the ends `a`, `b`; `canonical` says that they are exactly -1 and 1.
pub open spec fn interval_map_spec(a: Endpoint, b: Endpoint, canonical: bool) -> Result<
    IntervalMap,
    QuadratureError,
> {
    if canonical && a == Endpoint::Finite && b == Endpoint::Finite {
        Ok(IntervalMap::Unchanged)
    } else if a == Endpoint::Finite && b == Endpoint::Finite {
        Ok(IntervalMap::Affine)
    } else if a == Endpoint::NegativeInfinity && b == Endpoint::PositiveInfinity {
        Ok(IntervalMap::WholeLine)
    } else if a == Endpoint::NegativeInfinity && b == Endpoint::Finite {
        Ok(IntervalMap::UpToFinite)
    } else if a == Endpoint::Finite && b == Endpoint::PositiveInfinity {
        Ok(IntervalMap::FromFinite)
    } else if a == Endpoint::PositiveInfinity && b == Endpoint::NegativeInfinity {
        Ok(IntervalMap::ReversedWholeLine)
    } else {
        Err(QuadratureError::InvalidInterval)
    }
}

/// Chooses how canonical nodes are carried onto the interval from `a` to `b`.
/// Any pair of ends other than the six that have a map is an invalid interval, and
/// then no node is to be changed.
pub fn interval_map(a: Endpoint, b: Endpoint, canonical: bool) -> (r: Result<
    IntervalMap,
    QuadratureError,
>)
    ensures
        r == interval_map_spec(a, b, canonical),
{
    match (a, b) {
        (Endpoint::Finite, Endpoint::Finite) => {
            if canonical {
                Ok(IntervalMap::Unchanged)
            } else {
                Ok(IntervalMap::Affine)
            }
        },
        (Endpoint::NegativeInfinity, Endpoint::PositiveInfinity) => Ok(IntervalMap::WholeLine),
        (Endpoint::NegativeInfinity, Endpoint::Finite) => Ok(IntervalMap::UpToFinite),
        (Endpoint::Finite, Endpoint::PositiveInfinity) => Ok(IntervalMap::FromFinite),
        (Endpoint::PositiveInfinity, Endpoint::NegativeInfinity) => Ok(
            IntervalMap::ReversedWholeLine,
        ),
        _ => Err(QuadratureError::InvalidInterval),
    }
}

/// Carrying canonical nodes onto [-1, 1] leaves them as they are, so doing it again
/// changes nothing either.
pub proof fn lemma_canonical_interval_unchanged()
    ensures
        interval_map_spec(Endpoint::Finite, Endpoint::Finite, true) == Ok::<
            IntervalMap,
            QuadratureError,
        >(IntervalMap::Unchanged),
{
}

/// An interval map fails exactly when an end is infinite and the pair is none of the
/// four infinite cases.
pub proof fn lemma_invalid_interval_exactly(a: Endpoint, b: Endpoint, canonical: bool)
    ensures
        interval_map_spec(a, b, canonical) is Err <==> !(
        (a == Endpoint::Finite && b == Endpoint::Finite) || (a == Endpoint::NegativeInfinity && b
            == Endpoint::PositiveInfinity) || (a == Endpoint::NegativeInfinity && b
            == Endpoint::Finite) || (a == Endpoint::Finite && b == Endpoint::PositiveInfinity) || (a
            == Endpoint::PositiveInfinity && b == Endpoint::NegativeInfinity)),
{
}

/// One node of the three-point Gauss-Legendre rule in exact form: the abscissa is
/// `-sqrt(square_num / square_den)` or `sqrt(square_num / square_den)`, the weight
/// `weight_num / weight_den`.
#[derive(PartialEq, Eq, Structural, Clone, Copy, Debug)]
pub struct ExactNode {
    pub negative: bool,
    pub square_num: u64,
    pub square_den: u64,
    pub weight_num: u64,
    pub weight_den: u64,
}

/// The three-point rule: `(sqrt(3/5), 5/9)`, `(-sqrt(3/5), 5/9)`, `(0, 8/9)`, in that order.
pub open spec fn three_point_rule_spec() -> Seq<ExactNode> {
    seq![
        ExactNode { negative: false, square_num: 3, square_den: 5, weight_num: 5, weight_den: 9 },
        ExactNode { negative: true, square_num: 3, square_den: 5, weight_num: 5, weight_den: 9 },
        ExactNode { negative: false, square_num: 0, square_den: 1, weight_num: 8, weight_den: 9 },
    ]
}

/// The nodes of the degree-1 Gauss-Legendre rule on [-1, 1], in exact form.
pub fn three_point_rule() -> (r: Vec<ExactNode>)
    ensures
        r@ == three_point_rule_spec(),
{
    let mut r: Vec<ExactNode> = Vec::new();
    r.push(
        ExactNode { negative: false, square_num: 3, square_den: 5, weight_num: 5, weight_den: 9 },
    );
    r.push(
        ExactNode { negative: true, square_num: 3, square_den: 5, weight_num: 5, weight_den: 9 },
    );
    r.push(
        ExactNode { negative: false, square_num: 0, square_den: 1, weight_num: 8, weight_den: 9 },
    );
    assert(r@ =~= three_point_rule_spec());
    r
}

/// The three-point rule integrates constants exactly: its weights, all in ninths, sum
/// to 2, the length of [-1, 1]; and its abscissae are symmetric about 0.
pub proof fn lemma_three_point_rule_weights()
    ensures
        forall|i: int| 0 <= i < 3 ==> #[trigger] three_point_rule_spec()[i].weight_den == 9,
        three_point_rule_spec()[0].weight_num + three_point_rule_spec()[1].weight_num
            + three_point_rule_spec()[2].weight_num == 2 * 9,
        three_point_rule_spec()[0].square_num == three_point_rule_spec()[1].square_num,
        three_point_rule_spec()[0].square_den == three_point_rule_spec()[1].square_den,
        three_point_rule_spec()[0].negative != three_point_rule_spec()[1].negative,
        three_point_rule_spec()[2].square_num == 0,
{
}

/// `2^e` for `e < 64`.
fn power_of_two(e: u64) -> (r: u64)
    requires
        e <= 63,
    ensures
        r == pow2(e as nat),
{
    let mut r: u64 = 1;
    let mut i: u64 = 0;
    proof {
        vstd::arithmetic::power2::lemma2_to64();
        vstd::arithmetic::power2::lemma2_to64_rest();
    }
    while i < e
        invariant
            i <= e <= 63,
            r == pow2(i as nat),
        decreases e - i,
    {
        proof {
            vstd::arithmetic::power2::lemma_pow2_unfold((i + 1) as nat);
            vstd::arithmetic::power2::lemma2_to64_rest();
            if i + 1 < 63 {
                vstd::arithmetic::power2::lemma_pow2_strictly_increases((i + 1) as nat, 63);
            }
        }
        r = r * 2;
        i = i + 1;
    }
    r
}

/// What Gauss-Legendre node generation does for a precision and a degree.
#[derive(PartialEq, Eq, Structural, Clone, Copy, Debug)]
pub struct GaussLegendrePlan {
    /// Degree 1 is the fixed three-point rule; the others solve for Legendre roots.
    pub fixed_rule: bool,
    /// Bits for the root search: the precision plus half of it.
    pub working_precision: u64,
    /// Newton steps stop once a correction is at most `2^epsilon_exponent`, that is
    /// `2^(-precision - 8)`. A decimal bound such as `10^(-1.5 precision - 8)` lies
    /// near `2^(-5 precision)`, far below the `2^(-1.5 precision)` that the working
    /// precision resolves, so the corrections would never reach it and the search
    /// would not stop.
    pub epsilon_exponent: i64,
    /// Number of points `n = 3 * 2^(degree - 1)`, the degree of the Legendre polynomial.
    pub points: u64,
    /// Roots solved for: `j = 1 .. floor(n / 2)`, each giving the pair `(r, w)`, `(-r, w)`.
    pub roots: u64,
}

/// The plan for `precision` bits and `degree`, where the point count fits in 64 bits.
pub open spec fn gauss_legendre_plan_spec(precision: u32, degree: u32) -> GaussLegendrePlan {
    let wp = precision + precision / 2;
    let n: nat = if degree == 1 {
        3
    } else {
        3 * pow2((degree - 1) as nat)
    };
    GaussLegendrePlan {
        fixed_rule: degree == 1,
        working_precision: wp as u64,
        epsilon_exponent: (-precision - 8) as i64,
        points: n as u64,
        roots: if degree == 1 {
            0
        } else {
            (n / 2) as u64
        },
    }
}

/// Plans Gauss-Legendre node generation: `None` where `3 * 2^(degree - 1)` does not fit
/// in 64 bits.
pub fn gauss_legendre_plan(precision: u32, degree: u32) -> (r: Option<GaussLegendrePlan>)
    requires
        degree >= 1,
    ensures
        degree <= 63 ==> r == Some(gauss_legendre_plan_spec(precision, degree)),
        degree > 63 ==> r is None,
{
    if degree > 63 {
        return None;
    }
    let wp: u64 = precision as u64 + precision as u64 / 2;
    let eps: i64 = -(precision as i64) - 8;
    if degree == 1 {
        return Some(
            GaussLegendrePlan {
                fixed_rule: true,
                working_precision: wp,
                epsilon_exponent: eps,
                points: 3,
                roots: 0,
            },
        );
    }
    let shift: u64 = (degree - 1) as u64;
    let p: u64 = power_of_two(shift);
    proof {
        vstd::arithmetic::power2::lemma2_to64_rest();
        if shift < 62 {
            vstd::arithmetic::power2::lemma_pow2_strictly_increases(shift as nat, 62);
        }
    }
    let n: u64 = 3 * p;
    Some(
        GaussLegendrePlan {
            fixed_rule: false,
            working_precision: wp,
            epsilon_exponent: eps,
            points: n,
            roots: n / 2,
        },
    )
}

/// Nodes a Gauss-Legendre plan yields: three for the fixed rule, else a pair per root.
pub open spec fn gauss_legendre_node_count(plan: GaussLegendrePlan) -> nat {
    if plan.fixed_rule {
        3
    } else {
        (2 * plan.roots) as nat
    }
}

/// Above degree 1 the rule has exactly `3 * 2^(degree - 1)` nodes, in symmetric pairs.
pub proof fn lemma_gauss_legendre_node_count(precision: u32, degree: u32)
    requires
        2 <= degree <= 63,
    ensures
        gauss_legendre_node_count(gauss_legendre_plan_spec(precision, degree)) == 3 * pow2(
            (degree - 1) as nat,
        ),
{
    let e = (degree - 1) as nat;
    vstd::arithmetic::power2::lemma_pow2_unfold(e);
    vstd::arithmetic::power2::lemma_pow2_pos((e - 1) as nat);
    vstd::arithmetic::power2::lemma2_to64_rest();
    if e < 62 {
        vstd::arithmetic::power2::lemma_pow2_strictly_increases(e, 62);
    }
    assert(pow2(e) == 2 * pow2((e - 1) as nat));
    let n: nat = 3 * pow2(e);
    assert(n % 2 == 0);
    assert(2 * (n / 2) == n);
}

/// What tanh-sinh node generation does for a precision and a degree.
#[derive(PartialEq, Eq, Structural, Clone, Copy, Debug)]
pub struct TanhSinhPlan {
    /// Bits for the computation: the precision plus 30.
    pub working_precision: u64,
    /// A node stops the walk once `|x - 1| <= 2^tolerance_exponent`.
    pub tolerance_exponent: i64,
    /// The first abscissa offset is `2^offset_exponent`.
    pub offset_exponent: i64,
    /// The step is `2^step_exponent`.
    pub step_exponent: i64,
    /// Whether the walk is preceded by the centre node `(0, pi / 2)`.
    pub center_node: bool,
    /// Most steps of the walk: `1 + 20 * 2^degree`.
    pub max_steps: u64,
}

pub open spec fn tanh_sinh_plan_spec(precision: u32, degree: u32) -> TanhSinhPlan {
    TanhSinhPlan {
        working_precision: (precision + 30) as u64,
        tolerance_exponent: (-precision - 10) as i64,
        offset_exponent: -degree as i64,
        step_exponent: if degree == 1 {
            -1i64
        } else {
            (1 - degree) as i64
        },
        center_node: degree == 1,
        max_steps: (1 + 20 * pow2(degree as nat)) as u64,
    }
}

/// Plans tanh-sinh node generation: `None` where `1 + 20 * 2^degree` does not fit in
/// 64 bits.
pub fn tanh_sinh_plan(precision: u32, degree: u32) -> (r: Option<TanhSinhPlan>)
    requires
        degree >= 1,
    ensures
        degree <= 59 ==> r == Some(tanh_sinh_plan_spec(precision, degree)),
        degree > 59 ==> r is None,
{
    if degree > 59 {
        return None;
    }
    let p: u64 = power_of_two(degree as u64);
    proof {
        vstd::arithmetic::power2::lemma2_to64_rest();
        if degree < 59 {
            vstd::arithmetic::power2::lemma_pow2_strictly_increases(degree as nat, 59);
        }
    }
    let step: i64 = if degree == 1 {
        -1
    } else {
        1 - degree as i64
    };
    Some(
        TanhSinhPlan {
            working_precision: precision as u64 + 30,
            tolerance_exponent: -(precision as i64) - 10,
            offset_exponent: -(degree as i64),
            step_exponent: step,
            center_node: degree == 1,
            max_steps: 1 + 20 * p,
        },
    )
}

/// Nodes a tanh-sinh plan can yield at most: the centre node and a pair per step.
pub open spec fn tanh_sinh_node_bound(plan: TanhSinhPlan) -> nat {
    ((if plan.center_node {
        1nat
    } else {
        0nat
    }) + 2 * plan.max_steps) as nat
}

/// Which estimate of the error a convergence sequence allows.
#[derive(PartialEq, Eq, Structural, Clone, Copy, Debug)]
pub enum ErrorRule {
    /// One estimate: nothing to compare, the error is the given epsilon.
    Epsilon,
    /// Two estimates: the error is `|last - previous|`.
    LastDifference,
    /// The last three estimates are equal: the error is 0.
    Zero,
    /// Otherwise: `10^e`, `e` from `error_exponent` on the digits gained.
    Extrapolate,
}

pub open spec fn error_rule_spec(estimates: nat, last_three_equal: bool) -> ErrorRule {
    if estimates == 1 {
        ErrorRule::Epsilon
    } else if estimates == 2 {
        ErrorRule::LastDifference
    } else if last_three_equal {
        ErrorRule::Zero
    } else {
        ErrorRule::Extrapolate
    }
}

/// The rule for a sequence of `estimates` values, most recent last;
/// `last_three_equal` says whether the last three are equal (ignored below three).
pub fn error_rule(estimates: usize, last_three_equal: bool) -> (r: ErrorRule)
    requires
        estimates >= 1,
    ensures
        r == error_rule_spec(estimates as nat, last_three_equal),
{
    if estimates == 1 {
        ErrorRule::Epsilon
    } else if estimates == 2 {
        ErrorRule::LastDifference
    } else if last_three_equal {
        ErrorRule::Zero
    } else {
        ErrorRule::Extrapolate
    }
}

/// A count of decimal digits as the real arithmetic gives it: `floor(max(d1^2 / d2, 2 d1))`,
/// with `d1 = log10|last - previous|` and `d2 = log10|last - before previous|`.
#[derive(PartialEq, Eq, Structural, Clone, Copy, Debug)]
pub enum Digits {
    NotANumber,
    NegativeInfinity,
    Finite(i64),
    PositiveInfinity,
}

pub open spec fn error_exponent_spec(precision: u32, digits: Digits) -> int {
    let low = -(precision as int);
    match digits {
        Digits::Finite(d) => if d < low {
            low
        } else if d > 0 {
            0
        } else {
            d as int
        },
        Digits::PositiveInfinity => 0,
        _ => low,
    }
}

/// The exponent of the extrapolated error `10^e`: the digits clamped to
/// `[-precision, 0]`. A missing value (not a number) falls to the lower bound, as a
/// maximum with `-precision` ignores it.
pub fn error_exponent(precision: u32, digits: Digits) -> (r: i64)
    ensures
        r == error_exponent_spec(precision, digits),
        -(precision as int) <= r <= 0,
{
    let low: i64 = -(precision as i64);
    match digits {
        Digits::Finite(d) => {
            if d < low {
                low
            } else if d > 0 {
                0
            } else {
                d
            }
        },
        Digits::PositiveInfinity => 0,
        _ => low,
    }
}

} // verus!
