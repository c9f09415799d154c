use vstd::prelude::*;

verus! {

/// The class of a real value.
#[derive(PartialEq, Eq, Structural, Clone, Copy, Debug)]
pub enum RealClass {
    /// +0 or -0.
    Zero,
    /// Finite and not zero.
    Normal,
    PositiveInfinity,
    NegativeInfinity,
    NotANumber,
}

/// `floor(log2 |x|)`, with -inf for 0 and +inf for an infinite `x`.
#[derive(PartialEq, Eq, Structural, Clone, Copy, Debug)]
pub enum Magnitude {
    NegativeInfinity,
    Finite(i64),
    PositiveInfinity,
    NotANumber,
}

/// The magnitude of a value of class `class`; for a normal value its binary exponent
/// `e` is given, the one with `2^(e-1) <= |x| < 2^e`.
pub open spec fn magnitude_spec(class: RealClass, exponent: i64) -> Magnitude {
    match class {
        RealClass::Zero => Magnitude::NegativeInfinity,
        RealClass::Normal => Magnitude::Finite((exponent - 1) as i64),
        RealClass::PositiveInfinity | RealClass::NegativeInfinity => Magnitude::PositiveInfinity,
        RealClass::NotANumber => Magnitude::NotANumber,
    }
}

pub fn magnitude(class: RealClass, exponent: i64) -> (r: Magnitude)
    requires
        class == RealClass::Normal ==> exponent > i64::MIN,
    ensures
        r == magnitude_spec(class, exponent),
{
    match class {
        RealClass::Zero => Magnitude::NegativeInfinity,
        RealClass::Normal => Magnitude::Finite(exponent - 1),
        RealClass::PositiveInfinity | RealClass::NegativeInfinity => Magnitude::PositiveInfinity,
        RealClass::NotANumber => Magnitude::NotANumber,
    }
}

/// `a <= b - shift` on magnitudes, -inf and +inf absorbing the shift; false where
/// either side is not a number.
pub open spec fn magnitude_at_most_spec(a: Magnitude, b: Magnitude, shift: int) -> bool {
    match (a, b) {
        (Magnitude::NotANumber, _) => false,
        (_, Magnitude::NotANumber) => false,
        (Magnitude::NegativeInfinity, _) => true,
        (_, Magnitude::PositiveInfinity) => true,
        (Magnitude::PositiveInfinity, _) => false,
        (_, Magnitude::NegativeInfinity) => false,
        (Magnitude::Finite(x), Magnitude::Finite(y)) => x <= y - shift,
    }
}

pub fn magnitude_at_most(a: Magnitude, b: Magnitude, shift: i64) -> (r: bool)
    ensures
        r == magnitude_at_most_spec(a, b, shift as int),
{
    match (a, b) {
        (Magnitude::NotANumber, _) => false,
        (_, Magnitude::NotANumber) => false,
        (Magnitude::NegativeInfinity, _) => true,
        (_, Magnitude::PositiveInfinity) => true,
        (Magnitude::PositiveInfinity, _) => false,
        (_, Magnitude::NegativeInfinity) => false,
        (Magnitude::Finite(x), Magnitude::Finite(y)) => (x as i128) <= (y as i128) - (shift as i128),
    }
}

/// What W is at a value that is not a normal number.
#[derive(PartialEq, Eq, Structural, Clone, Copy, Debug)]
pub enum SpecialValue {
    /// W is `z` itself: 0 on the principal branch at 0, +inf there at +inf.
    Argument,
    /// W is -inf: a branch other than the principal one at 0.
    NegativeInfinity,
    /// W is `ln z`, the limit that the remaining cases take.
    Logarithm,
}

pub open spec fn special_value_spec(z: RealClass, k: i64) -> SpecialValue {
    if z == RealClass::Zero {
        if k == 0 {
            SpecialValue::Argument
        } else {
            SpecialValue::NegativeInfinity
        }
    } else if (z == RealClass::PositiveInfinity || z == RealClass::NegativeInfinity) && k == 0 {
        SpecialValue::Argument
    } else {
        SpecialValue::Logarithm
    }
}

/// W on branch `k` at a value of class `z`, which is zero, infinite or not a number.
pub fn special_value(z: RealClass, k: i64) -> (r: SpecialValue)
    requires
        z != RealClass::Normal,
    ensures
        r == special_value_spec(z, k),
{
    if z == RealClass::Zero {
        if k == 0 {
            SpecialValue::Argument
        } else {
            SpecialValue::NegativeInfinity
        }
    } else if (z == RealClass::PositiveInfinity || z == RealClass::NegativeInfinity) && k == 0 {
        SpecialValue::Argument
    } else {
        SpecialValue::Logarithm
    }
}

/// W(0) is 0 on the principal branch and -inf on every other; W(+inf) is +inf there.
pub proof fn lemma_special_values(k: i64)
    ensures
        special_value_spec(RealClass::Zero, 0) == SpecialValue::Argument,
        k != 0 ==> special_value_spec(RealClass::Zero, k) == SpecialValue::NegativeInfinity,
        special_value_spec(RealClass::PositiveInfinity, 0) == SpecialValue::Argument,
{
}

/// How a first approximation of W is had before Halley refinement.
#[derive(PartialEq, Eq, Structural, Clone, Copy, Debug)]
pub enum InitialMethod {
    /// The Puiseux series in `p = 2 sqrt(e z + 1)` about the branch point -1/e
    /// (`p` negated on branch -1).
    BranchPointSeries,
    /// `z (1 - z)`: principal branch, `|z| < 1/2`.
    SmallArgument,
    /// `ln(1 + z)`: principal branch, `|z| >= 1/2` and `z <= 1`, where `ln(ln z)` is
    /// not finite.
    LogOnePlus,
    /// `l1 - l2 + l2 / l1 + l2 (l2 - 2) / (2 l1^2)` with `l1 = ln z`, `l2 = ln l1`:
    /// principal branch, `z > 1`.
    LogLog,
    /// `l1 - ln(-l1)` with `l1 = ln(-z)`: branch -1 on `[-1/e, 0)`.
    NegativeLogLog,
    /// No approximation: W is not a number on this branch.
    NotANumber,
}

/// Whether branch `k` is one that W is evaluated on: the principal branch 0 and branch -1.
pub open spec fn supported_branch(k: i64) -> bool {
    k == 0 || k == -1
}

/// The method for a normal `z` of magnitude `magz` on branch `k`.
/// `near_branch_point` says that `|z + 1/e| < 0.05`, `lower_branch_range` that `z` lies
/// in `[-1/e, 0)`, `at_most_one` that `z <= 1`.
pub open spec fn initial_method_spec(
    magz: Magnitude,
    k: i64,
    near_branch_point: bool,
    lower_branch_range: bool,
    at_most_one: bool,
) -> InitialMethod {
    if near_branch_point && supported_branch(k) {
        InitialMethod::BranchPointSeries
    } else if k == 0 {
        match magz {
            Magnitude::Finite(m) => if m < -1 {
                InitialMethod::SmallArgument
            } else if at_most_one {
                InitialMethod::LogOnePlus
            } else {
                InitialMethod::LogLog
            },
            _ => InitialMethod::NotANumber,
        }
    } else if k == -1 && lower_branch_range {
        InitialMethod::NegativeLogLog
    } else {
        InitialMethod::NotANumber
    }
}

pub fn initial_method(
    magz: Magnitude,
    k: i64,
    near_branch_point: bool,
    lower_branch_range: bool,
    at_most_one: bool,
) -> (r: InitialMethod)
    ensures
        r == initial_method_spec(magz, k, near_branch_point, lower_branch_range, at_most_one),
{
    if near_branch_point && (k == 0 || k == -1) {
        InitialMethod::BranchPointSeries
    } else if k == 0 {
        match magz {
            Magnitude::Finite(m) => {
                if m < -1 {
                    InitialMethod::SmallArgument
                } else if at_most_one {
                    InitialMethod::LogOnePlus
                } else {
                    InitialMethod::LogLog
                }
            },
            _ => InitialMethod::NotANumber,
        }
    } else if k == -1 && lower_branch_range {
        InitialMethod::NegativeLogLog
    } else {
        InitialMethod::NotANumber
    }
}

/// A branch other than 0 and -1 never gets an approximation: W there is not a number.
pub proof fn lemma_unsupported_branch_not_a_number(
    magz: Magnitude,
    k: i64,
    near_branch_point: bool,
    lower_branch_range: bool,
    at_most_one: bool,
)
    requires
        !supported_branch(k),
    ensures
        initial_method_spec(magz, k, near_branch_point, lower_branch_range, at_most_one)
            == InitialMethod::NotANumber,
{
}

/// Away from the branch point, every normal `z` on a supported branch gets a seed,
/// however large or small it is: the log-log seed on branch 0 for every `z > 1`, the
/// negative log-log seed on branch -1 over all of `[-1/e, 0)`.
pub proof fn lemma_seeds_for_every_magnitude(m: i64, lower_branch_range: bool, at_most_one: bool)
    ensures
        m >= -1 && !at_most_one ==> initial_method_spec(Magnitude::Finite(m), 0, false, lower_branch_range, at_most_one)
            == InitialMethod::LogLog,
        m >= -1 && at_most_one ==> initial_method_spec(Magnitude::Finite(m), 0, false, lower_branch_range, at_most_one)
            == InitialMethod::LogOnePlus,
        lower_branch_range ==> initial_method_spec(Magnitude::Finite(m), -1i64, false, true, at_most_one)
            == InitialMethod::NegativeLogLog,
{
}

/// Whether Halley refinement follows the first approximation: not where there is no
/// approximation (W is then not a number), nor where the branch-point series already
/// reached the tolerance; in every other case it does.
pub fn needs_refinement(method: InitialMethod, series_converged: bool) -> (r: bool)
    ensures
        r == !(method == InitialMethod::NotANumber || (method == InitialMethod::BranchPointSeries
            && series_converged)),
{
    match method {
        InitialMethod::NotANumber => false,
        InitialMethod::BranchPointSeries => !series_converged,
        _ => true,
    }
}

/// Bits of working precision added for the whole evaluation.
pub const GUARD_BITS: u32 = 30;

/// Bits short of the precision that the result must agree to.
pub const TOLERANCE_SLACK: u32 = 5;

/// Most Halley iterations before the evaluation gives up.
pub const HALLEY_MAX_ITERATIONS: u32 = 100;

/// Sizes for summing the branch-point series.
#[derive(PartialEq, Eq, Structural, Clone, Copy, Debug)]
pub struct SeriesPlan {
    /// Bits lost to cancellation in `1/e + z`: `-mag(1/e + z)`, from 0 up to the
    /// working precision.
    pub cancellation: u64,
    /// Precision for `p`: the working precision plus the cancellation.
    pub argument_precision: u64,
    /// Precision for the sum: the working precision plus half the cancellation.
    pub sum_precision: u64,
    /// Terms `l = 2 .. term_limit` are summed (none where the limit is 2).
    pub term_limit: u64,
}

pub open spec fn cancellation_spec(working_precision: u32, mag_delta: Magnitude) -> nat {
    match mag_delta {
        Magnitude::Finite(m) => if m < 0 {
            if -m > working_precision {
                working_precision as nat
            } else {
                (-m) as nat
            }
        } else {
            0
        },
        Magnitude::NegativeInfinity => working_precision as nat,
        _ => 0,
    }
}

pub open spec fn series_plan_spec(working_precision: u32, mag_delta: Magnitude) -> SeriesPlan {
    let c = cancellation_spec(working_precision, mag_delta);
    SeriesPlan {
        cancellation: c as u64,
        argument_precision: (working_precision + c) as u64,
        sum_precision: (working_precision + c / 2) as u64,
        term_limit: if c > 2 {
            c as u64
        } else {
            2
        },
    }
}

/// The series sizes at `working_precision` bits, where `1/e + z` has magnitude
/// `mag_delta`. The cancellation is held to the working precision: no more bits than
/// that can be lost, and an exact zero counts as losing them all. So every precision
/// of the plan is at most twice the working precision.
pub fn series_plan(working_precision: u32, mag_delta: Magnitude) -> (r: SeriesPlan)
    ensures
        r == series_plan_spec(working_precision, mag_delta),
        r.cancellation <= working_precision,
        r.argument_precision <= 2 * (working_precision as int),
        r.term_limit <= working_precision || r.term_limit == 2,
{
    let wp: u64 = working_precision as u64;
    let c: u64 = match mag_delta {
        Magnitude::Finite(m) => {
            if m < 0 {
                if m < -(working_precision as i64) {
                    wp
                } else {
                    (-m) as u64
                }
            } else {
                0
            }
        },
        Magnitude::NegativeInfinity => wp,
        _ => 0,
    };
    SeriesPlan {
        cancellation: c,
        argument_precision: wp + c,
        sum_precision: wp + c / 2,
        term_limit: if c > 2 {
            c
        } else {
            2
        },
    }
}

/// Whether a series term is below the target: its magnitude under `-(precision - 5)`.
pub open spec fn term_negligible_spec(mag_term: Magnitude, precision: u32) -> bool {
    match mag_term {
        Magnitude::NegativeInfinity => true,
        Magnitude::Finite(m) => m < -(precision - TOLERANCE_SLACK),
        _ => false,
    }
}

pub fn term_negligible(mag_term: Magnitude, precision: u32) -> (r: bool)
    ensures
        r == term_negligible_spec(mag_term, precision),
{
    match mag_term {
        Magnitude::NegativeInfinity => true,
        Magnitude::Finite(m) => m < TOLERANCE_SLACK as i64 - precision as i64,
        _ => false,
    }
}

/// A Halley step has converged when the change `w_next - w` is smaller than `w_next`
/// by `precision - 5` binary orders of magnitude.
pub open spec fn halley_converged_spec(mag_step: Magnitude, mag_next: Magnitude, precision: u32) -> bool {
    magnitude_at_most_spec(mag_step, mag_next, precision - TOLERANCE_SLACK)
}

#[derive(PartialEq, Eq, Structural, Clone, Copy, Debug)]
pub enum HalleyVerdict {
    /// Take `w_next` as W.
    Converged,
    /// Take `w_next` as the next `w` and iterate again.
    Continue,
    /// The iteration budget is spent without convergence.
    Failed,
}

#[derive(PartialEq, Eq, Structural, Clone, Copy, Debug)]
pub enum LambertWError {
    /// Halley iteration did not converge within its budget.
    ConvergenceFailure,
}

/// Watches Halley refinement of `w e^w = z`: counts the steps and decides after each.
pub struct HalleyMonitor {
    steps: u32,
    precision: u32,
}

impl HalleyMonitor {
    /// Steps taken so far.
    pub closed spec fn steps_taken(&self) -> nat {
        self.steps as nat
    }

    /// The precision the result must meet, up to 5 bits.
    pub closed spec fn target_precision(&self) -> u32 {
        self.precision
    }

    pub closed spec fn wf(&self) -> bool {
        self.steps <= HALLEY_MAX_ITERATIONS
    }

    pub fn new(precision: u32) -> (r: HalleyMonitor)
        ensures
            r.wf(),
            r.steps_taken() == 0,
            r.target_precision() == precision,
    {
        HalleyMonitor { steps: 0, precision }
    }

    /// Whether the budget still allows a step.
    pub fn may_step(&self) -> (r: bool)
        ensures
            r == (self.steps_taken() < HALLEY_MAX_ITERATIONS),
    {
        self.steps < HALLEY_MAX_ITERATIONS
    }

    /// Takes the magnitudes of `w_next - w` and of `w_next` after one step.
    pub fn observe(&mut self, mag_step: Magnitude, mag_next: Magnitude) -> (r: HalleyVerdict)
        requires
            old(self).wf(),
            old(self).steps_taken() < HALLEY_MAX_ITERATIONS,
        ensures
            final(self).wf(),
            final(self).steps_taken() == old(self).steps_taken() + 1,
            final(self).target_precision() == old(self).target_precision(),
            r == if halley_converged_spec(mag_step, mag_next, old(self).target_precision()) {
                HalleyVerdict::Converged
            } else if final(self).steps_taken() == HALLEY_MAX_ITERATIONS {
                HalleyVerdict::Failed
            } else {
                HalleyVerdict::Continue
            },
    {
        self.steps = self.steps + 1;
        let shift: i64 = self.precision as i64 - TOLERANCE_SLACK as i64;
        if magnitude_at_most(mag_step, mag_next, shift) {
            HalleyVerdict::Converged
        } else if self.steps == HALLEY_MAX_ITERATIONS {
            HalleyVerdict::Failed
        } else {
            HalleyVerdict::Continue
        }
    }
}

} // verus!
