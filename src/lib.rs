//! Algorithmic core of an arbitrary-precision numerics library: the
//! bookkeeping and scheduling of Pollard-rho factorization, the plans and
//! interval maps of Gauss-Legendre and tanh-sinh quadrature with their error
//! estimate, and the branch and convergence decisions of the Lambert W
//! function. The multiprecision arithmetic itself is done by the caller.

pub mod factor;
pub mod lambert;
pub mod natural;
pub mod quadrature;
pub mod rounding;

pub use factor::{BrentSchedule, FactorJob, FactorMap, GCD_BATCH, WalkStep};
pub use lambert::{
    GUARD_BITS, HALLEY_MAX_ITERATIONS, HalleyMonitor, HalleyVerdict, InitialMethod,
    LambertWError, Magnitude, RealClass, SeriesPlan, SpecialValue, TOLERANCE_SLACK,
    initial_method, magnitude, magnitude_at_most, needs_refinement, series_plan, special_value,
    term_negligible,
};
pub use natural::Natural;
pub use quadrature::{
    Digits, Endpoint, ErrorRule, ExactNode, GaussLegendrePlan, IntervalMap, QuadratureError,
    TanhSinhPlan, error_exponent, error_rule, gauss_legendre_plan, interval_map, tanh_sinh_plan,
    three_point_rule,
};
pub use rounding::{RoundingMode, xlat_rounding};
