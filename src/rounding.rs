use vstd::prelude::*;

verus! {

/// How an exact result is rounded to the working precision.
#[derive(PartialEq, Eq, Structural, Clone, Copy, Debug)]
pub enum RoundingMode {
    /// Toward +inf.
    Up,
    /// Toward -inf.
    Down,
    /// To the nearest representable value, ties to even.
    Nearest,
    /// Toward 0.
    TowardZero,
}

pub open spec fn rounding_mode_spec(mode: i32) -> Option<RoundingMode> {
    if mode == 0 {
        Some(RoundingMode::Up)
    } else if mode == 1 {
        Some(RoundingMode::Down)
    } else if mode == 2 {
        Some(RoundingMode::Nearest)
    } else if mode == 3 {
        Some(RoundingMode::TowardZero)
    } else {
        None
    }
}

/// The rounding mode with code `mode`: 0 up, 1 down, 2 nearest, 3 toward zero;
/// `None` for any other code.
pub fn xlat_rounding(mode: i32) -> (r: Option<RoundingMode>)
    ensures
        r == rounding_mode_spec(mode),
{
    match mode {
        0 => Some(RoundingMode::Up),
        1 => Some(RoundingMode::Down),
        2 => Some(RoundingMode::Nearest),
        3 => Some(RoundingMode::TowardZero),
        _ => None,
    }
}

} // verus!
