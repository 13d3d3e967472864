//! Fixed-point units and the small integer helpers the strategy is written with.
use vstd::prelude::*;

verus! {

/// The fixed-point unit: a price of 1.0, or a size of one contract.
pub const ONE: i64 = 1_000_000;

/// Probability midpoint 0.5.
pub const HALF: i64 = 500_000;

/// Lowest mid the maker will move to (0.01).
pub const MID_FLOOR: i64 = 10_000;

/// Highest mid the maker will move to (0.99).
pub const MID_CEIL: i64 = 990_000;

/// Largest size (in absolute value) that one order or fill may carry: a million contracts.
pub const MAX_FILL_SIZE: i64 = 1_000_000_000_000;

/// Largest money amount that one fill can move a ledger by: `MAX_FILL_SIZE * ONE`.
pub const MAX_FILL_MONEY: i128 = 1_000_000_000_000_000_000;

/// Bound on the magnitude of the money accumulators of a market.
pub const MONEY_CAP: i128 = 0x2000_0000_0000_0000_0000_0000_0000_0000;

/// `x` raised to at least `lo`, then lowered to at most `hi`.
pub open spec fn clamp_spec(x: int, lo: int, hi: int) -> int {
    let y = if x < lo { lo } else { x };
    if y > hi { hi } else { y }
}

pub open spec fn abs_spec(x: int) -> int {
    if x < 0 { -x } else { x }
}

/// Division rounding toward zero, for a positive divisor.
pub open spec fn div_trunc(a: int, b: int) -> int {
    if a >= 0 { a / b } else { -((-a) / b) }
}

pub fn clamp_wide(x: i128, lo: i128, hi: i128) -> (r: i128)
    ensures
        r == clamp_spec(x as int, lo as int, hi as int),
{
    let y = if x < lo { lo } else { x };
    if y > hi { hi } else { y }
}

/// Quotient of `a` by a positive `b`, rounded toward zero.
pub fn div_toward_zero(a: i128, b: i128) -> (r: i128)
    requires
        b > 0,
        a > i128::MIN,
    ensures
        r == div_trunc(a as int, b as int),
{
    if a >= 0 {
        a / b
    } else {
        let q = (-a) / b;
        -q
    }
}

} // verus!
