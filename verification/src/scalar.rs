//! Fixed-point scalars.
//!
//! A [`Scalar`] stores a quantity as a whole number of millionths, so one unit
//! (a metre, a second, a kilogram) is `SCALE` raw steps. Every operation is
//! total: a result that leaves the representable range is pinned to the nearest
//! end of it, and products and quotients are rounded toward zero.

use vstd::prelude::*;

verus! {

/// Raw steps per whole unit.
pub const SCALE: i64 = 1_000_000;

/// The nearest representable raw value to `x`.
pub open spec fn saturate(x: int) -> int {
    if x < i64::MIN {
        i64::MIN as int
    } else if x > i64::MAX {
        i64::MAX as int
    } else {
        x
    }
}

/// The quotient of `a` by a positive `b`, rounded toward zero.
pub open spec fn quot(a: int, b: int) -> int {
    if a >= 0 {
        a / b
    } else {
        -((-a) / b)
    }
}

/// Raw sum.
pub open spec fn fx_add(a: int, b: int) -> int {
    saturate(a + b)
}

/// Raw difference.
pub open spec fn fx_sub(a: int, b: int) -> int {
    saturate(a - b)
}

/// Raw negation.
pub open spec fn fx_neg(a: int) -> int {
    saturate(-a)
}

/// Raw product of two scaled quantities, itself scaled.
pub open spec fn fx_mul(a: int, b: int) -> int {
    saturate(quot(a * b, SCALE as int))
}

/// `a * b / c` for a positive `c`, with a single rounding at the end.
pub open spec fn fx_mul_div(a: int, b: int, c: int) -> int {
    saturate(quot(a * b, c))
}

/// Whether `r` is the integer part of the square root of `n`.
pub open spec fn is_floor_sqrt(n: int, r: int) -> bool {
    0 <= r && r * r <= n && n < (r + 1) * (r + 1)
}

/// The integer part of the square root of a non-negative `n`.
pub open spec fn floor_sqrt(n: int) -> int {
    choose|r: int| is_floor_sqrt(n, r)
}

/// At most one number is the integer square root of `n`.
pub proof fn lemma_floor_sqrt_unique(n: int, r: int, s: int)
    requires
        is_floor_sqrt(n, r),
        is_floor_sqrt(n, s),
    ensures
        r == s,
{
    if r < s {
        assert((r + 1) * (r + 1) <= s * s) by (nonlinear_arith)
            requires
                0 <= r,
                r + 1 <= s,
        ;
    } else if s < r {
        assert((s + 1) * (s + 1) <= r * r) by (nonlinear_arith)
            requires
                0 <= s,
                s + 1 <= r,
        ;
    }
}

/// Every non-negative number has an integer square root.
pub proof fn lemma_floor_sqrt_exists(n: int)
    requires
        0 <= n,
    ensures
        is_floor_sqrt(n, floor_sqrt(n)),
    decreases n,
{
    if n == 0 {
        assert(is_floor_sqrt(0, 0));
    } else {
        lemma_floor_sqrt_exists(n - 1);
        let r = floor_sqrt(n - 1);
        if n < (r + 1) * (r + 1) {
            assert(is_floor_sqrt(n, r));
        } else {
            assert(n == (r + 1) * (r + 1));
            assert(n < (r + 2) * (r + 2)) by (nonlinear_arith)
                requires
                    n == (r + 1) * (r + 1),
                    0 <= r,
            ;
            assert(is_floor_sqrt(n, r + 1));
        }
    }
}

/// Any witness of `is_floor_sqrt` is the value of `floor_sqrt`.
pub proof fn lemma_floor_sqrt_is(n: int, r: int)
    requires
        is_floor_sqrt(n, r),
    ensures
        floor_sqrt(n) == r,
{
    lemma_floor_sqrt_unique(n, r, floor_sqrt(n));
}

/// The integer part of the square root of `n`, found by bisection.
pub fn isqrt(n: u128) -> (r: u128)
    ensures
        is_floor_sqrt(n as int, r as int),
        r == floor_sqrt(n as int),
        r < 0x1_0000_0000_0000_0000,
{
    let mut lo: u128 = 0;
    let mut hi: u128 = 0x1_0000_0000_0000_0000;
    assert(hi * hi > n) by (nonlinear_arith)
        requires
            hi == 0x1_0000_0000_0000_0000,
            n <= u128::MAX,
    ;
    while hi - lo > 1
        invariant
            lo < hi <= 0x1_0000_0000_0000_0000,
            lo * lo <= n,
            n < hi * hi,
        decreases hi - lo,
    {
        let mid: u128 = lo + (hi - lo) / 2;
        assert(mid * mid <= u128::MAX) by (nonlinear_arith)
            requires
                0 <= mid < 0x1_0000_0000_0000_0000,
        ;
        if mid * mid <= n {
            lo = mid;
        } else {
            hi = mid;
        }
    }
    proof {
        lemma_floor_sqrt_is(n as int, lo as int);
    }
    lo
}

/// Pins a wide intermediate result to the representable range.
pub(crate) fn clamp(x: i128) -> (r: i64)
    ensures
        r == saturate(x as int),
{
    if x < i64::MIN as i128 {
        i64::MIN
    } else if x > i64::MAX as i128 {
        i64::MAX
    } else {
        x as i64
    }
}

/// `a * b / c` rounded toward zero and pinned to the representable range.
pub(crate) fn mul_div(a: i64, b: i64, c: i128) -> (r: i64)
    requires
        0 < c,
    ensures
        r == fx_mul_div(a as int, b as int, c as int),
{
    assert(-0x4000_0000_0000_0000_0000_0000_0000_0000 <= a * b
        <= 0x4000_0000_0000_0000_0000_0000_0000_0000) by (nonlinear_arith)
        requires
            -0x8000_0000_0000_0000 <= a <= 0x7fff_ffff_ffff_ffff,
            -0x8000_0000_0000_0000 <= b <= 0x7fff_ffff_ffff_ffff,
    ;
    let p: i128 = (a as i128) * (b as i128);
    clamp(p / c)
}

/// A fixed-point number: `raw` millionths of a unit.
#[derive(Clone, Copy, Debug, PartialEq, Eq, Structural)]
pub struct Scalar {
    pub raw: i64,
}

impl View for Scalar {
    type V = int;

    /// The value in raw steps.
    open spec fn view(&self) -> int {
        self.raw as int
    }
}

impl Scalar {
    /// The scalar of `raw` millionths.
    pub fn from_micros(raw: i64) -> (r: Scalar)
        ensures
            r@ == raw,
    {
        Scalar { raw }
    }

    /// The scalar of `units` whole units.
    pub fn from_int(units: i64) -> (r: Scalar)
        ensures
            r@ == saturate(units * SCALE),
    {
        assert(-0x4000_0000_0000_0000_0000_0000_0000_0000 <= units * SCALE
            <= 0x4000_0000_0000_0000_0000_0000_0000_0000) by (nonlinear_arith)
            requires
                -0x8000_0000_0000_0000 <= units <= 0x7fff_ffff_ffff_ffff,
                SCALE == 1_000_000,
        ;
        Scalar { raw: clamp((units as i128) * (SCALE as i128)) }
    }

    /// Zero.
    pub fn zero() -> (r: Scalar)
        ensures
            r@ == 0,
    {
        Scalar { raw: 0 }
    }

    /// One whole unit.
    pub fn one() -> (r: Scalar)
        ensures
            r@ == SCALE,
    {
        Scalar { raw: SCALE }
    }

    /// The value in millionths.
    pub fn micros(&self) -> (r: i64)
        ensures
            r == self@,
    {
        self.raw
    }

    /// Sum, pinned to the representable range.
    pub fn add(&self, other: &Scalar) -> (r: Scalar)
        ensures
            r@ == fx_add(self@, other@),
    {
        Scalar { raw: clamp(self.raw as i128 + other.raw as i128) }
    }

    /// Difference, pinned to the representable range.
    pub fn sub(&self, other: &Scalar) -> (r: Scalar)
        ensures
            r@ == fx_sub(self@, other@),
    {
        Scalar { raw: clamp(self.raw as i128 - other.raw as i128) }
    }

    /// Negation, pinned to the representable range.
    pub fn neg(&self) -> (r: Scalar)
        ensures
            r@ == fx_neg(self@),
    {
        Scalar { raw: clamp(-(self.raw as i128)) }
    }

    /// Product, rounded toward zero and pinned to the representable range.
    pub fn mul(&self, other: &Scalar) -> (r: Scalar)
        ensures
            r@ == fx_mul(self@, other@),
    {
        Scalar { raw: mul_div(self.raw, other.raw, SCALE as i128) }
    }

    /// Whether the value is strictly above zero.
    pub fn is_positive(&self) -> (r: bool)
        ensures
            r == (self@ > 0),
    {
        self.raw > 0
    }

    /// Whether the value is strictly below zero.
    pub fn is_negative(&self) -> (r: bool)
        ensures
            r == (self@ < 0),
    {
        self.raw < 0
    }
}

} // verus!
