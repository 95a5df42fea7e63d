//! Fixed-point real numbers.
//!
//! A [`Scalar`] counts billionths: the number it stands for is `raw / SCALE`.
//! Every operation is total. A result that does not fit is clamped to the
//! symmetric range `-LIMIT ..= LIMIT`, a quotient is rounded toward zero, and a
//! square root is rounded down, so each operation is an exact function of its
//! arguments that a contract can name.
use vstd::arithmetic::div_mod::{
    lemma_div_is_ordered, lemma_div_pos_is_pos, lemma_multiply_divide_lt,
};
use vstd::prelude::*;

verus! {

/// Raw units in one.
pub const SCALE: i64 = 1_000_000_000;

/// Largest magnitude that a result takes.
pub const LIMIT: i64 = 9_223_372_036_854_775_807;

/// `x` clamped to `-LIMIT ..= LIMIT`.
pub open spec fn saturate(x: int) -> int {
    if x > LIMIT {
        LIMIT as int
    } else if x < -LIMIT {
        -LIMIT
    } else {
        x
    }
}

/// The distance of `x` from zero.
pub open spec fn magnitude(x: int) -> int {
    if x < 0 {
        -x
    } else {
        x
    }
}

/// The quotient of `n` by `d` rounded toward zero, for `d != 0`.
#[verifier::opaque]
pub open spec fn truncated_quotient(n: int, d: int) -> int {
    if (n < 0) == (d < 0) {
        magnitude(n) / magnitude(d)
    } else {
        -(magnitude(n) / magnitude(d))
    }
}

/// Whether `r` is the square root of `n` rounded down.
pub open spec fn is_floor_sqrt(n: int, r: int) -> bool {
    0 <= r && r * r <= n && n < (r + 1) * (r + 1)
}

/// The square root of `n` rounded down, for `n >= 0`.
pub open spec fn floor_sqrt(n: int) -> int {
    choose|r: int| is_floor_sqrt(n, r)
}

/// At most one number is the rounded-down square root of `n`.
pub proof fn lemma_floor_sqrt_unique(n: int, r: int)
    requires
        is_floor_sqrt(n, r),
    ensures
        floor_sqrt(n) == r,
{
    let s = floor_sqrt(n);
    assert(is_floor_sqrt(n, s));
    assert(s == r) by (nonlinear_arith)
        requires
            is_floor_sqrt(n, s),
            is_floor_sqrt(n, r),
    {
        if s < r {
            assert((s + 1) * (s + 1) <= r * r);
        } else if r < s {
            assert((r + 1) * (r + 1) <= s * s);
        }
    }
}

/// Every number from zero on has a rounded-down square root.
pub proof fn lemma_floor_sqrt_exists(n: int)
    requires
        n >= 0,
    ensures
        is_floor_sqrt(n, floor_sqrt(n)),
    decreases n,
{
    if n == 0 {
        assert(is_floor_sqrt(0, 0));
    } else {
        lemma_floor_sqrt_exists(n - 1);
        let r = floor_sqrt(n - 1);
        if (r + 1) * (r + 1) <= n {
            assert(is_floor_sqrt(n, r + 1)) by (nonlinear_arith)
                requires
                    is_floor_sqrt(n - 1, r),
                    (r + 1) * (r + 1) <= n,
            ;
        } else {
            assert(is_floor_sqrt(n, r));
        }
    }
}

/// The square root rounded down, by bisection.
pub fn isqrt(n: u128) -> (r: u64)
    ensures
        r == floor_sqrt(n as int),
        is_floor_sqrt(n as int, r as int),
{
    let mut lo: u128 = 0;
    let mut hi: u128 = 0x1_0000_0000_0000_0000;
    assert(n < hi * hi) by (nonlinear_arith)
        requires
            hi == 0x1_0000_0000_0000_0000u128,
            n <= u128::MAX,
    ;
    while hi - lo > 1
        invariant
            lo < hi <= 0x1_0000_0000_0000_0000,
            lo * lo <= n,
            n < hi * hi,
        decreases hi - lo,
    {
        let mid: u128 = lo + (hi - lo) / 2;
        assert(mid * mid <= u128::MAX) by (nonlinear_arith)
            requires
                mid < 0x1_0000_0000_0000_0000u128,
        ;
        if mid * mid <= n {
            lo = mid;
        } else {
            hi = mid;
        }
    }
    proof {
        lemma_floor_sqrt_unique(n as int, lo as int);
    }
    lo as u64
}

/// The distance of `x` from zero.
pub fn magnitude_of(x: i64) -> (r: u128)
    ensures
        r == magnitude(x as int),
{
    if x < 0 {
        (-(x as i128)) as u128
    } else {
        x as u128
    }
}

/// A fixed-point number: `raw` billionths.
#[derive(Clone, Copy, Debug, PartialEq, Eq, Structural)]
pub struct Scalar {
    pub raw: i64,
}

impl Scalar {
    /// The scalar of `x` raw units, clamped.
    pub open spec fn of(x: int) -> Scalar {
        Scalar { raw: saturate(x) as i64 }
    }

    /// Zero.
    pub open spec fn spec_zero() -> Scalar {
        Scalar { raw: 0 }
    }

    /// One.
    pub open spec fn spec_one() -> Scalar {
        Scalar { raw: SCALE }
    }

    /// The whole number `n`.
    pub open spec fn spec_from_int(n: int) -> Scalar {
        Scalar::of(n * SCALE)
    }

    /// The fraction `num / den`; a zero denominator gives the limit that the
    /// numerator's sign points to.
    pub open spec fn spec_from_ratio(num: int, den: int) -> Scalar {
        if den == 0 {
            if num > 0 {
                Scalar { raw: LIMIT }
            } else if num < 0 {
                Scalar { raw: (-LIMIT) as i64 }
            } else {
                Scalar { raw: 0 }
            }
        } else {
            Scalar::of(truncated_quotient(num * SCALE, den))
        }
    }

    /// The number with its sign turned.
    pub open spec fn spec_neg(self) -> Scalar {
        Scalar::of(-self.raw)
    }

    /// The number without its sign.
    pub open spec fn spec_abs(self) -> Scalar {
        if self.raw < 0 {
            self.spec_neg()
        } else {
            self
        }
    }

    /// The sum, clamped.
    pub open spec fn spec_add(self, rhs: Scalar) -> Scalar {
        Scalar::of(self.raw + rhs.raw)
    }

    /// The difference, clamped.
    pub open spec fn spec_sub(self, rhs: Scalar) -> Scalar {
        Scalar::of(self.raw - rhs.raw)
    }

    /// The product, rounded toward zero and clamped.
    pub open spec fn spec_mul(self, rhs: Scalar) -> Scalar {
        Scalar::of(truncated_quotient(self.raw * rhs.raw, SCALE as int))
    }

    /// The quotient; division by zero gives the limit that the dividend's sign
    /// points to.
    pub open spec fn spec_div(self, rhs: Scalar) -> Scalar {
        Scalar::spec_from_ratio(self.raw as int, rhs.raw as int)
    }

    /// The square root rounded down; zero for a negative number.
    pub open spec fn spec_sqrt(self) -> Scalar {
        if self.raw <= 0 {
            Scalar::spec_zero()
        } else {
            Scalar { raw: floor_sqrt(self.raw * SCALE) as i64 }
        }
    }

    /// The product of `n` factors `self`, multiplied one by one.
    pub open spec fn spec_powi(self, n: u32) -> Scalar
        decreases n,
    {
        if n == 0 {
            Scalar::spec_one()
        } else {
            self.spec_powi((n - 1) as u32).spec_mul(self)
        }
    }

    /// The smaller of the two.
    pub open spec fn spec_min(self, rhs: Scalar) -> Scalar {
        if self.raw <= rhs.raw {
            self
        } else {
            rhs
        }
    }

    /// The larger of the two.
    pub open spec fn spec_max(self, rhs: Scalar) -> Scalar {
        if self.raw >= rhs.raw {
            self
        } else {
            rhs
        }
    }

    /// Whether `self` is below `rhs`.
    pub open spec fn spec_lt(self, rhs: Scalar) -> bool {
        self.raw < rhs.raw
    }

    /// Whether `self` is at most `rhs`.
    pub open spec fn spec_le(self, rhs: Scalar) -> bool {
        self.raw <= rhs.raw
    }

    /// Whether the magnitude is at most `LIMIT`, as that of every result is.
    pub open spec fn bounded(self) -> bool {
        -LIMIT <= self.raw
    }

    /// The scalar of `x` raw units, clamped.
    fn saturating(x: i128) -> (r: Scalar)
        ensures
            r == Scalar::of(x as int),
    {
        if x > LIMIT as i128 {
            Scalar { raw: LIMIT }
        } else if x < -(LIMIT as i128) {
            Scalar { raw: -LIMIT }
        } else {
            Scalar { raw: x as i64 }
        }
    }

    /// Zero.
    #[verifier::when_used_as_spec(spec_zero)]
    pub fn zero() -> (r: Scalar)
        ensures
            r == Scalar::spec_zero(),
    {
        Scalar { raw: 0 }
    }

    /// One.
    #[verifier::when_used_as_spec(spec_one)]
    pub fn one() -> (r: Scalar)
        ensures
            r == Scalar::spec_one(),
    {
        Scalar { raw: SCALE }
    }

    /// The whole number `n`.
    pub fn from_int(n: i64) -> (r: Scalar)
        ensures
            r == Scalar::spec_from_int(n as int),
    {
        Scalar::saturating((n as i128) * 1_000_000_000)
    }

    /// The whole number `n`, as a count of things has it.
    pub fn from_usize(n: usize) -> (r: Scalar)
        ensures
            r == Scalar::spec_from_int(n as int),
    {
        let raw: u128 = (n as u128) * 1_000_000_000;
        if raw > LIMIT as u128 {
            Scalar { raw: LIMIT }
        } else {
            Scalar { raw: raw as i64 }
        }
    }

    /// The fraction `num / den`, rounded toward zero; a zero denominator gives
    /// the limit that the numerator's sign points to.
    pub fn from_ratio(num: i64, den: i64) -> (r: Scalar)
        ensures
            r == Scalar::spec_from_ratio(num as int, den as int),
    {
        if den == 0 {
            if num > 0 {
                Scalar { raw: LIMIT }
            } else if num < 0 {
                Scalar { raw: -LIMIT }
            } else {
                Scalar { raw: 0 }
            }
        } else {
            proof {
                reveal(truncated_quotient);
            }
            let n: u128 = magnitude_of(num) * 1_000_000_000;
            let q: u128 = n / magnitude_of(den);
            if (num < 0) == (den < 0) {
                Scalar::saturating(q as i128)
            } else {
                Scalar::saturating(-(q as i128))
            }
        }
    }

    /// The number with its sign turned.
    #[verifier::when_used_as_spec(spec_neg)]
    pub fn neg(self) -> (r: Scalar)
        ensures
            r == self.spec_neg(),
    {
        Scalar::saturating(-(self.raw as i128))
    }

    /// The number without its sign.
    #[verifier::when_used_as_spec(spec_abs)]
    pub fn abs(self) -> (r: Scalar)
        ensures
            r == self.spec_abs(),
    {
        if self.raw < 0 {
            self.neg()
        } else {
            self
        }
    }

    /// The sum, clamped.
    #[verifier::when_used_as_spec(spec_add)]
    pub fn add(self, rhs: Scalar) -> (r: Scalar)
        ensures
            r == self.spec_add(rhs),
    {
        Scalar::saturating(self.raw as i128 + rhs.raw as i128)
    }

    /// The difference, clamped.
    #[verifier::when_used_as_spec(spec_sub)]
    pub fn sub(self, rhs: Scalar) -> (r: Scalar)
        ensures
            r == self.spec_sub(rhs),
    {
        Scalar::saturating(self.raw as i128 - rhs.raw as i128)
    }

    /// The product, rounded toward zero and clamped.
    #[verifier::when_used_as_spec(spec_mul)]
    pub fn mul(self, rhs: Scalar) -> (r: Scalar)
        ensures
            r == self.spec_mul(rhs),
    {
        proof {
            reveal(truncated_quotient);
        }
        let a: i128 = self.raw as i128;
        let b: i128 = rhs.raw as i128;
        assert(-0x4000_0000_0000_0000_0000_0000_0000_0000 <= a * b
            <= 0x4000_0000_0000_0000_0000_0000_0000_0000) by (nonlinear_arith)
            requires
                -0x8000_0000_0000_0000 <= a <= 0x8000_0000_0000_0000,
                -0x8000_0000_0000_0000 <= b <= 0x8000_0000_0000_0000,
        ;
        Scalar::saturating(a * b / (SCALE as i128))
    }

    /// The quotient, rounded toward zero and clamped; division by zero gives
    /// the limit that the dividend's sign points to.
    #[verifier::when_used_as_spec(spec_div)]
    pub fn div(self, rhs: Scalar) -> (r: Scalar)
        ensures
            r == self.spec_div(rhs),
    {
        Scalar::from_ratio(self.raw, rhs.raw)
    }

    /// The square root rounded down; zero for a negative number.
    #[verifier::when_used_as_spec(spec_sqrt)]
    pub fn sqrt(self) -> (r: Scalar)
        ensures
            r == self.spec_sqrt(),
    {
        if self.raw <= 0 {
            Scalar::zero()
        } else {
            let n: u128 = (self.raw as u128) * (SCALE as u128);
            let root: u64 = isqrt(n);
            assert(root < 0x8000_0000_0000_0000) by (nonlinear_arith)
                requires
                    root * root <= n,
                    n < 0x8000_0000_0000_0000 * 1_000_000_000,
            ;
            Scalar { raw: root as i64 }
        }
    }

    /// The product of `n` factors `self`, multiplied one by one.
    #[verifier::when_used_as_spec(spec_powi)]
    pub fn powi(self, n: u32) -> (r: Scalar)
        ensures
            r == self.spec_powi(n),
    {
        let mut acc = Scalar::one();
        let mut i: u32 = 0;
        while i < n
            invariant
                i <= n,
                acc == self.spec_powi(i),
            decreases n - i,
        {
            i += 1;
            acc = acc.mul(self);
        }
        acc
    }

    /// The smaller of the two.
    #[verifier::when_used_as_spec(spec_min)]
    pub fn min(self, rhs: Scalar) -> (r: Scalar)
        ensures
            r == self.spec_min(rhs),
    {
        if self.raw <= rhs.raw {
            self
        } else {
            rhs
        }
    }

    /// The larger of the two.
    #[verifier::when_used_as_spec(spec_max)]
    pub fn max(self, rhs: Scalar) -> (r: Scalar)
        ensures
            r == self.spec_max(rhs),
    {
        if self.raw >= rhs.raw {
            self
        } else {
            rhs
        }
    }

    /// Whether `self` is below `rhs`.
    #[verifier::when_used_as_spec(spec_lt)]
    pub fn lt(self, rhs: Scalar) -> (r: bool)
        ensures
            r == self.spec_lt(rhs),
    {
        self.raw < rhs.raw
    }

    /// Whether `self` is at most `rhs`.
    #[verifier::when_used_as_spec(spec_le)]
    pub fn le(self, rhs: Scalar) -> (r: bool)
        ensures
            r == self.spec_le(rhs),
    {
        self.raw <= rhs.raw
    }
}

/// A number divided by one that is at least as large in magnitude, or by
/// the largest there is, is at most one in magnitude.
pub proof fn lemma_div_at_most_one(x: Scalar, d: Scalar)
    requires
        d.raw > 0,
        magnitude(x.raw as int) <= d.raw || d.raw == LIMIT,
    ensures
        -SCALE <= x.div(d).raw <= SCALE,
{
    reveal(truncated_quotient);
    let m = magnitude(x.raw as int);
    let dr = d.raw as int;
    assert(m * SCALE < dr * (SCALE + 1)) by (nonlinear_arith)
        requires
            0 <= m,
            dr > 0,
            m <= dr || (dr == LIMIT && m <= LIMIT + 1),
            SCALE == 1_000_000_000,
            LIMIT == 9_223_372_036_854_775_807,
    ;
    assert(m * SCALE >= 0) by (nonlinear_arith)
        requires
            0 <= m,
            SCALE == 1_000_000_000,
    ;
    lemma_multiply_divide_lt(m * SCALE, dr, SCALE + 1);
    lemma_div_pos_is_pos(m * SCALE, dr);
    assert(magnitude(x.raw * SCALE) == m * SCALE) by (nonlinear_arith)
        requires
            m == magnitude(x.raw as int),
            SCALE == 1_000_000_000,
    ;
}

/// Truncated quotients by a positive number keep the order of the dividends.
pub proof fn lemma_truncated_quotient_monotone(x: int, y: int, d: int)
    requires
        x <= y,
        d > 0,
    ensures
        truncated_quotient(x, d) <= truncated_quotient(y, d),
{
    reveal(truncated_quotient);
    if x >= 0 {
        lemma_div_is_ordered(x, y, d);
    } else if y < 0 {
        lemma_div_is_ordered(-y, -x, d);
    } else {
        lemma_div_pos_is_pos(-x, d);
        lemma_div_pos_is_pos(y, d);
    }
}

} // verus!
