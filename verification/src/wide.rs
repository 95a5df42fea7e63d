//! Whole numbers of up to 256 bits, for intermediate values that must not be
//! rounded or clamped.
use crate::scalar::{floor_sqrt, is_floor_sqrt, lemma_floor_sqrt_unique};
use vstd::arithmetic::div_mod::lemma_fundamental_div_mod_converse;
use vstd::prelude::*;

verus! {

/// Two to the power 64: the weight of the upper half of a `u128`.
pub const HALF: u128 = 0x1_0000_0000_0000_0000;

/// A whole number from zero up to, not including, two to the power 256:
/// `hi` times two to the power 128, plus `lo`.
#[derive(Clone, Copy, Debug, PartialEq, Eq, Structural)]
pub struct U256 {
    pub hi: u128,
    pub lo: u128,
}

impl View for U256 {
    type V = int;

    open spec fn view(&self) -> int {
        self.hi * 0x1_0000_0000_0000_0000_0000_0000_0000_0000 + self.lo
    }
}

impl U256 {
    /// The number `x`.
    pub fn from_u128(x: u128) -> (r: U256)
        ensures
            r@ == x,
    {
        U256 { hi: 0, lo: x }
    }

    /// The product of `a` and `b`, in full.
    pub fn product(a: u128, b: u128) -> (r: U256)
        ensures
            r@ == a * b,
    {
        let a1: u128 = a / HALF;
        let a0: u128 = a % HALF;
        let b1: u128 = b / HALF;
        let b0: u128 = b % HALF;
        assert(a0 * b0 <= 0xffff_ffff_ffff_fffe_0000_0000_0000_0001 && a0 * b1
            <= 0xffff_ffff_ffff_fffe_0000_0000_0000_0001 && a1 * b0
            <= 0xffff_ffff_ffff_fffe_0000_0000_0000_0001 && a1 * b1
            <= 0xffff_ffff_ffff_fffe_0000_0000_0000_0001) by (nonlinear_arith)
            requires
                a0 <= 0xffff_ffff_ffff_ffff,
                a1 <= 0xffff_ffff_ffff_ffff,
                b0 <= 0xffff_ffff_ffff_ffff,
                b1 <= 0xffff_ffff_ffff_ffff,
        ;
        let p00: u128 = a0 * b0;
        let p01: u128 = a0 * b1;
        let p10: u128 = a1 * b0;
        let p11: u128 = a1 * b1;
        assert(a * b == p11 * 0x1_0000_0000_0000_0000_0000_0000_0000_0000 + (p01 + p10)
            * 0x1_0000_0000_0000_0000 + p00) by (nonlinear_arith)
            requires
                a == a1 * 0x1_0000_0000_0000_0000 + a0,
                b == b1 * 0x1_0000_0000_0000_0000 + b0,
                p00 == a0 * b0,
                p01 == a0 * b1,
                p10 == a1 * b0,
                p11 == a1 * b1,
        ;
        let cross: u128 = p00 / HALF + p01 % HALF + p10 % HALF;
        let lo: u128 = (cross % HALF) * HALF + p00 % HALF;
        let hi: u128 = p11 + p01 / HALF + p10 / HALF + cross / HALF;
        U256 { hi, lo }
    }

    /// The product with `k`, which must stay below two to the power 256.
    pub fn times(self, k: u128) -> (r: U256)
        requires
            self@ * k < 0x1_0000_0000_0000_0000_0000_0000_0000_0000
                * 0x1_0000_0000_0000_0000_0000_0000_0000_0000,
        ensures
            r@ == self@ * k,
    {
        let low = U256::product(self.lo, k);
        assert(self@ * k == self.hi * k * 0x1_0000_0000_0000_0000_0000_0000_0000_0000 + self.lo
            * k && self.hi * k >= 0 && self.lo * k >= 0) by (nonlinear_arith)
            requires
                self@ == self.hi * 0x1_0000_0000_0000_0000_0000_0000_0000_0000 + self.lo,
        ;
        U256 { hi: low.hi + self.hi * k, lo: low.lo }
    }

    /// Whether `self` is at most `rhs`.
    pub fn le(self, rhs: U256) -> (r: bool)
        ensures
            r == (self@ <= rhs@),
    {
        self.hi < rhs.hi || (self.hi == rhs.hi && self.lo <= rhs.lo)
    }

    /// The sum, which must stay below two to the power 256.
    pub fn plus(self, rhs: U256) -> (r: U256)
        requires
            self@ + rhs@ < 0x1_0000_0000_0000_0000_0000_0000_0000_0000
                * 0x1_0000_0000_0000_0000_0000_0000_0000_0000,
        ensures
            r@ == self@ + rhs@,
    {
        let room: u128 = u128::MAX - self.lo;
        if rhs.lo > room {
            U256 { hi: self.hi + rhs.hi + 1, lo: rhs.lo - room - 1 }
        } else {
            U256 { hi: self.hi + rhs.hi, lo: self.lo + rhs.lo }
        }
    }

    /// The difference, where `rhs` is at most `self`.
    pub fn minus(self, rhs: U256) -> (r: U256)
        requires
            rhs@ <= self@,
        ensures
            r@ == self@ - rhs@,
    {
        if self.lo >= rhs.lo {
            U256 { hi: self.hi - rhs.hi, lo: self.lo - rhs.lo }
        } else {
            U256 { hi: self.hi - rhs.hi - 1, lo: u128::MAX - (rhs.lo - self.lo) + 1 }
        }
    }

    /// The square root rounded down, by bisection.
    pub fn isqrt(self) -> (r: u128)
        ensures
            is_floor_sqrt(self@, r as int),
            r == floor_sqrt(self@),
    {
        let mut lo: u128 = 0;
        let mut hi: u128 = u128::MAX;
        assert(self@ < (hi + 1) * (hi + 1)) by (nonlinear_arith)
            requires
                hi == 0xffff_ffff_ffff_ffff_ffff_ffff_ffff_ffffu128,
                self@ < 0x1_0000_0000_0000_0000_0000_0000_0000_0000
                    * 0x1_0000_0000_0000_0000_0000_0000_0000_0000,
        ;
        while lo < hi
            invariant
                lo <= hi,
                lo * lo <= self@,
                self@ < (hi + 1) * (hi + 1),
            decreases hi - lo,
        {
            let mid: u128 = hi - (hi - lo) / 2;
            if U256::product(mid, mid).le(self) {
                lo = mid;
            } else {
                hi = mid - 1;
            }
        }
        proof {
            lemma_floor_sqrt_unique(self@, lo as int);
        }
        lo
    }

    /// The quotient by `d` rounded down, or `cap` where the quotient is
    /// above it.
    pub fn quotient(self, d: u128, cap: u128) -> (r: u128)
        requires
            d > 0,
        ensures
            r == if self@ / (d as int) > cap {
                cap as int
            } else {
                self@ / (d as int)
            },
    {
        if U256::product(d, cap).le(self) {
            proof {
                lemma_quotient_at_least(self@, d as int, cap as int);
            }
            return cap;
        }
        let mut lo: u128 = 0;
        let mut hi: u128 = cap;
        while hi - lo > 1
            invariant
                lo < hi <= cap,
                d > 0,
                lo * d <= self@,
                self@ < hi * d,
            decreases hi - lo,
        {
            let mid: u128 = lo + (hi - lo) / 2;
            if U256::product(mid, d).le(self) {
                lo = mid;
            } else {
                hi = mid;
            }
        }
        proof {
            assert(self@ - lo * d < d) by (nonlinear_arith)
                requires
                    self@ < hi * d,
                    hi == lo + 1,
            ;
            assert(self@ == lo * d + (self@ - lo * d));
            lemma_fundamental_div_mod_converse(self@, d as int, lo as int, self@ - lo * d);
        }
        lo
    }
}

/// A number that is at least `cap` times `d` has a quotient by `d` of at
/// least `cap`.
pub proof fn lemma_quotient_at_least(x: int, d: int, cap: int)
    requires
        d > 0,
        d * cap <= x,
    ensures
        x / d >= cap,
{
    vstd::arithmetic::div_mod::lemma_div_is_ordered(d * cap, x, d);
    vstd::arithmetic::div_mod::lemma_div_multiples_vanish(cap, d);
}

} // verus!
