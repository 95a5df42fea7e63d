//! Three-component vectors and points over [`Scalar`].
use crate::scalar::{
    floor_sqrt, isqrt, lemma_div_at_most_one, lemma_floor_sqrt_exists, magnitude,
    truncated_quotient, Scalar, LIMIT, SCALE,
};
use vstd::arithmetic::div_mod::lemma_div_pos_is_pos;
use vstd::prelude::*;

verus! {

/// A direction or displacement in space.
#[derive(Clone, Copy, Debug, PartialEq, Eq, Structural)]
pub struct Vector3 {
    pub x: Scalar,
    pub y: Scalar,
    pub z: Scalar,
}

/// A position in space.
pub type Point3 = Vector3;

/// The square of `x`.
pub fn square_of(x: i64) -> (r: u128)
    ensures
        r == x * x,
        r <= 0x4000_0000_0000_0000_0000_0000_0000_0000,
{
    let m: u128 = if x < 0 {
        (-(x as i128)) as u128
    } else {
        x as u128
    };
    assert(m * m <= 0x4000_0000_0000_0000_0000_0000_0000_0000 && m * m == x * x)
        by (nonlinear_arith)
        requires
            m <= 0x8000_0000_0000_0000,
            m == magnitude(x as int),
    ;
    m * m
}

/// The magnitude of the product of `x` and `y`.
fn product_magnitude(x: i64, y: i64) -> (r: u128)
    ensures
        r == magnitude(x * y),
        r <= 0x4000_0000_0000_0000_0000_0000_0000_0000,
{
    let a: u128 = if x < 0 {
        (-(x as i128)) as u128
    } else {
        x as u128
    };
    let b: u128 = if y < 0 {
        (-(y as i128)) as u128
    } else {
        y as u128
    };
    assert(a * b <= 0x4000_0000_0000_0000_0000_0000_0000_0000 && a * b == magnitude(x * y))
        by (nonlinear_arith)
        requires
            a <= 0x8000_0000_0000_0000,
            b <= 0x8000_0000_0000_0000,
            a == magnitude(x as int),
            b == magnitude(y as int),
    ;
    a * b
}

/// Adds the product of `x` and `y` to `pos` if it is positive, and its
/// magnitude to `neg` if it is negative.
fn gather(pos: u128, neg: u128, x: i64, y: i64) -> (r: (u128, u128))
    requires
        pos <= 0x8000_0000_0000_0000_0000_0000_0000_0000,
        neg <= 0x8000_0000_0000_0000_0000_0000_0000_0000,
    ensures
        r.0 - r.1 == pos - neg + x * y,
        r.0 <= pos + 0x4000_0000_0000_0000_0000_0000_0000_0000,
        r.1 <= neg + 0x4000_0000_0000_0000_0000_0000_0000_0000,
        r.0 >= pos,
        r.1 >= neg,
{
    let m = product_magnitude(x, y);
    assert((x < 0) != (y < 0) ==> x * y <= 0) by (nonlinear_arith);
    assert((x < 0) == (y < 0) ==> x * y >= 0) by (nonlinear_arith);
    if (x < 0) != (y < 0) {
        (pos, neg + m)
    } else {
        (pos + m, neg)
    }
}

impl Vector3 {
    /// The inner product of the raw components, in full: the inner product
    /// in units of `SCALE` squared, neither rounded nor clamped.
    pub open spec fn dot_exact(self, rhs: Vector3) -> int {
        self.x.raw * rhs.x.raw + self.y.raw * rhs.y.raw + self.z.raw * rhs.z.raw
    }

    /// Whether the two vectors point against each other: whether their inner
    /// product, in full, is negative.
    pub open spec fn spec_opposes(self, rhs: Vector3) -> bool {
        self.dot_exact(rhs) < 0
    }

    /// The positive and the negative part of the inner product in full.
    fn dot_parts(self, rhs: Vector3) -> (r: (u128, u128))
        ensures
            r.0 - r.1 == self.dot_exact(rhs),
            r.0 <= 0xc000_0000_0000_0000_0000_0000_0000_0000,
            r.1 <= 0xc000_0000_0000_0000_0000_0000_0000_0000,
    {
        let (p1, n1) = gather(0, 0, self.x.raw, rhs.x.raw);
        let (p2, n2) = gather(p1, n1, self.y.raw, rhs.y.raw);
        gather(p2, n2, self.z.raw, rhs.z.raw)
    }

    /// The positive and the negative part of the inner product in full: the
    /// product is the first less the second.
    pub fn dot_in_full(self, rhs: Vector3) -> (r: (u128, u128))
        ensures
            r.0 - r.1 == self.dot_exact(rhs),
            r.0 <= 0xc000_0000_0000_0000_0000_0000_0000_0000,
            r.1 <= 0xc000_0000_0000_0000_0000_0000_0000_0000,
    {
        self.dot_parts(rhs)
    }

    /// The inner product of the vector with itself, in full.
    pub fn norm_squared_in_full(self) -> (r: u128)
        ensures
            r == self.dot_exact(self),
            r <= 0xc000_0000_0000_0000_0000_0000_0000_0000,
    {
        square_of(self.x.raw) + square_of(self.y.raw) + square_of(self.z.raw)
    }

    /// Whether the two vectors point against each other: whether their inner
    /// product, in full, is negative.
    #[verifier::when_used_as_spec(spec_opposes)]
    pub fn opposes(self, rhs: Vector3) -> (r: bool)
        ensures
            r == self.spec_opposes(rhs),
    {
        let (pos, neg) = self.dot_parts(rhs);
        pos < neg
    }

    /// Whether the two vectors point the same way: whether their inner
    /// product, in full, is positive.
    pub open spec fn spec_agrees(self, rhs: Vector3) -> bool {
        self.dot_exact(rhs) > 0
    }

    /// Whether the two vectors point the same way: whether their inner
    /// product, in full, is positive.
    #[verifier::when_used_as_spec(spec_agrees)]
    pub fn agrees(self, rhs: Vector3) -> (r: bool)
        ensures
            r == self.spec_agrees(rhs),
    {
        let (pos, neg) = self.dot_parts(rhs);
        pos > neg
    }

    /// The vector of the three components.
    pub open spec fn spec_new(x: Scalar, y: Scalar, z: Scalar) -> Vector3 {
        Vector3 { x, y, z }
    }

    /// The vector without length.
    pub open spec fn spec_zeros() -> Vector3 {
        Vector3 { x: Scalar::zero(), y: Scalar::zero(), z: Scalar::zero() }
    }

    /// The sum, component by component.
    pub open spec fn spec_add(self, rhs: Vector3) -> Vector3 {
        Vector3 { x: self.x.add(rhs.x), y: self.y.add(rhs.y), z: self.z.add(rhs.z) }
    }

    /// The difference, component by component.
    pub open spec fn spec_sub(self, rhs: Vector3) -> Vector3 {
        Vector3 { x: self.x.sub(rhs.x), y: self.y.sub(rhs.y), z: self.z.sub(rhs.z) }
    }

    /// The vector turned round.
    pub open spec fn spec_neg(self) -> Vector3 {
        Vector3 { x: self.x.neg(), y: self.y.neg(), z: self.z.neg() }
    }

    /// Each component times `s`.
    pub open spec fn spec_scale(self, s: Scalar) -> Vector3 {
        Vector3 { x: self.x.mul(s), y: self.y.mul(s), z: self.z.mul(s) }
    }

    /// Each component divided by `s`.
    pub open spec fn spec_unscale(self, s: Scalar) -> Vector3 {
        Vector3 { x: self.x.div(s), y: self.y.div(s), z: self.z.div(s) }
    }

    /// The inner product: the sum of the three products in full, rounded
    /// toward zero once and clamped.
    pub open spec fn spec_dot(self, rhs: Vector3) -> Scalar {
        Scalar::of(truncated_quotient(self.dot_exact(rhs), SCALE as int))
    }

    /// The vector product, perpendicular to both.
    pub open spec fn spec_cross(self, rhs: Vector3) -> Vector3 {
        Vector3 {
            x: self.y.mul(rhs.z).sub(self.z.mul(rhs.y)),
            y: self.z.mul(rhs.x).sub(self.x.mul(rhs.z)),
            z: self.x.mul(rhs.y).sub(self.y.mul(rhs.x)),
        }
    }

    /// The inner product of the vector with itself.
    pub open spec fn spec_norm_squared(self) -> Scalar {
        self.spec_dot(self)
    }

    /// The length: the root of the exact sum of the squared components, so
    /// that no intermediate square is clamped.
    pub open spec fn spec_norm(self) -> Scalar {
        Scalar::of(
            floor_sqrt(self.x.raw * self.x.raw + self.y.raw * self.y.raw + self.z.raw * self.z.raw),
        )
    }

    /// The vector divided by its length; the zero vector stays zero.
    pub open spec fn spec_normalize(self) -> Vector3 {
        self.spec_unscale(self.spec_norm())
    }

    /// The point a fraction `t` of the way from `self` to `rhs`.
    pub open spec fn spec_lerp(self, rhs: Vector3, t: Scalar) -> Vector3 {
        self.spec_scale(Scalar::one().sub(t)).spec_add(rhs.spec_scale(t))
    }

    /// The vector of the three components.
    #[verifier::when_used_as_spec(spec_new)]
    pub fn new(x: Scalar, y: Scalar, z: Scalar) -> (r: Vector3)
        ensures
            r == Vector3::spec_new(x, y, z),
    {
        Vector3 { x, y, z }
    }

    /// The vector without length.
    #[verifier::when_used_as_spec(spec_zeros)]
    pub fn zeros() -> (r: Vector3)
        ensures
            r == Vector3::spec_zeros(),
    {
        Vector3 { x: Scalar::zero(), y: Scalar::zero(), z: Scalar::zero() }
    }

    /// The sum, component by component.
    #[verifier::when_used_as_spec(spec_add)]
    pub fn add(self, rhs: Vector3) -> (r: Vector3)
        ensures
            r == self.spec_add(rhs),
    {
        Vector3 { x: self.x.add(rhs.x), y: self.y.add(rhs.y), z: self.z.add(rhs.z) }
    }

    /// The difference, component by component.
    #[verifier::when_used_as_spec(spec_sub)]
    pub fn sub(self, rhs: Vector3) -> (r: Vector3)
        ensures
            r == self.spec_sub(rhs),
    {
        Vector3 { x: self.x.sub(rhs.x), y: self.y.sub(rhs.y), z: self.z.sub(rhs.z) }
    }

    /// The vector turned round.
    #[verifier::when_used_as_spec(spec_neg)]
    pub fn neg(self) -> (r: Vector3)
        ensures
            r == self.spec_neg(),
    {
        Vector3 { x: self.x.neg(), y: self.y.neg(), z: self.z.neg() }
    }

    /// Each component times `s`.
    #[verifier::when_used_as_spec(spec_scale)]
    pub fn scale(self, s: Scalar) -> (r: Vector3)
        ensures
            r == self.spec_scale(s),
    {
        Vector3 { x: self.x.mul(s), y: self.y.mul(s), z: self.z.mul(s) }
    }

    /// Each component divided by `s`.
    #[verifier::when_used_as_spec(spec_unscale)]
    pub fn unscale(self, s: Scalar) -> (r: Vector3)
        ensures
            r == self.spec_unscale(s),
    {
        Vector3 { x: self.x.div(s), y: self.y.div(s), z: self.z.div(s) }
    }

    /// The inner product: the sum of the three products in full, rounded
    /// toward zero once and clamped.
    #[verifier::when_used_as_spec(spec_dot)]
    pub fn dot(self, rhs: Vector3) -> (r: Scalar)
        ensures
            r == self.spec_dot(rhs),
    {
        proof {
            reveal(truncated_quotient);
        }
        let (pos, neg) = self.dot_parts(rhs);
        if pos >= neg {
            let q: u128 = (pos - neg) / 1_000_000_000;
            if q > LIMIT as u128 {
                Scalar { raw: LIMIT }
            } else {
                Scalar { raw: q as i64 }
            }
        } else {
            let q: u128 = (neg - pos) / 1_000_000_000;
            if q > LIMIT as u128 {
                Scalar { raw: -LIMIT }
            } else {
                Scalar { raw: -(q as i64) }
            }
        }
    }

    /// The vector product, perpendicular to both.
    #[verifier::when_used_as_spec(spec_cross)]
    pub fn cross(self, rhs: Vector3) -> (r: Vector3)
        ensures
            r == self.spec_cross(rhs),
    {
        Vector3 {
            x: self.y.mul(rhs.z).sub(self.z.mul(rhs.y)),
            y: self.z.mul(rhs.x).sub(self.x.mul(rhs.z)),
            z: self.x.mul(rhs.y).sub(self.y.mul(rhs.x)),
        }
    }

    /// The inner product of the vector with itself.
    #[verifier::when_used_as_spec(spec_norm_squared)]
    pub fn norm_squared(self) -> (r: Scalar)
        ensures
            r == self.spec_norm_squared(),
    {
        self.dot(self)
    }

    /// The length: the root of the exact sum of the squared components.
    #[verifier::when_used_as_spec(spec_norm)]
    pub fn norm(self) -> (r: Scalar)
        ensures
            r == self.spec_norm(),
    {
        let sum: u128 = square_of(self.x.raw) + square_of(self.y.raw) + square_of(self.z.raw);
        let root: u64 = isqrt(sum);
        if root > LIMIT as u64 {
            Scalar { raw: LIMIT }
        } else {
            Scalar { raw: root as i64 }
        }
    }

    /// The vector divided by its length; the zero vector stays zero.
    #[verifier::when_used_as_spec(spec_normalize)]
    pub fn normalize(self) -> (r: Vector3)
        ensures
            r == self.spec_normalize(),
    {
        self.unscale(self.norm())
    }

    /// The point a fraction `t` of the way from `self` to `rhs`.
    #[verifier::when_used_as_spec(spec_lerp)]
    pub fn lerp(self, rhs: Vector3, t: Scalar) -> (r: Vector3)
        ensures
            r == self.spec_lerp(rhs, t),
    {
        self.scale(Scalar::one().sub(t)).add(rhs.scale(t))
    }

    /// A squared length is not negative.
    pub proof fn lemma_norm_squared_nonnegative(v: Vector3)
        ensures
            v.dot_exact(v) >= 0,
            v.norm_squared().raw >= 0,
            v.dot_exact(v) == 0 <==> v == Vector3::zeros(),
    {
        reveal(truncated_quotient);
        let (x, y, z) = (v.x.raw as int, v.y.raw as int, v.z.raw as int);
        assert(x * x >= 0 && y * y >= 0 && z * z >= 0 && (x * x == 0 <==> x == 0) && (y * y == 0
            <==> y == 0) && (z * z == 0 <==> z == 0)) by (nonlinear_arith);
        lemma_div_pos_is_pos(v.dot_exact(v), SCALE as int);
    }

    /// The length is at least each component's magnitude, unless it is the
    /// largest number there is.
    pub proof fn lemma_norm_dominates(v: Vector3)
        ensures
            v.norm().raw >= 0,
            v.norm().raw == LIMIT || (magnitude(v.x.raw as int) <= v.norm().raw && magnitude(
                v.y.raw as int,
            ) <= v.norm().raw && magnitude(v.z.raw as int) <= v.norm().raw),
    {
        let (x, y, z) = (v.x.raw as int, v.y.raw as int, v.z.raw as int);
        let sum = x * x + y * y + z * z;
        assert(x * x >= 0 && y * y >= 0 && z * z >= 0) by (nonlinear_arith);
        lemma_floor_sqrt_exists(sum);
        let r = floor_sqrt(sum);
        assert(magnitude(x) <= r && magnitude(y) <= r && magnitude(z) <= r) by (nonlinear_arith)
            requires
                0 <= r,
                sum < (r + 1) * (r + 1),
                sum == x * x + y * y + z * z,
        {
            assert(x * x <= sum && y * y <= sum && z * z <= sum);
            assert(magnitude(x) * magnitude(x) == x * x);
            assert(magnitude(y) * magnitude(y) == y * y);
            assert(magnitude(z) * magnitude(z) == z * z);
            assert(magnitude(x) >= r + 1 ==> magnitude(x) * magnitude(x) >= (r + 1) * (r + 1));
            assert(magnitude(y) >= r + 1 ==> magnitude(y) * magnitude(y) >= (r + 1) * (r + 1));
            assert(magnitude(z) >= r + 1 ==> magnitude(z) * magnitude(z) >= (r + 1) * (r + 1));
        }
    }

    /// A vector brought to length one has no component above one in
    /// magnitude.
    pub proof fn lemma_normalize_bounded(v: Vector3)
        ensures
            -SCALE <= v.normalize().x.raw <= SCALE,
            -SCALE <= v.normalize().y.raw <= SCALE,
            -SCALE <= v.normalize().z.raw <= SCALE,
    {
        Vector3::lemma_norm_dominates(v);
        let n = v.norm();
        if n.raw > 0 {
            lemma_div_at_most_one(v.x, n);
            lemma_div_at_most_one(v.y, n);
            lemma_div_at_most_one(v.z, n);
        }
    }

    /// Turning the first vector round turns the inner product round.
    pub proof fn lemma_neg_dot(d: Vector3, n: Vector3)
        requires
            d.x.bounded(),
            d.y.bounded(),
            d.z.bounded(),
        ensures
            d.neg().dot_exact(n) == -d.dot_exact(n),
            d.neg().dot(n).raw == -d.dot(n).raw,
    {
        reveal(truncated_quotient);
        assert((-d.x.raw) * n.x.raw == -(d.x.raw * n.x.raw)) by (nonlinear_arith);
        assert((-d.y.raw) * n.y.raw == -(d.y.raw * n.y.raw)) by (nonlinear_arith);
        assert((-d.z.raw) * n.z.raw == -(d.z.raw * n.z.raw)) by (nonlinear_arith);
    }

    /// Turning a vector round turns its inner product with any other round.
    pub proof fn lemma_dot_neg(d: Vector3, n: Vector3)
        requires
            n.x.bounded(),
            n.y.bounded(),
            n.z.bounded(),
        ensures
            d.dot_exact(n.neg()) == -d.dot_exact(n),
            d.dot(n.neg()).raw == -d.dot(n).raw,
    {
        reveal(truncated_quotient);
        assert(d.x.raw * (-n.x.raw) == -(d.x.raw * n.x.raw)) by (nonlinear_arith);
        assert(d.y.raw * (-n.y.raw) == -(d.y.raw * n.y.raw)) by (nonlinear_arith);
        assert(d.z.raw * (-n.z.raw) == -(d.z.raw * n.z.raw)) by (nonlinear_arith);
    }

    /// The inner product has the sign of the inner product in full, or is
    /// zero.
    pub proof fn lemma_dot_sign(d: Vector3, n: Vector3)
        ensures
            d.dot_exact(n) <= 0 ==> d.dot(n).raw <= 0,
            d.dot_exact(n) >= 0 ==> d.dot(n).raw >= 0,
    {
        reveal(truncated_quotient);
        lemma_div_pos_is_pos(magnitude(d.dot_exact(n)), SCALE as int);
    }
}

} // verus!
